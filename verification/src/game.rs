use vstd::prelude::*;

use crate::direction::Direction;
use crate::tile::{is_snake, Tile};

verus! {

/// Largest accepted grid side, so that every index and the snake's length
/// fit comfortably in the machine integers used by the implementation.
pub const MAX_DIM: i32 = 4096;

/// The game board: a `width` x `height` grid of tiles together with the
/// snake's head position, its current direction, its length and whether it
/// is still alive.
///
/// Tiles are stored column by column: the tile of column `x` and row `y`
/// sits at index `x * height + y`. Segment identity is encoded purely by
/// each tile's age; the ghost `body` sequence records the same cells in
/// order of entry (most recent first), and `food` records where the single
/// food tile lies.
pub struct Game {
    pub width: i32,
    pub height: i32,
    pub tiles: Vec<Tile>,
    pub direction: Direction,
    pub alive: bool,
    pub length: i32,
    pub head_x: i32,
    pub head_y: i32,
    /// The snake's cells, most recently entered first: the cell at
    /// position `i` carries a segment of age `i + 1`.
    pub body: Ghost<Seq<(int, int)>>,
    /// Where the single food tile lies, if any.
    pub food: Ghost<Option<(int, int)>>,
}

/// Whether `(x, y)` lies on a `w` x `h` grid.
pub open spec fn grid_in_bounds(w: i32, h: i32, x: int, y: int) -> bool {
    0 <= x < w && 0 <= y < h
}

/// The flat index of the tile of column `x` and row `y` on a grid of
/// height `h`.
pub open spec fn grid_idx(h: i32, x: int, y: int) -> int {
    x * h + y
}

/// The tile of column `x` and row `y` on a grid of height `h`.
pub open spec fn grid_at(tiles: Seq<Tile>, h: i32, x: int, y: int) -> Tile {
    tiles[grid_idx(h, x, y)]
}

/// The grid has positive, bounded dimensions and one stored tile per cell.
pub open spec fn grid_dims_ok(tiles: Seq<Tile>, w: i32, h: i32) -> bool {
    &&& 1 <= w <= MAX_DIM
    &&& 1 <= h <= MAX_DIM
    &&& tiles.len() == w * h
}

/// Some cell of the grid is empty.
pub open spec fn grid_has_empty(tiles: Seq<Tile>, w: i32, h: i32) -> bool {
    exists|x: int, y: int|
        grid_in_bounds(w, h, x, y) && #[trigger] grid_at(tiles, h, x, y) == Tile::Empty
}

/// No cell of the grid is empty.
pub open spec fn grid_full(tiles: Seq<Tile>, w: i32, h: i32) -> bool {
    forall|x: int, y: int|
        grid_in_bounds(w, h, x, y) ==> #[trigger] grid_at(tiles, h, x, y) != Tile::Empty
}

/// The grid's snake tiles are exactly the cells of `body`, and the cell at
/// position `i` of `body` carries a segment of age `i + 1`.
pub open spec fn grid_body_ok(tiles: Seq<Tile>, w: i32, h: i32, body: Seq<(int, int)>) -> bool {
    &&& forall|i: int|
        0 <= i < body.len() ==> grid_in_bounds(w, h, (#[trigger] body[i]).0, body[i].1)
    &&& forall|i: int, j: int| 0 <= i < j < body.len() ==> #[trigger] body[i] != #[trigger] body[j]
    &&& forall|i: int|
        0 <= i < body.len() ==> grid_at(tiles, h, (#[trigger] body[i]).0, body[i].1) == Tile::Snake(
            (i + 1) as i32,
        )
    &&& forall|x: int, y: int|
        grid_in_bounds(w, h, x, y) && is_snake(#[trigger] grid_at(tiles, h, x, y)) ==> {
            let a = crate::tile::snake_age(grid_at(tiles, h, x, y));
            &&& 1 <= a <= body.len()
            &&& body[a - 1] == (x, y)
        }
}

/// The grid's food tiles are exactly the cell recorded in `food`.
pub open spec fn grid_food_ok(tiles: Seq<Tile>, w: i32, h: i32, food: Option<(int, int)>) -> bool {
    &&& (food matches Some(c) ==> grid_in_bounds(w, h, c.0, c.1))
    &&& forall|x: int, y: int|
        grid_in_bounds(w, h, x, y) ==> ((#[trigger] grid_at(tiles, h, x, y)) == Tile::Food <==> food
            == Some((x, y)))
}

impl Game {
    /// Whether `(x, y)` lies on the grid.
    pub open spec fn in_bounds(self, x: int, y: int) -> bool {
        grid_in_bounds(self.width, self.height, x, y)
    }

    /// The flat index of the tile of column `x` and row `y`.
    pub open spec fn idx(self, x: int, y: int) -> int {
        grid_idx(self.height, x, y)
    }

    /// The tile of column `x` and row `y`.
    pub open spec fn at(self, x: int, y: int) -> Tile
        recommends
            self.in_bounds(x, y),
    {
        grid_at(self.tiles@, self.height, x, y)
    }

    /// The grid has positive, bounded dimensions and one stored tile per
    /// cell.
    pub open spec fn dims_ok(self) -> bool {
        grid_dims_ok(self.tiles@, self.width, self.height)
    }

    /// Some cell of the grid is empty.
    pub open spec fn has_empty(self) -> bool {
        grid_has_empty(self.tiles@, self.width, self.height)
    }

    /// No cell of the grid is empty.
    pub open spec fn full(self) -> bool {
        grid_full(self.tiles@, self.width, self.height)
    }

    /// The grid's snake tiles are exactly the cells of `body`, and the cell
    /// at position `i` carries age `i + 1`.
    pub open spec fn body_ok(self) -> bool {
        grid_body_ok(self.tiles@, self.width, self.height, self.body@)
    }

    /// The grid's food tiles are exactly the cell recorded in `food`.
    pub open spec fn food_ok(self) -> bool {
        grid_food_ok(self.tiles@, self.width, self.height, self.food@)
    }

    /// The game's invariant: a well-shaped grid whose snake tiles follow
    /// `body` and whose food tile follows `food`; the length stays within
    /// three of the number of segments (it runs ahead only while the snake
    /// is still growing out to its initial length); while alive the head is
    /// on the grid and a food tile exists unless the snake fills the board.
    pub open spec fn wf(self) -> bool {
        &&& self.dims_ok()
        &&& 3 <= self.length
        &&& self.body@.len() <= self.length <= self.body@.len() + 3
        &&& self.body_ok()
        &&& self.food_ok()
        &&& (self.alive ==> self.in_bounds(self.head_x as int, self.head_y as int))
        &&& (self.alive ==> (self.food@ is Some || self.full()))
    }
}

/// A flat index built from an in-bounds coordinate pair lies within the
/// grid's tile storage.
pub proof fn lemma_idx_bounds(x: int, y: int, w: int, h: int)
    by (nonlinear_arith)
    requires
        0 <= x < w,
        0 <= y < h,
        w <= MAX_DIM as int,
        h <= MAX_DIM as int,
    ensures
        0 <= x * h + y < w * h,
        0 <= x * h,
        x * h + y < 0x100_0000,
{
}

/// Distinct in-bounds coordinate pairs have distinct flat indices.
pub proof fn lemma_idx_injective(x1: int, y1: int, x2: int, y2: int, h: int)
    by (nonlinear_arith)
    requires
        0 <= y1 < h,
        0 <= y2 < h,
        x1 * h + y1 == x2 * h + y2,
    ensures
        x1 == x2 && y1 == y2,
{
}

/// Writing one cell changes that cell's tile and no other.
pub proof fn lemma_grid_update(tiles: Seq<Tile>, w: i32, h: i32, x: int, y: int, t: Tile)
    requires
        grid_dims_ok(tiles, w, h),
        grid_in_bounds(w, h, x, y),
    ensures
        grid_dims_ok(tiles.update(grid_idx(h, x, y), t), w, h),
        grid_at(tiles.update(grid_idx(h, x, y), t), h, x, y) == t,
        forall|a: int, b: int|
            grid_in_bounds(w, h, a, b) && (a, b) != (x, y) ==> #[trigger] grid_at(
                tiles.update(grid_idx(h, x, y), t),
                h,
                a,
                b,
            ) == grid_at(tiles, h, a, b),
{
    lemma_idx_bounds(x, y, w as int, h as int);
    let updated = tiles.update(grid_idx(h, x, y), t);
    assert forall|a: int, b: int|
        grid_in_bounds(w, h, a, b) && (a, b) != (x, y) implies #[trigger] grid_at(updated, h, a, b)
        == grid_at(tiles, h, a, b) by {
        lemma_idx_bounds(a, b, w as int, h as int);
        if a * h + b == x * h + y {
            lemma_idx_injective(a, b, x, y, h as int);
        }
    }
}

/// A body of distinct, in-bounds cells can never outgrow the grid: each
/// cell occupies a distinct flat index below `w * h`.
pub proof fn lemma_body_len_bound(tiles: Seq<Tile>, w: i32, h: i32, body: Seq<(int, int)>)
    requires
        grid_dims_ok(tiles, w, h),
        grid_body_ok(tiles, w, h, body),
    ensures
        body.len() <= w * h,
{
    let hi = h as int;
    let ixs = body.map(|i: int, p: (int, int)| p.0 * hi + p.1);
    assert forall|i: int, j: int|
        0 <= i < ixs.len() && 0 <= j < ixs.len() && i != j implies ixs[i] != ixs[j] by {
        assert(body[i] != body[j]);
        if ixs[i] == ixs[j] {
            lemma_idx_injective(body[i].0, body[i].1, body[j].0, body[j].1, hi);
        }
    }
    assert(ixs.no_duplicates());
    ixs.unique_seq_to_set();
    let range = vstd::set_lib::set_int_range(0, w * h);
    assert forall|e: int| ixs.to_set().contains(e) implies range.contains(e) by {
        let i = choose|i: int| 0 <= i < ixs.len() && ixs[i] == e;
        lemma_idx_bounds(body[i].0, body[i].1, w as int, hi);
    }
    vstd::set_lib::lemma_int_range(0, w * h);
    vstd::set_lib::lemma_len_subset(ixs.to_set(), range);
}

/// The tile a cell holds after one aging pass at snake length `length`: a
/// segment whose age has reached `length` disappears, any other segment
/// grows one tick older, and empty or food tiles are untouched.
pub open spec fn age_tile(t: Tile, length: i32) -> Tile {
    match t {
        Tile::Snake(v) => if v >= length {
            Tile::Empty
        } else {
            Tile::Snake((v + 1) as i32)
        },
        _ => t,
    }
}

/// The snake's cells after a live tick onto `(nx, ny)`: the new head
/// first, then the old cells, save those whose age would reach the (new)
/// length `length`.
pub open spec fn next_body(body: Seq<(int, int)>, nx: int, ny: int, length: i32) -> Seq<
    (int, int),
> {
    seq![(nx, ny)] + body.take(vstd::math::min(body.len() as int, length - 1))
}

/// How many random draws food placement makes before it falls back to a
/// deterministic scan for an empty cell.
const SPAWN_TRIES: u32 = 64;

/// Relies on rand::random_range with the range `0..bound`: the result is a
/// value of that range, drawn from the thread-local generator. Only
/// membership in the range is assumed, nothing about the distribution.
#[verifier::external_body]
fn random_below(bound: i32) -> (r: i32)
    requires
        1 <= bound,
    ensures
        0 <= r < bound,
{
    rand::random_range(0..bound)
}

impl Game {
    /// Reads the tile of column `x` and row `y`.
    pub fn tile_at(&self, x: i32, y: i32) -> (t: Tile)
        requires
            self.dims_ok(),
            self.in_bounds(x as int, y as int),
        ensures
            t == self.at(x as int, y as int),
    {
        proof {
            lemma_idx_bounds(x as int, y as int, self.width as int, self.height as int);
        }
        self.tiles[(x as usize) * (self.height as usize) + (y as usize)]
    }

    /// Writes the tile of column `x` and row `y`, leaving every other cell
    /// and every other field unchanged.
    pub fn set_tile(&mut self, x: i32, y: i32, t: Tile)
        requires
            old(self).dims_ok(),
            old(self).in_bounds(x as int, y as int),
        ensures
            final(self).dims_ok(),
            final(self).tiles@ == old(self).tiles@.update(
                old(self).idx(x as int, y as int),
                t,
            ),
            final(self).width == old(self).width,
            final(self).height == old(self).height,
            final(self).direction == old(self).direction,
            final(self).alive == old(self).alive,
            final(self).length == old(self).length,
            final(self).head_x == old(self).head_x,
            final(self).head_y == old(self).head_y,
            final(self).body == old(self).body,
            final(self).food == old(self).food,
    {
        proof {
            lemma_idx_bounds(x as int, y as int, self.width as int, self.height as int);
        }
        let i = (x as usize) * (self.height as usize) + (y as usize);
        self.tiles[i] = t;
    }

    /// Marks one empty cell as food, preferring a randomly drawn cell and
    /// falling back to a scan, and records it in `food`. When no cell is
    /// empty the grid is left unchanged and `food` becomes `None`.
    fn spawn_food(&mut self)
        requires
            old(self).dims_ok(),
        ensures
            final(self).dims_ok(),
            final(self).width == old(self).width,
            final(self).height == old(self).height,
            final(self).direction == old(self).direction,
            final(self).alive == old(self).alive,
            final(self).length == old(self).length,
            final(self).head_x == old(self).head_x,
            final(self).head_y == old(self).head_y,
            final(self).body == old(self).body,
            old(self).has_empty() ==> final(self).food@ is Some,
            match final(self).food@ {
                Some(c) => {
                    &&& grid_in_bounds(old(self).width, old(self).height, c.0, c.1)
                    &&& grid_at(old(self).tiles@, old(self).height, c.0, c.1) == Tile::Empty
                    &&& final(self).tiles@ == old(self).tiles@.update(
                        grid_idx(old(self).height, c.0, c.1),
                        Tile::Food,
                    )
                },
                None => {
                    &&& !old(self).has_empty()
                    &&& final(self).tiles@ == old(self).tiles@
                },
            },
    {
        let w = self.width;
        let h = self.height;
        let mut tries: u32 = 0;
        while tries < SPAWN_TRIES
            invariant
                *self == *old(self),
                self.dims_ok(),
                w == self.width,
                h == self.height,
            decreases SPAWN_TRIES - tries,
        {
            let x = random_below(w);
            let y = random_below(h);
            let t = self.tile_at(x, y);
            if t == Tile::Empty {
                self.set_tile(x, y, Tile::Food);
                self.food = Ghost(Some((x as int, y as int)));
                return ;
            }
            tries = tries + 1;
        }
        let mut sx: i32 = 0;
        while sx < w
            invariant
                *self == *old(self),
                self.dims_ok(),
                w == self.width,
                h == self.height,
                0 <= sx <= w,
                forall|a: int, b: int|
                    0 <= a < sx && 0 <= b < h ==> #[trigger] grid_at(self.tiles@, h, a, b)
                        != Tile::Empty,
            decreases w - sx,
        {
            let mut sy: i32 = 0;
            while sy < h
                invariant
                    *self == *old(self),
                    self.dims_ok(),
                    w == self.width,
                    h == self.height,
                    0 <= sx < w,
                    0 <= sy <= h,
                    forall|a: int, b: int|
                        0 <= a < sx && 0 <= b < h ==> #[trigger] grid_at(self.tiles@, h, a, b)
                            != Tile::Empty,
                    forall|b: int|
                        0 <= b < sy ==> #[trigger] grid_at(self.tiles@, h, sx as int, b)
                            != Tile::Empty,
                decreases h - sy,
            {
                let t = self.tile_at(sx, sy);
                if t == Tile::Empty {
                    self.set_tile(sx, sy, Tile::Food);
                    self.food = Ghost(Some((sx as int, sy as int)));
                    return ;
                }
                sy = sy + 1;
            }
            sx = sx + 1;
        }
        self.food = Ghost(None);
    }

    /// Creates a game on a `width` x `height` grid of empty tiles, the head
    /// centred, the snake pointing up with length 3 and no segments placed
    /// yet, and one food tile spawned somewhere on the grid.
    pub fn new(width: i32, height: i32) -> (g: Game)
        requires
            1 <= width <= MAX_DIM,
            1 <= height <= MAX_DIM,
        ensures
            g.wf(),
            g.width == width,
            g.height == height,
            g.direction == Direction::Up,
            g.alive,
            g.length == 3,
            g.head_x == width / 2,
            g.head_y == height / 2,
            g.body@ == Seq::<(int, int)>::empty(),
            g.food@ is Some,
    {
        assert(1 <= (width as int) * (height as int) <= 0x100_0000) by (nonlinear_arith)
            requires
                1 <= width as int <= 4096,
                1 <= height as int <= 4096,
        ;
        let n = (width as usize) * (height as usize);
        let mut tiles: Vec<Tile> = Vec::new();
        let mut i: usize = 0;
        while i < n
            invariant
                i <= n,
                tiles@.len() == i as int,
                forall|k: int| 0 <= k < i ==> #[trigger] tiles@[k] == Tile::Empty,
            decreases n - i,
        {
            tiles.push(Tile::Empty);
            i = i + 1;
        }
        let mut g = Game {
            width,
            height,
            tiles,
            direction: Direction::Up,
            alive: true,
            length: 3,
            head_x: width / 2,
            head_y: height / 2,
            body: Ghost(Seq::empty()),
            food: Ghost(None),
        };
        let ghost tiles0 = g.tiles@;
        proof {
            assert forall|a: int, b: int| grid_in_bounds(width, height, a, b) implies #[trigger] grid_at(
                tiles0,
                height,
                a,
                b,
            ) == Tile::Empty by {
                lemma_idx_bounds(a, b, width as int, height as int);
            }
            assert(grid_at(tiles0, height, 0, 0) == Tile::Empty);
            assert(g.has_empty());
        }
        g.spawn_food();
        proof {
            let c = g.food@->Some_0;
            lemma_grid_update(tiles0, width, height, c.0, c.1, Tile::Food);
            assert forall|a: int, b: int| grid_in_bounds(width, height, a, b) implies !is_snake(
                #[trigger] grid_at(g.tiles@, height, a, b),
            ) && (grid_at(g.tiles@, height, a, b) == Tile::Food <==> g.food@ == Some(
                (a, b),
            )) by {
                if (a, b) == c {
                } else {
                    assert(grid_at(g.tiles@, height, a, b) == grid_at(tiles0, height, a, b));
                }
            }
            assert(g.body_ok());
            assert(g.food_ok());
            assert(0 <= width / 2 < width);
            assert(0 <= height / 2 < height);
        }
        g
    }

    /// Points the snake in a new direction. The request is rejected, and
    /// nothing changes, exactly when it asks for the opposite of the
    /// current direction — the snake cannot reverse into its own neck.
    pub fn set_direction(&mut self, direction: Direction) -> (r: Result<(), ()>)
        ensures
            direction == old(self).direction.spec_opposite() ==> (r is Err && *final(self) == *old(
                self,
            )),
            direction != old(self).direction.spec_opposite() ==> (r is Ok && *final(self)
                == (Game { direction, ..*old(self) })),
            old(self).wf() ==> final(self).wf(),
    {
        if direction == self.direction.opposite() {
            Err(())
        } else {
            self.direction = direction;
            Ok(())
        }
    }

    /// Whether the snake is still alive.
    pub fn alive(&self) -> (r: bool)
        ensures
            r == self.alive,
    {
        self.alive
    }

    /// The column the head stands on after moving one cell in the current
    /// direction.
    pub open spec fn next_x(self) -> int {
        match self.direction {
            Direction::Left => self.head_x - 1,
            Direction::Right => self.head_x + 1,
            _ => self.head_x as int,
        }
    }

    /// The row the head stands on after moving one cell in the current
    /// direction.
    pub open spec fn next_y(self) -> int {
        match self.direction {
            Direction::Up => self.head_y - 1,
            Direction::Down => self.head_y + 1,
            _ => self.head_y as int,
        }
    }
}

impl Game {
    /// The set of cells that hold a snake segment.
    pub open spec fn snake_cells(self) -> Set<(int, int)> {
        Set::new(|p: (int, int)| self.in_bounds(p.0, p.1) && is_snake(self.at(p.0, p.1)))
    }

    /// The set of cells that hold food.
    pub open spec fn food_cells(self) -> Set<(int, int)> {
        Set::new(|p: (int, int)| self.in_bounds(p.0, p.1) && self.at(p.0, p.1) == Tile::Food)
    }
}

/// Law: the number of snake-tagged cells on the grid is exactly the number
/// of recorded body segments. Together with `update`'s contract this says
/// the count equals `length` after every live tick once the snake has
/// grown out to its length, and grows by one per tick before that.
pub proof fn lemma_snake_cell_count(g: Game)
    requires
        g.wf(),
    ensures
        g.snake_cells().finite(),
        g.snake_cells().len() == g.body@.len(),
{
    broadcast use vstd::set::group_set_axioms;

    assert forall|i: int, j: int|
        0 <= i < g.body@.len() && 0 <= j < g.body@.len() && i != j implies g.body@[i]
        != g.body@[j] by {
        if i < j {
        } else {
        }
    }
    assert(g.body@.no_duplicates());
    assert forall|p: (int, int)| g.snake_cells().contains(p) implies g.body@.to_set().contains(
        p,
    ) by {
        let a = crate::tile::snake_age(grid_at(g.tiles@, g.height, p.0, p.1));
        assert(g.body@[a - 1] == p);
    }
    assert forall|p: (int, int)| g.body@.to_set().contains(p) implies g.snake_cells().contains(
        p,
    ) by {
        let i = choose|i: int| 0 <= i < g.body@.len() && g.body@[i] == p;
        assert(grid_at(g.tiles@, g.height, p.0, p.1) == Tile::Snake((i + 1) as i32));
    }
    assert(g.snake_cells() =~= g.body@.to_set());
    g.body@.unique_seq_to_set();
}

/// Law: while the snake is alive and at least one cell is empty, exactly
/// one food cell exists on the grid.
pub proof fn lemma_one_food(g: Game)
    requires
        g.wf(),
        g.alive,
        g.has_empty(),
    ensures
        g.food_cells().finite(),
        g.food_cells().len() == 1,
{
    broadcast use vstd::set::group_set_axioms;

    if g.food@ is None {
        let (x, y) = choose|x: int, y: int|
            grid_in_bounds(g.width, g.height, x, y) && #[trigger] grid_at(g.tiles@, g.height, x, y)
                == Tile::Empty;
        assert(grid_at(g.tiles@, g.height, x, y) != Tile::Empty);
    }
    let c = g.food@->Some_0;
    assert(grid_at(g.tiles@, g.height, c.0, c.1) == Tile::Food);
    assert(g.food_cells() =~= Set::empty().insert(c));
    assert(Set::<(int, int)>::empty().insert(c).len() == 1);
}

/// The grid as it stands between head placement and the aging pass of a
/// live tick: the new head cell carries a fresh segment, a newly spawned
/// food tile (present only when the tick ate) lies at `food1`, and every
/// other cell still holds its previous tile.
spec fn placed_tile(
    tiles0: Seq<Tile>,
    h: i32,
    ate: bool,
    food1: Option<(int, int)>,
    nx: int,
    ny: int,
    a: int,
    b: int,
) -> Tile {
    if (a, b) == (nx, ny) {
        Tile::Snake(0)
    } else if ate && food1 == Some((a, b)) {
        Tile::Food
    } else {
        grid_at(tiles0, h, a, b)
    }
}

impl Game {
    /// One simulation step. The head advances one cell in the current
    /// direction. Leaving the grid, or entering a cell that holds a snake
    /// segment, kills the snake and changes nothing else. Entering an
    /// empty cell places a fresh head segment there; entering the food
    /// cell additionally grows the snake by one and spawns food on some
    /// empty cell (none is placed if no cell is empty). Every surviving
    /// segment then ages by one tick, and segments whose age reaches the
    /// length disappear — which is what moves the tail.
    #[verifier::rlimit(50)]
    pub fn update(&mut self)
        requires
            old(self).wf(),
            old(self).alive,
        ensures
            final(self).wf(),
            final(self).width == old(self).width,
            final(self).height == old(self).height,
            final(self).direction == old(self).direction,
            final(self).head_x as int == old(self).next_x(),
            final(self).head_y as int == old(self).next_y(),
            ({
                let w = old(self).width;
                let h = old(self).height;
                let nx = old(self).next_x();
                let ny = old(self).next_y();
                &&& (!grid_in_bounds(w, h, nx, ny) ==> {
                    &&& !final(self).alive
                    &&& final(self).tiles@ == old(self).tiles@
                    &&& final(self).length == old(self).length
                    &&& final(self).body == old(self).body
                    &&& final(self).food == old(self).food
                })
                &&& (grid_in_bounds(w, h, nx, ny) && is_snake(grid_at(old(self).tiles@, h, nx, ny))
                    ==> {
                    &&& !final(self).alive
                    &&& final(self).tiles@ == old(self).tiles@
                    &&& final(self).length == old(self).length
                    &&& final(self).body == old(self).body
                    &&& final(self).food == old(self).food
                })
                &&& (grid_in_bounds(w, h, nx, ny) && grid_at(old(self).tiles@, h, nx, ny)
                    == Tile::Empty ==> {
                    &&& final(self).alive
                    &&& final(self).length == old(self).length
                    &&& final(self).food == old(self).food
                    &&& final(self).body@ == next_body(old(self).body@, nx, ny, old(self).length)
                })
                &&& (grid_in_bounds(w, h, nx, ny) && grid_at(old(self).tiles@, h, nx, ny)
                    == Tile::Food ==> {
                    &&& final(self).alive
                    &&& final(self).length == old(self).length + 1
                    &&& final(self).body@ == seq![(nx, ny)] + old(self).body@
                    &&& (old(self).has_empty() ==> final(self).food@ is Some)
                    &&& (!old(self).has_empty() ==> final(self).food@ is None)
                    &&& (final(self).food@ matches Some(c) ==> grid_at(old(self).tiles@, h, c.0, c.1)
                        == Tile::Empty && c != (nx, ny))
                })
                &&& (final(self).alive ==> final(self).body@.len() == vstd::math::min(
                    old(self).body@.len() as int + 1,
                    final(self).length as int,
                ))
                &&& (final(self).alive ==> final(self).snake_cells().len() == vstd::math::min(
                    old(self).body@.len() as int + 1,
                    final(self).length as int,
                ))
                &&& (final(self).alive && old(self).body@.len() == old(self).length
                    ==> final(self).snake_cells().len() == final(self).length)
                &&& (final(self).alive && old(self).body@.len() < old(self).length
                    ==> final(self).snake_cells().len() == old(self).body@.len() + 1)
            }),
    {
        let ghost prev = *old(self);
        match self.direction {
            Direction::Up => {
                self.head_y = self.head_y - 1;
            },
            Direction::Down => {
                self.head_y = self.head_y + 1;
            },
            Direction::Left => {
                self.head_x = self.head_x - 1;
            },
            Direction::Right => {
                self.head_x = self.head_x + 1;
            },
        }
        if self.head_x < 0 || self.head_x >= self.width || self.head_y < 0 || self.head_y
            >= self.height {
            self.alive = false;
            return ;
        }
        let nxs = self.head_x;
        let nys = self.head_y;
        let ghost nx = nxs as int;
        let ghost ny = nys as int;
        let t = self.tile_at(nxs, nys);
        match t {
            Tile::Snake(_) => {
                self.alive = false;
                return ;
            },
            _ => {},
        }
        let ghost ate = (t == Tile::Food);
        if t == Tile::Food {
            proof {
                lemma_body_len_bound(prev.tiles@, prev.width, prev.height, prev.body@);
                assert((prev.width as int) * (prev.height as int) <= 0x100_0000)
                    by (nonlinear_arith)
                    requires
                        1 <= prev.width as int <= 4096,
                        1 <= prev.height as int <= 4096,
                ;
            }
            self.length = self.length + 1;
            self.spawn_food();
        }
        let ghost ts1 = self.tiles@;
        let ghost food1 = self.food@;
        self.set_tile(nxs, nys, Tile::Snake(0));
        let w = self.width;
        let h = self.height;
        let len = self.length;
        self.body = Ghost(next_body(prev.body@, nx, ny, len));
        let ghost mid = *self;
        proof {
            lemma_grid_update(ts1, w, h, nx, ny, Tile::Snake(0));
            if ate {
                match food1 {
                    Some(c) => lemma_grid_update(prev.tiles@, w, h, c.0, c.1, Tile::Food),
                    None => (),
                }
            }
            assert forall|a: int, b: int| grid_in_bounds(w, h, a, b) implies #[trigger] grid_at(
                mid.tiles@,
                h,
                a,
                b,
            ) == placed_tile(prev.tiles@, h, ate, food1, nx, ny, a, b) by {}
        }
        let mut x: i32 = 0;
        while x < w
            invariant
                0 <= x <= w,
                w == self.width,
                h == self.height,
                len == self.length,
                grid_dims_ok(self.tiles@, w, h),
                grid_dims_ok(mid.tiles@, w, h),
                self.alive == mid.alive,
                self.direction == mid.direction,
                self.head_x == mid.head_x,
                self.head_y == mid.head_y,
                self.length == mid.length,
                self.body == mid.body,
                self.food == mid.food,
                forall|a: int, b: int|
                    grid_in_bounds(w, h, a, b) && a < x ==> #[trigger] grid_at(self.tiles@, h, a, b)
                        == age_tile(grid_at(mid.tiles@, h, a, b), len),
                forall|a: int, b: int|
                    grid_in_bounds(w, h, a, b) && a >= x ==> #[trigger] grid_at(
                        self.tiles@,
                        h,
                        a,
                        b,
                    ) == grid_at(mid.tiles@, h, a, b),
            decreases w - x,
        {
            let mut y: i32 = 0;
            while y < h
                invariant
                    0 <= x < w,
                    0 <= y <= h,
                    w == self.width,
                    h == self.height,
                    len == self.length,
                    grid_dims_ok(self.tiles@, w, h),
                    grid_dims_ok(mid.tiles@, w, h),
                    self.alive == mid.alive,
                    self.direction == mid.direction,
                    self.head_x == mid.head_x,
                    self.head_y == mid.head_y,
                    self.length == mid.length,
                    self.body == mid.body,
                    self.food == mid.food,
                    forall|a: int, b: int|
                        grid_in_bounds(w, h, a, b) && a < x ==> #[trigger] grid_at(
                            self.tiles@,
                            h,
                            a,
                            b,
                        ) == age_tile(grid_at(mid.tiles@, h, a, b), len),
                    forall|b: int|
                        0 <= b < y ==> #[trigger] grid_at(self.tiles@, h, x as int, b) == age_tile(
                            grid_at(mid.tiles@, h, x as int, b),
                            len,
                        ),
                    forall|b: int|
                        y <= b < h ==> #[trigger] grid_at(self.tiles@, h, x as int, b) == grid_at(
                            mid.tiles@,
                            h,
                            x as int,
                            b,
                        ),
                    forall|a: int, b: int|
                        grid_in_bounds(w, h, a, b) && a > x ==> #[trigger] grid_at(
                            self.tiles@,
                            h,
                            a,
                            b,
                        ) == grid_at(mid.tiles@, h, a, b),
                decreases h - y,
            {
                let t2 = self.tile_at(x, y);
                match t2 {
                    Tile::Snake(val) => {
                        let ghost tsb = self.tiles@;
                        if val >= len {
                            self.set_tile(x, y, Tile::Empty);
                            proof {
                                lemma_grid_update(tsb, w, h, x as int, y as int, Tile::Empty);
                            }
                        } else {
                            self.set_tile(x, y, Tile::Snake(val + 1));
                            proof {
                                lemma_grid_update(
                                    tsb,
                                    w,
                                    h,
                                    x as int,
                                    y as int,
                                    Tile::Snake((val + 1) as i32),
                                );
                            }
                        }
                    },
                    _ => {},
                }
                y = y + 1;
            }
            x = x + 1;
        }
        proof {
            let tiles0 = prev.tiles@;
            let body0 = prev.body@;
            let n = body0.len() as int;
            let lenF = len as int;
            let k = vstd::math::min(n, lenF - 1);
            let bodyF = self.body@;
            let tilesF = self.tiles@;

            // What the previous invariant gives about the head's target cell
            // and the old body cells.
            assert(grid_at(tiles0, h, nx, ny) == t);
            assert(!is_snake(t));
            assert(n <= prev.length as int);
            assert(if ate {
                lenF == prev.length + 1
            } else {
                lenF == prev.length as int
            });
            assert(k >= 0);
            assert(bodyF.len() == 1 + k);

            // The head's cell is none of the old body cells, and the newly
            // spawned food cell is none of them either.
            assert forall|m: int| 0 <= m < n implies body0[m] != (nx, ny) by {
                assert(grid_at(tiles0, h, body0[m].0, body0[m].1) == Tile::Snake((m + 1) as i32));
            }
            assert(ate ==> (food1 matches Some(c) ==> grid_at(tiles0, h, c.0, c.1) == Tile::Empty));
            assert forall|m: int|
                0 <= m < n && ate && food1 is Some implies body0[m] != food1->Some_0 by {
                assert(grid_at(tiles0, h, body0[m].0, body0[m].1) == Tile::Snake((m + 1) as i32));
            }

            // The whole grid after the aging pass, cell by cell.
            assert forall|a: int, b: int| grid_in_bounds(w, h, a, b) implies #[trigger] grid_at(
                tilesF,
                h,
                a,
                b,
            ) == age_tile(placed_tile(tiles0, h, ate, food1, nx, ny, a, b), len) by {}

            // The aged grid's snake tiles are exactly the cells of bodyF.
            assert forall|i: int| 0 <= i < bodyF.len() implies grid_in_bounds(
                w,
                h,
                (#[trigger] bodyF[i]).0,
                bodyF[i].1,
            ) && grid_at(tilesF, h, bodyF[i].0, bodyF[i].1) == Tile::Snake((i + 1) as i32) by {
                if i == 0 {
                    assert(bodyF[0] == (nx, ny));
                    assert(placed_tile(tiles0, h, ate, food1, nx, ny, nx, ny) == Tile::Snake(0));
                } else {
                    assert(bodyF[i] == body0[i - 1]);
                    assert(grid_at(tiles0, h, body0[i - 1].0, body0[i - 1].1) == Tile::Snake(
                        i as i32,
                    ));
                    assert(placed_tile(tiles0, h, ate, food1, nx, ny, bodyF[i].0, bodyF[i].1)
                        == Tile::Snake(i as i32));
                    assert(i < lenF);
                }
            }
            assert forall|i: int, j: int|
                0 <= i < j < bodyF.len() implies #[trigger] bodyF[i] != #[trigger] bodyF[j] by {
                if i == 0 {
                    assert(bodyF[j] == body0[j - 1]);
                } else {
                    assert(bodyF[i] == body0[i - 1] && bodyF[j] == body0[j - 1]);
                }
            }
            assert forall|a: int, b: int|
                grid_in_bounds(w, h, a, b) && is_snake(#[trigger] grid_at(tilesF, h, a, b)) implies {
                let g = crate::tile::snake_age(grid_at(tilesF, h, a, b));
                &&& 1 <= g <= bodyF.len()
                &&& bodyF[g - 1] == (a, b)
            } by {
                let p = placed_tile(tiles0, h, ate, food1, nx, ny, a, b);
                assert(grid_at(tilesF, h, a, b) == age_tile(p, len));
                assert(is_snake(p));
                let v = crate::tile::snake_age(p);
                assert(v < lenF);
                if (a, b) == (nx, ny) {
                    assert(v == 0);
                    assert(bodyF[0] == (nx, ny));
                } else {
                    assert(grid_at(tiles0, h, a, b) == p);
                    assert(1 <= v <= n);
                    assert(body0[v - 1] == (a, b));
                    assert(v - 1 < k);
                    assert(bodyF[v] == body0[v - 1]);
                }
            }

            // Food bookkeeping across placement and aging.
            assert forall|a: int, b: int| grid_in_bounds(w, h, a, b) implies ((#[trigger] grid_at(
                tilesF,
                h,
                a,
                b,
            ) == Tile::Food) <==> self.food@ == Some((a, b))) by {
                let p = placed_tile(tiles0, h, ate, food1, nx, ny, a, b);
                assert(grid_at(tilesF, h, a, b) == age_tile(p, len));
                if ate {
                    assert(prev.food@ == Some((nx, ny)));
                    if food1 == Some((a, b)) {
                    } else {
                        if (a, b) != (nx, ny) {
                            assert(grid_at(tiles0, h, a, b) == p);
                        }
                    }
                } else {
                    assert(self.food@ == prev.food@);
                    if (a, b) != (nx, ny) {
                        assert(grid_at(tiles0, h, a, b) == p);
                    }
                }
            }

            // While alive, food exists unless the snake fills the board.
            if self.food@ is None {
                assert(ate && !prev.has_empty());
                assert forall|a: int, b: int| grid_in_bounds(w, h, a, b) implies #[trigger] grid_at(
                    tilesF,
                    h,
                    a,
                    b,
                ) != Tile::Empty by {
                    let p = placed_tile(tiles0, h, ate, food1, nx, ny, a, b);
                    assert(grid_at(tilesF, h, a, b) == age_tile(p, len));
                    if (a, b) != (nx, ny) {
                        assert(grid_at(tiles0, h, a, b) == p);
                        assert(grid_at(tiles0, h, a, b) != Tile::Empty);
                        if is_snake(p) {
                            assert(crate::tile::snake_age(p) <= n);
                            assert(crate::tile::snake_age(p) < lenF);
                        }
                    }
                }
            }

            // The eat case keeps the whole old body.
            if ate {
                assert(k == n);
                assert(body0.take(n) =~= body0);
                assert(bodyF =~= seq![(nx, ny)] + body0);
            }
            assert(bodyF.len() == vstd::math::min(n + 1, lenF));
            lemma_snake_cell_count(*self);
        }
    }
}

} // verus!
