use vstd::prelude::*;

verus! {

/// One cell of the grid: empty, holding food, or holding a snake segment.
/// The segment's age counts the ticks since it was the head; a segment
/// disappears once its age would reach the snake's length.
#[derive(Clone, Copy, PartialEq, Eq, Structural, Debug)]
pub enum Tile {
    Empty,
    Food,
    Snake(i32),
}

/// Whether a tile holds a snake segment.
pub open spec fn is_snake(t: Tile) -> bool {
    t is Snake
}

/// The age carried by a snake segment (meaningless for other tiles).
pub open spec fn snake_age(t: Tile) -> int
    recommends
        is_snake(t),
{
    t->0 as int
}

/// The two-character glyph a tile is drawn as. It depends only on the
/// tile's kind, never on a segment's age.
pub open spec fn glyph(t: Tile) -> Seq<char> {
    match t {
        Tile::Empty => seq![' ', ' '],
        Tile::Food => seq!['>', '<'],
        Tile::Snake(_) => seq!['█', '█'],
    }
}

impl Tile {
    /// The two-character glyph this tile is drawn as.
    pub fn ascii_rep(self) -> (r: &'static str)
        ensures
            r@ == glyph(self),
    {
        match self {
            Tile::Empty => {
                let r = "  ";
                proof {
                    reveal_strlit("  ");
                    assert(r@ =~= glyph(self));
                }
                r
            },
            Tile::Food => {
                let r = "><";
                proof {
                    reveal_strlit("><");
                    assert(r@ =~= glyph(self));
                }
                r
            },
            Tile::Snake(_) => {
                let r = "██";
                proof {
                    reveal_strlit("██");
                    assert(r@ =~= glyph(self));
                }
                r
            },
        }
    }
}

/// Law: the glyph is a pure function of the tile kind — two snake segments
/// of different ages are drawn identically.
pub proof fn lemma_glyph_age_independent(a: i32, b: i32)
    ensures
        glyph(Tile::Snake(a)) == glyph(Tile::Snake(b)),
{
}

} // verus!
