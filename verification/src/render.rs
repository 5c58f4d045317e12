use vstd::prelude::*;
use vstd::string::StringExecFns;

use crate::game::Game;
use crate::tile::glyph;

verus! {

/// `n` repetitions of the two-dash column marker of a border line.
pub open spec fn dash_chars(n: int) -> Seq<char>
    decreases n,
{
    if n <= 0 {
        Seq::empty()
    } else {
        dash_chars(n - 1) + seq!['-', '-']
    }
}

/// A border line: two spaces, two dashes per column, and a newline.
pub open spec fn border_chars(w: int) -> Seq<char> {
    seq![' ', ' '] + dash_chars(w) + seq!['\n']
}

/// The glyphs of the first `n` tiles of row `y`.
pub open spec fn row_chars(g: Game, y: int, n: int) -> Seq<char>
    decreases n,
{
    if n <= 0 {
        Seq::empty()
    } else {
        row_chars(g, y, n - 1) + glyph(g.at(n - 1, y))
    }
}

/// The first `n` grid rows, each framed by `"| "` on the left and `" |"`
/// and a newline on the right.
pub open spec fn rows_chars(g: Game, n: int) -> Seq<char>
    decreases n,
{
    if n <= 0 {
        Seq::empty()
    } else {
        rows_chars(g, n - 1) + seq!['|', ' '] + row_chars(g, n - 1, g.width as int) + seq![
            ' ',
            '|',
            '\n',
        ]
    }
}

/// The whole picture: a border line, the framed rows, a border line.
pub open spec fn render_chars(g: Game) -> Seq<char> {
    border_chars(g.width as int) + rows_chars(g, g.height as int) + border_chars(g.width as int)
}

/// Appends one border line to `out`.
fn push_border(out: &mut String, w: i32)
    requires
        0 <= w,
    ensures
        final(out)@ == old(out)@ + border_chars(w as int),
{
    out.append("  ");
    proof {
        reveal_strlit("  ");
        assert(out@ =~= old(out)@ + seq![' ', ' '] + dash_chars(0));
    }
    let mut x: i32 = 0;
    while x < w
        invariant
            0 <= x <= w,
            out@ == old(out)@ + seq![' ', ' '] + dash_chars(x as int),
        decreases w - x,
    {
        out.append("--");
        proof {
            reveal_strlit("--");
            assert("--"@ =~= seq!['-', '-']);
            assert(out@ =~= old(out)@ + seq![' ', ' '] + dash_chars(x as int + 1));
        }
        x = x + 1;
    }
    out.append("\n");
    proof {
        reveal_strlit("\n");
        assert(out@ =~= old(out)@ + border_chars(w as int));
    }
}

impl Game {
    /// The bordered ASCII picture of the grid, row by row: what the
    /// renderer writes to the screen.
    pub fn render_ascii(&self) -> (r: String)
        requires
            self.dims_ok(),
        ensures
            r@ == render_chars(*self),
    {
        let mut out = String::new();
        push_border(&mut out, self.width);
        proof {
            assert(out@ =~= border_chars(self.width as int) + rows_chars(*self, 0));
        }
        let mut y: i32 = 0;
        while y < self.height
            invariant
                0 <= y <= self.height,
                self.dims_ok(),
                out@ == border_chars(self.width as int) + rows_chars(*self, y as int),
            decreases self.height - y,
        {
            out.append("| ");
            proof {
                reveal_strlit("| ");
                assert(out@ =~= border_chars(self.width as int) + rows_chars(*self, y as int)
                    + seq!['|', ' '] + row_chars(*self, y as int, 0));
            }
            let mut x: i32 = 0;
            while x < self.width
                invariant
                    0 <= x <= self.width,
                    0 <= y < self.height,
                    self.dims_ok(),
                    out@ == border_chars(self.width as int) + rows_chars(*self, y as int) + seq![
                        '|',
                        ' ',
                    ] + row_chars(*self, y as int, x as int),
                decreases self.width - x,
            {
                let t = self.tile_at(x, y);
                out.append(t.ascii_rep());
                proof {
                    assert(out@ =~= border_chars(self.width as int) + rows_chars(*self, y as int)
                        + seq!['|', ' '] + row_chars(*self, y as int, x as int + 1));
                }
                x = x + 1;
            }
            out.append(" |\n");
            proof {
                reveal_strlit(" |\n");
                assert(" |\n"@ =~= seq![' ', '|', '\n']);
                assert(out@ =~= border_chars(self.width as int) + rows_chars(
                    *self,
                    y as int + 1,
                ));
            }
            y = y + 1;
        }
        push_border(&mut out, self.width);
        proof {
            assert(out@ =~= render_chars(*self));
        }
        out
    }
}

} // verus!
