//! The read-only render surface: a row-major snapshot of the board and
//! a textual rendering of it.
//!
//! Cell precedence, lowest first: background, landing preview, locked
//! blocks (later blocks painted over earlier ones), active piece. The
//! preview only shows over background cells.

use vstd::prelude::*;
use vstd::string::StringExecFns;
use crate::engine::{GameModel, Tetris};
use crate::shape::Kind;
use crate::tetromino::{covers, occupies, PieceModel};

verus! {

/// What one board cell shows.
#[derive(Debug, Clone, Copy, PartialEq, Eq, Structural)]
pub enum Cell {
    /// Empty background, drawn as `B`.
    Background,
    /// The landing preview, drawn as `G`.
    Shadow,
    /// A cell of the active piece or of a locked block, drawn as the
    /// letter of its kind.
    Piece(Kind),
}

/// The kind of the topmost block covering `(x, y)` under the painter's
/// order: blocks later in the list are painted over earlier ones.
pub open spec fn painted(blocks: Seq<PieceModel>, x: int, y: int) -> Option<Kind>
    decreases blocks.len(),
{
    if blocks.len() == 0 {
        None
    } else if occupies(blocks.last(), x, y) {
        Some(blocks.last().kind)
    } else {
        painted(blocks.drop_last(), x, y)
    }
}

/// What the cell `(x, y)` shows: the active piece wins, then locked
/// blocks, then the landing preview, then background.
pub open spec fn cell_view(g: GameModel, x: int, y: int) -> Cell {
    if match g.active {
        Some(a) => occupies(a, x, y),
        None => false,
    } {
        Cell::Piece(g.active.unwrap().kind)
    } else {
        match painted(g.blocks, x, y) {
            Some(k) => Cell::Piece(k),
            None => if match g.ghost_piece {
                Some(gp) => occupies(gp, x, y),
                None => false,
            } {
                Cell::Shadow
            } else {
                Cell::Background
            },
        }
    }
}

/// The glyph of a piece kind.
pub open spec fn kind_char(k: Kind) -> char {
    match k {
        Kind::I => 'I',
        Kind::T => 'T',
        Kind::O => 'O',
        Kind::J => 'J',
        Kind::L => 'L',
        Kind::S => 'S',
        Kind::Z => 'Z',
    }
}

/// The glyph of a cell.
pub open spec fn cell_char(c: Cell) -> char {
    match c {
        Cell::Background => 'B',
        Cell::Shadow => 'G',
        Cell::Piece(k) => kind_char(k),
    }
}

/// The glyphs of row `y`, left to right.
pub open spec fn row_chars(g: GameModel, y: int) -> Seq<char> {
    Seq::new(g.width as nat, |x: int| cell_char(cell_view(g, x, y)))
}

/// The glyphs of the first `n` rows, joined by newlines.
pub open spec fn rows_chars(g: GameModel, n: int) -> Seq<char>
    decreases n,
{
    if n <= 0 {
        Seq::empty()
    } else if n == 1 {
        row_chars(g, 0)
    } else {
        rows_chars(g, n - 1) + seq!['\n'] + row_chars(g, n - 1)
    }
}

/// The glyph of a cell, as a one-character string slice.
fn glyph(c: Cell) -> (r: &'static str)
    ensures
        r@ == seq![cell_char(c)],
{
    match c {
        Cell::Background => {
            proof {
                reveal_strlit("B");
            }
            let r = "B";
            proof {
                assert(r@ =~= seq![cell_char(c)]);
            }
            r
        },
        Cell::Shadow => {
            proof {
                reveal_strlit("G");
            }
            let r = "G";
            proof {
                assert(r@ =~= seq![cell_char(c)]);
            }
            r
        },
        Cell::Piece(Kind::I) => {
            proof {
                reveal_strlit("I");
            }
            let r = "I";
            proof {
                assert(r@ =~= seq![cell_char(c)]);
            }
            r
        },
        Cell::Piece(Kind::T) => {
            proof {
                reveal_strlit("T");
            }
            let r = "T";
            proof {
                assert(r@ =~= seq![cell_char(c)]);
            }
            r
        },
        Cell::Piece(Kind::O) => {
            proof {
                reveal_strlit("O");
            }
            let r = "O";
            proof {
                assert(r@ =~= seq![cell_char(c)]);
            }
            r
        },
        Cell::Piece(Kind::J) => {
            proof {
                reveal_strlit("J");
            }
            let r = "J";
            proof {
                assert(r@ =~= seq![cell_char(c)]);
            }
            r
        },
        Cell::Piece(Kind::L) => {
            proof {
                reveal_strlit("L");
            }
            let r = "L";
            proof {
                assert(r@ =~= seq![cell_char(c)]);
            }
            r
        },
        Cell::Piece(Kind::S) => {
            proof {
                reveal_strlit("S");
            }
            let r = "S";
            proof {
                assert(r@ =~= seq![cell_char(c)]);
            }
            r
        },
        Cell::Piece(Kind::Z) => {
            proof {
                reveal_strlit("Z");
            }
            let r = "Z";
            proof {
                assert(r@ =~= seq![cell_char(c)]);
            }
            r
        },
    }
}

impl Tetris {
    /// The kind of the topmost locked block covering `(x, y)`, if any.
    fn painted_at(&self, x: i64, y: i64) -> (r: Option<Kind>)
        ensures
            r == painted(self@.blocks, x as int, y as int),
    {
        let n = self.fixed_blocks.len();
        let mut i: usize = n;
        proof {
            assert(self@.blocks.take(n as int) =~= self@.blocks);
        }
        while i > 0
            invariant
                n == self.fixed_blocks@.len(),
                i <= n,
                painted(self@.blocks, x as int, y as int) == painted(
                    self@.blocks.take(i as int),
                    x as int,
                    y as int,
                ),
            decreases i,
        {
            proof {
                assert(self@.blocks.take(i as int).last() == self@.blocks[i - 1]);
                assert(self@.blocks[i - 1] == self.fixed_blocks@[i - 1]@);
                assert(self@.blocks.take(i as int).drop_last() =~= self@.blocks.take(i - 1));
            }
            if covers(&self.fixed_blocks[i - 1], x, y) {
                return Some(self.fixed_blocks[i - 1].kind);
            }
            i = i - 1;
        }
        proof {
            assert(self@.blocks.take(0).len() == 0);
        }
        None
    }

    /// What the cell `(x, y)` shows.
    fn cell_at(&self, x: i64, y: i64) -> (c: Cell)
        ensures
            c == cell_view(self@, x as int, y as int),
    {
        match &self.current_tetromino {
            Some(t) => {
                if covers(t, x, y) {
                    return Cell::Piece(t.kind);
                }
            },
            None => {},
        }
        match self.painted_at(x, y) {
            Some(k) => Cell::Piece(k),
            None => {
                match &self.ghost_tetromino {
                    Some(t) => {
                        if covers(t, x, y) {
                            Cell::Shadow
                        } else {
                            Cell::Background
                        }
                    },
                    None => Cell::Background,
                }
            },
        }
    }

    /// A row-major snapshot of the board: `height` rows of `width`
    /// cells, each reporting what it shows under the precedence
    /// background < preview < locked < active.
    pub fn render_view(&self) -> (r: Vec<Vec<Cell>>)
        ensures
            r@.len() == self.height as int,
            forall|yy: int|
                0 <= yy < self.height as int ==> (#[trigger] r@[yy])@.len() == self.width as int,
            forall|yy: int, xx: int|
                0 <= yy < self.height as int && 0 <= xx < self.width as int ==> (#[trigger] r@[yy]@[xx])
                    == cell_view(self@, xx, yy),
    {
        let mut out: Vec<Vec<Cell>> = Vec::new();
        let mut y: u32 = 0;
        while y < self.height
            invariant
                y <= self.height,
                out@.len() == y as int,
                forall|yy: int| 0 <= yy < y as int ==> (#[trigger] out@[yy])@.len() == self.width as int,
                forall|yy: int, xx: int|
                    0 <= yy < y as int && 0 <= xx < self.width as int ==> (#[trigger] out@[yy]@[xx])
                        == cell_view(self@, xx, yy),
            decreases self.height - y,
        {
            let mut row: Vec<Cell> = Vec::new();
            let mut x: u32 = 0;
            while x < self.width
                invariant
                    x <= self.width,
                    row@.len() == x as int,
                    forall|xx: int|
                        0 <= xx < x as int ==> (#[trigger] row@[xx]) == cell_view(
                            self@,
                            xx,
                            y as int,
                        ),
                decreases self.width - x,
            {
                row.push(self.cell_at(x as i64, y as i64));
                x = x + 1;
            }
            out.push(row);
            y = y + 1;
        }
        out
    }

    /// The board as text: `height` lines of `width` glyphs, joined by
    /// newlines, each cell drawn as its glyph.
    pub fn render(&self) -> (r: String)
        ensures
            r@ == rows_chars(self@, self.height as int),
    {
        let view = self.render_view();
        let mut s = String::new();
        let mut y: usize = 0;
        while y < view.len()
            invariant
                view@.len() == self.height as int,
                forall|yy: int|
                    0 <= yy < self.height as int ==> (#[trigger] view@[yy])@.len()
                        == self.width as int,
                forall|yy: int, xx: int|
                    0 <= yy < self.height as int && 0 <= xx < self.width as int ==> (
                    #[trigger] view@[yy]@[xx]) == cell_view(self@, xx, yy),
                y <= view@.len(),
                s@ == rows_chars(self@, y as int),
            decreases view@.len() - y,
        {
            if y > 0 {
                proof {
                    reveal_strlit("\n");
                }
                s.append("\n");
                proof {
                    assert("\n"@ =~= seq!['\n']);
                }
            }
            let row = &view[y];
            let mut x: usize = 0;
            while x < row.len()
                invariant
                    row == view@[y as int],
                    view@.len() == self.height as int,
                    y < view@.len(),
                    forall|yy: int|
                        0 <= yy < self.height as int ==> (#[trigger] view@[yy])@.len()
                            == self.width as int,
                    forall|yy: int, xx: int|
                        0 <= yy < self.height as int && 0 <= xx < self.width as int ==> (
                        #[trigger] view@[yy]@[xx]) == cell_view(self@, xx, yy),
                    x <= row@.len(),
                    row@.len() == self.width as int,
                    s@ == rows_chars(self@, y as int) + (if y > 0 {
                        seq!['\n']
                    } else {
                        Seq::<char>::empty()
                    }) + row_chars(self@, y as int).take(x as int),
                decreases row@.len() - x,
            {
                let g = glyph(row[x]);
                s.append(g);
                proof {
                    assert(row_chars(self@, y as int).take(x + 1 as int) =~= row_chars(
                        self@,
                        y as int,
                    ).take(x as int).push(cell_char(cell_view(self@, x as int, y as int))));
                    assert(s@ =~= rows_chars(self@, y as int) + (if y > 0 {
                        seq!['\n']
                    } else {
                        Seq::<char>::empty()
                    }) + row_chars(self@, y as int).take(x + 1 as int));
                }
                x = x + 1;
            }
            proof {
                assert(row_chars(self@, y as int).take(self.width as int) =~= row_chars(
                    self@,
                    y as int,
                ));
                assert(s@ =~= rows_chars(self@, y + 1 as int));
            }
            y = y + 1;
        }
        s
    }
}

} // verus!
