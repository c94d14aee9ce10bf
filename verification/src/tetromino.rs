//! Tetromino pieces: an absolute anchor position plus a set of relative
//! cells taken from the shape catalog.
//!
//! While a piece is active its relative cells always equal a catalog
//! entry; once locked, line clearing may remove individual cells and
//! shift the rest, so a locked piece can hold any subset of cells.

use vstd::prelude::*;
use crate::position::Position;
use crate::rng::random_piece_index;
use crate::shape::{kind_from_index, lemma_shape_seq_wf, shape_seq, spec_kind_from_index, Kind};

verus! {

/// Mathematical model of a piece: its kind, its anchor as unbounded
/// integers, the set of relative cells, and the rotation state.
#[verifier::ext_equal]
pub ghost struct PieceModel {
    pub kind: Kind,
    pub anchor_x: int,
    pub anchor_y: int,
    pub cells: Set<Position>,
    pub rotation: int,
}

/// True when the piece covers the absolute board cell `(x, y)`.
pub open spec fn occupies(m: PieceModel, x: int, y: int) -> bool {
    exists|p: Position|
        #[trigger] m.cells.contains(p) && x == m.anchor_x + p.0 && y == m.anchor_y + p.1
}

/// True when the two pieces cover a common absolute cell.
pub open spec fn collides(a: PieceModel, b: PieceModel) -> bool {
    exists|x: int, y: int| #[trigger] occupies(a, x, y) && occupies(b, x, y)
}

/// Where the relative cell `p` of a piece anchored at row `anchor_y`
/// ends up after the full row `row` vanished: cells strictly above the
/// row move down one, the rest stay.
pub open spec fn fall_cell(p: Position, anchor_y: int, row: int) -> Position {
    if anchor_y + p.1 < row {
        Position(p.0, (p.1 + 1) as i32)
    } else {
        p
    }
}

/// The piece after the full row `row` vanished.
pub open spec fn piece_fall(m: PieceModel, row: int) -> PieceModel {
    PieceModel { cells: m.cells.map(|p: Position| fall_cell(p, m.anchor_y, row)), ..m }
}

/// The piece with every cell lying on the absolute row `row` removed.
pub open spec fn piece_remove_row(m: PieceModel, row: int) -> PieceModel {
    PieceModel { cells: m.cells.filter(|p: Position| m.anchor_y + p.1 != row), ..m }
}

/// The piece advanced to the next rotation state: the rotation index
/// steps by one modulo 4 and the cells are rebuilt from the catalog;
/// the anchor stays put.
pub open spec fn piece_rotated(m: PieceModel) -> PieceModel {
    PieceModel {
        rotation: (m.rotation + 1) % 4,
        cells: shape_seq(m.kind, (m.rotation + 1) % 4).to_set(),
        ..m
    }
}

/// A piece's anchor together with its relative cells.
#[derive(Debug, Clone)]
pub struct TetrominoData {
    /// Absolute anchor position on the grid.
    pub position: Position,
    /// Relative positions of the occupied cells, without duplicates.
    pub data: Vec<Position>,
}

/// A falling or locked piece.
#[derive(Debug, Clone)]
pub struct Tetromino {
    pub kind: Kind,
    pub data: TetrominoData,
    pub rotation: usize,
}

impl View for Tetromino {
    type V = PieceModel;

    open spec fn view(&self) -> PieceModel {
        PieceModel {
            kind: self.kind,
            anchor_x: self.data.position.0 as int,
            anchor_y: self.data.position.1 as int,
            cells: self.data.data@.to_set(),
            rotation: self.rotation as int,
        }
    }
}

/// Copies a cell vector element by element.
pub(crate) fn copy_cells(v: &Vec<Position>) -> (r: Vec<Position>)
    ensures
        r@ == v@,
{
    let mut r: Vec<Position> = Vec::new();
    let mut i: usize = 0;
    while i < v.len()
        invariant
            i <= v.len(),
            r@ == v@.take(i as int),
        decreases v.len() - i,
    {
        r.push(v[i]);
        proof {
            assert(r@ =~= v@.take(i + 1 as int));
        }
        i = i + 1;
    }
    proof {
        assert(v@.take(v@.len() as int) =~= v@);
    }
    r
}

/// Copies a piece field by field.
pub(crate) fn copy_piece(t: &Tetromino) -> (r: Tetromino)
    ensures
        r.kind == t.kind,
        r.rotation == t.rotation,
        r.data.position == t.data.position,
        r.data.data@ == t.data.data@,
        r@ == t@,
{
    let r = Tetromino {
        kind: t.kind,
        data: TetrominoData { position: t.data.position, data: copy_cells(&t.data.data) },
        rotation: t.rotation,
    };
    proof {
        assert(r@ =~~= t@);
    }
    r
}

/// True when `v` holds the cell `p`.
pub(crate) fn cells_contain(v: &Vec<Position>, p: Position) -> (r: bool)
    ensures
        r == v@.contains(p),
{
    let mut i: usize = 0;
    while i < v.len()
        invariant
            i <= v.len(),
            forall|k: int| 0 <= k < i ==> v@[k] != p,
        decreases v.len() - i,
    {
        if v[i] == p {
            return true;
        }
        i = i + 1;
    }
    false
}

/// True when the piece covers the absolute cell `(x, y)`.
pub(crate) fn covers(t: &Tetromino, x: i64, y: i64) -> (r: bool)
    ensures
        r == occupies(t@, x as int, y as int),
{
    let n = t.data.data.len();
    let mut i: usize = 0;
    while i < n
        invariant
            n == t.data.data@.len(),
            i <= n,
            forall|k: int|
                0 <= k < i ==> !(x as int == #[trigger] t.cell_x(k) && y as int == t.cell_y(k)),
        decreases n - i,
    {
        let cx = t.data.position.0 as i64 + t.data.data[i].0 as i64;
        let cy = t.data.position.1 as i64 + t.data.data[i].1 as i64;
        if cx == x && cy == y {
            proof {
                let p = t.data.data@[i as int];
                assert(t.data.data@.contains(p));
                assert(t@.cells.contains(p));
                assert(occupies(t@, x as int, y as int));
            }
            return true;
        }
        i = i + 1;
    }
    proof {
        Tetromino::lemma_occupies_index(*t);
        if occupies(t@, x as int, y as int) {
            let k = choose|k: int|
                0 <= k < t.data.data@.len() && x as int == #[trigger] t.cell_x(k) && y as int
                    == t.cell_y(k);
            assert(false);
        }
    }
    false
}

/// Builds a four-cell vector.
fn build4(a: Position, b: Position, c: Position, d: Position) -> (r: Vec<Position>)
    ensures
        r@ == seq![a, b, c, d],
{
    let mut r: Vec<Position> = Vec::new();
    r.push(a);
    r.push(b);
    r.push(c);
    r.push(d);
    proof {
        assert(r@ =~= seq![a, b, c, d]);
    }
    r
}

impl Tetromino {
    /// The relative-cell vector holds no duplicates.
    pub open spec fn wf(self) -> bool {
        self.data.data@.no_duplicates()
    }

    /// Absolute column of the `i`-th cell, as an unbounded integer.
    pub open spec fn cell_x(self, i: int) -> int {
        self.data.position.0 + self.data.data@[i].0
    }

    /// Absolute row of the `i`-th cell, as an unbounded integer.
    pub open spec fn cell_y(self, i: int) -> int {
        self.data.position.1 + self.data.data@[i].1
    }

    /// Adding the anchor to any cell stays within `i32`.
    pub open spec fn fits(self) -> bool {
        forall|i: int|
            0 <= i < self.data.data@.len() ==> i32::MIN <= #[trigger] self.cell_x(i) <= i32::MAX
                && i32::MIN <= self.cell_y(i) <= i32::MAX
    }

    /// A piece covers exactly the absolute cells listed by its vector.
    pub proof fn lemma_occupies_index(t: Tetromino)
        ensures
            forall|x: int, y: int|
                #[trigger] occupies(t@, x, y) <==> exists|i: int|
                    0 <= i < t.data.data@.len() && x == #[trigger] t.cell_x(i) && y == t.cell_y(i),
    {
        assert forall|x: int, y: int| #[trigger] occupies(t@, x, y) implies exists|i: int|
            0 <= i < t.data.data@.len() && x == #[trigger] t.cell_x(i) && y == t.cell_y(i) by {
            let p = choose|p: Position|
                #[trigger] t@.cells.contains(p) && x == t@.anchor_x + p.0 && y == t@.anchor_y
                    + p.1;
            assert(t.data.data@.contains(p));
            let i = choose|i: int| 0 <= i < t.data.data@.len() && t.data.data@[i] == p;
            assert(x == t.cell_x(i) && y == t.cell_y(i));
        }
        assert forall|x: int, y: int|
            (exists|i: int|
                0 <= i < t.data.data@.len() && x == #[trigger] t.cell_x(i) && y == t.cell_y(
                    i,
                )) implies #[trigger] occupies(t@, x, y) by {
            let i = choose|i: int|
                0 <= i < t.data.data@.len() && x == #[trigger] t.cell_x(i) && y == t.cell_y(i);
            let p = t.data.data@[i];
            assert(t.data.data@.contains(p));
            assert(t@.cells.contains(p));
            assert(x == t@.anchor_x + p.0 && y == t@.anchor_y + p.1);
        }
    }

    /// Looks up the catalog entry for `kind` in rotation state
    /// `rotation`, taken modulo 4.
    pub fn get_rotation_data(kind: Kind, rotation: usize) -> (r: Vec<Position>)
        ensures
            r@ == shape_seq(kind, rotation as int % 4),
    {
        let rot = rotation % 4;
        match kind {
            Kind::I => match rot {
                0 => build4(Position(1, 0), Position(1, 1), Position(1, 2), Position(1, 3)),
                1 => build4(Position(0, 1), Position(1, 1), Position(2, 1), Position(3, 1)),
                2 => build4(Position(2, 0), Position(2, 1), Position(2, 2), Position(2, 3)),
                _ => build4(Position(0, 2), Position(1, 2), Position(2, 2), Position(3, 2)),
            },
            Kind::T => match rot {
                0 => build4(Position(1, 0), Position(0, 1), Position(1, 1), Position(2, 1)),
                1 => build4(Position(1, 0), Position(1, 1), Position(2, 1), Position(1, 2)),
                2 => build4(Position(0, 1), Position(1, 1), Position(2, 1), Position(1, 2)),
                _ => build4(Position(1, 0), Position(0, 1), Position(1, 1), Position(1, 2)),
            },
            Kind::O => build4(Position(1, 0), Position(2, 0), Position(1, 1), Position(2, 1)),
            Kind::J => match rot {
                0 => build4(Position(1, 0), Position(1, 1), Position(1, 2), Position(0, 2)),
                1 => build4(Position(0, 0), Position(0, 1), Position(1, 1), Position(2, 1)),
                2 => build4(Position(1, 0), Position(2, 0), Position(1, 1), Position(1, 2)),
                _ => build4(Position(0, 1), Position(1, 1), Position(2, 1), Position(2, 2)),
            },
            Kind::L => match rot {
                0 => build4(Position(1, 0), Position(1, 1), Position(1, 2), Position(2, 2)),
                1 => build4(Position(0, 1), Position(1, 1), Position(2, 1), Position(0, 2)),
                2 => build4(Position(0, 0), Position(1, 0), Position(1, 1), Position(1, 2)),
                _ => build4(Position(0, 1), Position(1, 1), Position(2, 1), Position(2, 0)),
            },
            Kind::S => match rot {
                0 | 2 => build4(Position(1, 0), Position(2, 0), Position(1, 1), Position(0, 1)),
                _ => build4(Position(1, 0), Position(1, 1), Position(2, 1), Position(2, 2)),
            },
            Kind::Z => match rot {
                0 | 2 => build4(Position(0, 0), Position(1, 0), Position(1, 1), Position(2, 1)),
                _ => build4(Position(1, 0), Position(1, 1), Position(0, 1), Position(0, 2)),
            },
        }
    }

    /// Builds a piece of the given kind at rotation state 0, anchored at
    /// `pos`.
    pub fn from_kind(kind: Kind, pos: Position) -> (r: Tetromino)
        ensures
            r.wf(),
            r.kind == kind,
            r.rotation == 0,
            r.data.position == pos,
            r.data.data@ == shape_seq(kind, 0),
    {
        let data = Tetromino::get_rotation_data(kind, 0);
        proof {
            lemma_shape_seq_wf(kind, 0);
        }
        Tetromino { kind, data: TetrominoData { position: pos, data }, rotation: 0 }
    }

    /// Builds a piece of a uniformly random kind at rotation state 0,
    /// anchored at `pos`. Whatever kind was drawn, the cells are the
    /// catalog's base shape for that kind.
    pub fn new_random(pos: Position) -> (r: Tetromino)
        ensures
            r.wf(),
            r.rotation == 0,
            r.data.position == pos,
            r.data.data@ == shape_seq(r.kind, 0),
    {
        let index = random_piece_index();
        let kind = kind_from_index(index);
        Tetromino::from_kind(kind, pos)
    }

    /// The absolute positions of the piece's cells, in vector order.
    pub fn collect_positions(&self) -> (r: Vec<Position>)
        requires
            self.fits(),
        ensures
            r@.len() == self.data.data@.len(),
            forall|i: int|
                0 <= i < r@.len() ==> (#[trigger] r@[i]).0 == self.cell_x(i) && r@[i].1
                    == self.cell_y(i),
    {
        let mut r: Vec<Position> = Vec::new();
        let mut i: usize = 0;
        while i < self.data.data.len()
            invariant
                i <= self.data.data@.len(),
                self.fits(),
                r@.len() == i,
                forall|k: int|
                    0 <= k < i ==> (#[trigger] r@[k]).0 == self.cell_x(k) && r@[k].1
                        == self.cell_y(k),
            decreases self.data.data@.len() - i,
        {
            assert(i32::MIN <= self.cell_x(i as int) <= i32::MAX);
            r.push(self.data.position.plus(self.data.data[i]));
            i = i + 1;
        }
        r
    }

    /// True when this piece and `other` cover a common absolute cell.
    pub fn is_colliding(&self, other: &Tetromino) -> (r: bool)
        ensures
            r == collides(self@, other@),
    {
        let n = self.data.data.len();
        let m = other.data.data.len();
        let mut i: usize = 0;
        while i < n
            invariant
                n == self.data.data@.len(),
                m == other.data.data@.len(),
                i <= n,
                forall|ii: int, jj: int|
                    0 <= ii < i && 0 <= jj < m ==> !(#[trigger] self.cell_x(ii)
                        == #[trigger] other.cell_x(jj) && self.cell_y(ii) == other.cell_y(jj)),
            decreases n - i,
        {
            let ax = self.data.position.0 as i64 + self.data.data[i].0 as i64;
            let ay = self.data.position.1 as i64 + self.data.data[i].1 as i64;
            let mut j: usize = 0;
            while j < m
                invariant
                    n == self.data.data@.len(),
                    m == other.data.data@.len(),
                    i < n,
                    j <= m,
                    ax == self.cell_x(i as int),
                    ay == self.cell_y(i as int),
                    forall|jj: int|
                        0 <= jj < j ==> !(self.cell_x(i as int) == #[trigger] other.cell_x(jj)
                            && self.cell_y(i as int) == other.cell_y(jj)),
                decreases m - j,
            {
                let bx = other.data.position.0 as i64 + other.data.data[j].0 as i64;
                let by = other.data.position.1 as i64 + other.data.data[j].1 as i64;
                if ax == bx && ay == by {
                    proof {
                        let p = self.data.data@[i as int];
                        let q = other.data.data@[j as int];
                        assert(self.data.data@.contains(p));
                        assert(other.data.data@.contains(q));
                        assert(self@.cells.contains(p));
                        assert(other@.cells.contains(q));
                        assert(occupies(self@, ax as int, ay as int));
                        assert(occupies(other@, ax as int, ay as int));
                    }
                    return true;
                }
                j = j + 1;
            }
            i = i + 1;
        }
        proof {
            Tetromino::lemma_occupies_index(*self);
            Tetromino::lemma_occupies_index(*other);
            if collides(self@, other@) {
                let (x, y) = choose|x: int, y: int|
                    #[trigger] occupies(self@, x, y) && occupies(other@, x, y);
                let ii = choose|ii: int|
                    0 <= ii < self.data.data@.len() && x == #[trigger] self.cell_x(ii) && y
                        == self.cell_y(ii);
                let jj = choose|jj: int|
                    0 <= jj < other.data.data@.len() && x == #[trigger] other.cell_x(jj) && y
                        == other.cell_y(jj);
                assert(false);
            }
        }
        false
    }

    /// The piece advanced to the next rotation state, with its cells
    /// rebuilt from the catalog; the anchor stays put. The caller
    /// decides whether to commit the result.
    pub fn rotated(&self) -> (r: Tetromino)
        requires
            self.rotation < 4,
        ensures
            r.wf(),
            r.kind == self.kind,
            r.data.position == self.data.position,
            r.rotation == (self.rotation + 1) % 4,
            r.data.data@ == shape_seq(self.kind, r.rotation as int),
    {
        let rotation = (self.rotation + 1) % 4;
        let data = Tetromino::get_rotation_data(self.kind, rotation);
        proof {
            lemma_shape_seq_wf(self.kind, rotation as int);
        }
        Tetromino {
            kind: self.kind,
            data: TetrominoData { position: self.data.position, data },
            rotation,
        }
    }

    /// Removes the cell at the absolute position `pos`, if the piece has
    /// one there; otherwise the piece is unchanged.
    pub fn remove_at(&mut self, pos: Position)
        requires
            i32::MIN <= pos.0 - old(self).data.position.0 <= i32::MAX,
            i32::MIN <= pos.1 - old(self).data.position.1 <= i32::MAX,
        ensures
            final(self).kind == old(self).kind,
            final(self).rotation == old(self).rotation,
            final(self).data.position == old(self).data.position,
            final(self).data.data@.to_set() == old(self).data.data@.to_set().remove(
                Position(
                    (pos.0 - old(self).data.position.0) as i32,
                    (pos.1 - old(self).data.position.1) as i32,
                ),
            ),
            old(self).wf() ==> final(self).wf(),
    {
        let rel = pos.minus(self.data.position);
        let ghost orig = *self;
        let mut kept: Vec<Position> = Vec::new();
        let mut i: usize = 0;
        while i < self.data.data.len()
            invariant
                *self == orig,
                i <= self.data.data@.len(),
                forall|q: Position|
                    #[trigger] kept@.contains(q) ==> q != rel && exists|k: int|
                        0 <= k < i && self.data.data@[k] == q,
                forall|k: int|
                    0 <= k < i && self.data.data@[k] != rel ==> kept@.contains(
                        #[trigger] self.data.data@[k],
                    ),
                orig.wf() ==> kept@.no_duplicates(),
            decreases self.data.data@.len() - i,
        {
            let p = self.data.data[i];
            if p != rel {
                proof {
                    if orig.wf() && kept@.contains(p) {
                        let k = choose|k: int| 0 <= k < i && self.data.data@[k] == p;
                        assert(false);
                    }
                }
                let ghost prev = kept@;
                kept.push(p);
                proof {
                    assert forall|q: Position| #[trigger] kept@.contains(q) implies q != rel
                        && exists|k: int| 0 <= k < i + 1 && self.data.data@[k] == q by {
                        let idx = choose|idx: int| 0 <= idx < kept@.len() && kept@[idx] == q;
                        if idx < prev.len() {
                            assert(prev.contains(q));
                            let k = choose|k: int| 0 <= k < i && self.data.data@[k] == q;
                            assert(0 <= k < i + 1 && self.data.data@[k] == q);
                        } else {
                            assert(q == p);
                            assert(self.data.data@[i as int] == q);
                        }
                    }
                    assert forall|k: int|
                        0 <= k < i + 1 && self.data.data@[k] != rel implies kept@.contains(
                        #[trigger] self.data.data@[k],
                    ) by {
                        if k < i {
                            assert(prev.contains(self.data.data@[k]));
                            let idx = choose|idx: int|
                                0 <= idx < prev.len() && prev[idx] == self.data.data@[k];
                            assert(kept@[idx] == self.data.data@[k]);
                        } else {
                            assert(kept@[kept@.len() - 1] == p);
                        }
                    }
                }
            }
            i = i + 1;
        }
        proof {
            assert(kept@.to_set() =~= orig.data.data@.to_set().remove(rel)) by {
                assert forall|q: Position|
                    orig.data.data@.to_set().remove(rel).contains(q) implies kept@.to_set()
                    .contains(q) by {
                    let k = choose|k: int|
                        0 <= k < orig.data.data@.len() && orig.data.data@[k] == q;
                    assert(kept@.contains(q));
                }
            }
        }
        self.data.data = kept;
    }

    /// Removes every cell whose absolute row is `y`. Other cells, the
    /// anchor, the kind and the rotation index are untouched.
    pub fn remove_row(&mut self, y: i32)
        ensures
            final(self).kind == old(self).kind,
            final(self).rotation == old(self).rotation,
            final(self).data.position == old(self).data.position,
            final(self).data.data@.to_set() == piece_remove_row(old(self)@, y as int).cells,
            old(self).wf() ==> final(self).wf(),
    {
        let ghost orig = *self;
        let mut kept: Vec<Position> = Vec::new();
        let mut i: usize = 0;
        while i < self.data.data.len()
            invariant
                *self == orig,
                i <= self.data.data@.len(),
                forall|q: Position|
                    #[trigger] kept@.contains(q) ==> orig@.anchor_y + q.1 != y as int && exists|
                        k: int,
                    | 0 <= k < i && self.data.data@[k] == q,
                forall|k: int|
                    0 <= k < i && orig@.anchor_y + (#[trigger] self.data.data@[k]).1 != y as int
                        ==> kept@.contains(self.data.data@[k]),
                orig.wf() ==> kept@.no_duplicates(),
            decreases self.data.data@.len() - i,
        {
            let p = self.data.data[i];
            let abs_y = self.data.position.1 as i64 + p.1 as i64;
            if abs_y != y as i64 {
                proof {
                    if orig.wf() && kept@.contains(p) {
                        let k = choose|k: int| 0 <= k < i && self.data.data@[k] == p;
                        assert(false);
                    }
                }
                let ghost prev = kept@;
                kept.push(p);
                proof {
                    assert forall|q: Position| #[trigger] kept@.contains(q) implies orig@.anchor_y
                        + q.1 != y as int && exists|k: int|
                        0 <= k < i + 1 && self.data.data@[k] == q by {
                        let idx = choose|idx: int| 0 <= idx < kept@.len() && kept@[idx] == q;
                        if idx < prev.len() {
                            assert(prev.contains(q));
                            let k = choose|k: int| 0 <= k < i && self.data.data@[k] == q;
                            assert(0 <= k < i + 1 && self.data.data@[k] == q);
                        } else {
                            assert(q == p);
                            assert(self.data.data@[i as int] == q);
                        }
                    }
                    assert forall|k: int|
                        0 <= k < i + 1 && orig@.anchor_y + (#[trigger] self.data.data@[k]).1
                            != y as int implies kept@.contains(self.data.data@[k]) by {
                        if k < i {
                            assert(prev.contains(self.data.data@[k]));
                            let idx = choose|idx: int|
                                0 <= idx < prev.len() && prev[idx] == self.data.data@[k];
                            assert(kept@[idx] == self.data.data@[k]);
                        } else {
                            assert(kept@[kept@.len() - 1] == p);
                        }
                    }
                }
            }
            i = i + 1;
        }
        proof {
            assert(kept@.to_set() =~= piece_remove_row(orig@, y as int).cells) by {
                assert forall|q: Position|
                    piece_remove_row(orig@, y as int).cells.contains(q) implies kept@.to_set()
                    .contains(q) by {
                    assert(orig.data.data@.contains(q));
                    let k = choose|k: int|
                        0 <= k < orig.data.data@.len() && orig.data.data@[k] == q;
                    assert(kept@.contains(q));
                }
                assert forall|q: Position| kept@.to_set().contains(q) implies piece_remove_row(
                    orig@,
                    y as int,
                ).cells.contains(q) by {
                    let k = choose|k: int| 0 <= k < orig.data.data@.len()
                        && orig.data.data@[k] == q;
                    assert(orig.data.data@.contains(q));
                    assert(orig@.cells.contains(q));
                }
            }
        }
        self.data.data = kept;
    }

    /// Applies gravity after the full row `y` vanished: every cell whose
    /// absolute row is strictly above `y` moves down one row; cells at or
    /// below `y` stay. Cells are treated as a set: if two cells would
    /// coincide, one copy remains.
    pub fn fall_down(&mut self, y: i32)
        requires
            i32::MIN <= y - old(self).data.position.1 <= i32::MAX,
            forall|i: int|
                0 <= i < old(self).data.data@.len() ==> (#[trigger] old(self).data.data@[i]).1
                    < i32::MAX,
        ensures
            final(self).kind == old(self).kind,
            final(self).rotation == old(self).rotation,
            final(self).data.position == old(self).data.position,
            final(self).data.data@.to_set() == piece_fall(old(self)@, y as int).cells,
            final(self).wf(),
    {
        let yrel = y - self.data.position.1;
        let ghost orig = *self;
        let ghost row: int = y as int;
        let mut out: Vec<Position> = Vec::new();
        let mut i: usize = 0;
        while i < self.data.data.len()
            invariant
                *self == orig,
                i <= self.data.data@.len(),
                row == y as int,
                yrel == y - orig.data.position.1,
                forall|k: int|
                    0 <= k < orig.data.data@.len() ==> (#[trigger] orig.data.data@[k]).1
                        < i32::MAX,
                out@.no_duplicates(),
                forall|q: Position|
                    #[trigger] out@.contains(q) ==> exists|k: int|
                        0 <= k < i && q == fall_cell(orig.data.data@[k], orig@.anchor_y, row),
                forall|k: int|
                    0 <= k < i ==> out@.contains(
                        fall_cell(#[trigger] orig.data.data@[k], orig@.anchor_y, row),
                    ),
            decreases self.data.data@.len() - i,
        {
            let p = self.data.data[i];
            let q = if p.1 < yrel {
                Position(p.0, p.1 + 1)
            } else {
                p
            };
            assert(q == fall_cell(orig.data.data@[i as int], orig@.anchor_y, row));
            if !cells_contain(&out, q) {
                let ghost prev = out@;
                out.push(q);
                proof {
                    assert forall|u: Position| #[trigger] out@.contains(u) implies exists|k: int|
                        0 <= k < i + 1 && u == fall_cell(
                            orig.data.data@[k],
                            orig@.anchor_y,
                            row,
                        ) by {
                        let idx = choose|idx: int| 0 <= idx < out@.len() && out@[idx] == u;
                        if idx < prev.len() {
                            assert(prev.contains(u));
                            let k = choose|k: int|
                                0 <= k < i && u == fall_cell(
                                    orig.data.data@[k],
                                    orig@.anchor_y,
                                    row,
                                );
                            assert(0 <= k < i + 1 && u == fall_cell(
                                orig.data.data@[k],
                                orig@.anchor_y,
                                row,
                            ));
                        } else {
                            assert(u == q);
                            assert(u == fall_cell(
                                orig.data.data@[i as int],
                                orig@.anchor_y,
                                row,
                            ));
                        }
                    }
                    assert forall|k: int| 0 <= k < i + 1 implies out@.contains(
                        fall_cell(#[trigger] orig.data.data@[k], orig@.anchor_y, row),
                    ) by {
                        if k < i {
                            let u = fall_cell(orig.data.data@[k], orig@.anchor_y, row);
                            assert(prev.contains(u));
                            let idx = choose|idx: int| 0 <= idx < prev.len() && prev[idx] == u;
                            assert(out@[idx] == u);
                        } else {
                            assert(out@[out@.len() - 1] == q);
                        }
                    }
                }
            } else {
                proof {
                    assert forall|k: int| 0 <= k < i + 1 implies out@.contains(
                        fall_cell(#[trigger] orig.data.data@[k], orig@.anchor_y, row),
                    ) by {
                        if k == i {
                            assert(out@.contains(q));
                        }
                    }
                }
            }
            i = i + 1;
        }
        proof {
            assert(out@.to_set() =~= piece_fall(orig@, row).cells) by {
                assert forall|q: Position| out@.to_set().contains(q) implies piece_fall(
                    orig@,
                    row,
                ).cells.contains(q) by {
                    let k = choose|k: int|
                        0 <= k < orig.data.data@.len() && q == fall_cell(
                            orig.data.data@[k],
                            orig@.anchor_y,
                            row,
                        );
                    let p = orig.data.data@[k];
                    assert(orig.data.data@.contains(p));
                    assert(orig@.cells.contains(p));
                }
                assert forall|q: Position|
                    piece_fall(orig@, row).cells.contains(q) implies out@.to_set().contains(
                    q,
                ) by {
                    let p = choose|p: Position|
                        #[trigger] orig@.cells.contains(p) && q == fall_cell(
                            p,
                            orig@.anchor_y,
                            row,
                        );
                    let k = choose|k: int|
                        0 <= k < orig.data.data@.len() && orig.data.data@[k] == p;
                    assert(out@.contains(q));
                }
            }
        }
        self.data.data = out;
    }
}

} // verus!
