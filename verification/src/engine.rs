//! The game engine: board state, movement and locking rules, the
//! line-clearing state machine, scoring, and the pause switch.
//!
//! Every action method relates the state after the call to the state
//! before it through the spec-level step functions defined here. The
//! caller drives the engine by calling the action methods on key events
//! and `tick` on a fixed cadence; while a line-clear animation is
//! pending, gravity is suspended and the pending rows resolve on the
//! next un-paused tick.

use vstd::prelude::*;
use crate::position::Position;
use crate::shape::{lemma_shape_seq_wf, shape_seq, Kind};
use crate::tetromino::{
    collides, copy_cells, copy_piece, covers, fall_cell, occupies, piece_fall, piece_remove_row,
    piece_rotated, PieceModel, Tetromino, TetrominoData,
};

verus! {

/// Mathematical model of the whole engine state.
#[verifier::ext_equal]
pub ghost struct GameModel {
    pub width: int,
    pub height: int,
    pub active: Option<PieceModel>,
    pub ghost_piece: Option<PieceModel>,
    pub blocks: Seq<PieceModel>,
    pub speed: int,
    pub score: int,
    pub lost: bool,
    pub paused: bool,
    pub clearing: Option<Seq<int>>,
    pub anim_start: Option<int>,
}

/// Every cell of the piece lies on the board.
pub open spec fn piece_in_bounds(m: PieceModel, w: int, h: int) -> bool {
    forall|x: int, y: int| #[trigger] occupies(m, x, y) ==> 0 <= x < w && 0 <= y < h
}

/// The anchor coordinates are far from the `i32` limits, so candidate
/// positions one step away can be computed without overflow.
pub open spec fn anchor_ok(m: PieceModel) -> bool {
    &&& -0x2000_0000 <= m.anchor_x <= 0x2000_0000
    &&& -0x2000_0000 <= m.anchor_y <= 0x2000_0000
}

/// The piece shares a cell with some block of the list.
pub open spec fn hits_blocks(blocks: Seq<PieceModel>, m: PieceModel) -> bool {
    exists|i: int| 0 <= i < blocks.len() && collides(#[trigger] blocks[i], m)
}

/// The piece may be placed: on the board, and clear of all locked blocks.
pub open spec fn placeable(g: GameModel, m: PieceModel) -> bool {
    piece_in_bounds(m, g.width, g.height) && !hits_blocks(g.blocks, m)
}

/// The piece moved by `(dx, dy)`, cells and rotation unchanged.
pub open spec fn moved_piece(m: PieceModel, dx: int, dy: int) -> PieceModel {
    PieceModel { anchor_x: m.anchor_x + dx, anchor_y: m.anchor_y + dy, ..m }
}

/// The piece moved down by `k` rows.
pub open spec fn dropped(m: PieceModel, k: int) -> PieceModel {
    moved_piece(m, 0, k)
}

/// The state with the ghost projection replaced.
pub open spec fn with_ghost(g: GameModel, gh: Option<PieceModel>) -> GameModel {
    GameModel { ghost_piece: gh, ..g }
}

/// `v` is the active piece `a` dropped by `k` rows: every intermediate
/// step is legal and one more step would not be.
pub open spec fn ghost_drop_at(g: GameModel, a: PieceModel, v: PieceModel, k: int) -> bool {
    &&& k >= 0
    &&& v == dropped(a, k)
    &&& forall|j: int| 1 <= j <= k ==> placeable(g, #[trigger] dropped(a, j))
    &&& !placeable(g, dropped(a, k + 1))
}

/// `gh` is the correct landing preview for the state `g`: the active
/// piece moved down as far as it can go. Absent exactly when no piece
/// is active.
pub open spec fn ghost_ok(g: GameModel, gh: Option<PieceModel>) -> bool {
    match g.active {
        None => gh is None,
        Some(a) => match gh {
            None => false,
            Some(v) => exists|k: int| #[trigger] ghost_drop_at(g, a, v, k),
        },
    }
}

/// One translation attempt: the candidate at `(dx, dy)` from the active
/// piece replaces it if the move is legal; otherwise nothing changes.
pub open spec fn translate_step(g: GameModel, dx: int, dy: int) -> GameModel {
    match g.active {
        None => g,
        Some(a) => {
            let c = moved_piece(a, dx, dy);
            if placeable(g, c) {
                GameModel { active: Some(c), ..g }
            } else {
                g
            }
        },
    }
}

/// One rotation attempt: the rotated candidate replaces the active
/// piece if legal; otherwise nothing changes.
pub open spec fn rotate_step(g: GameModel) -> GameModel {
    match g.active {
        None => g,
        Some(a) => {
            let c = piece_rotated(a);
            if placeable(g, c) {
                GameModel { active: Some(c), ..g }
            } else {
                g
            }
        },
    }
}

/// Column of the fixed spawn anchor on a board of width `w`.
pub open spec fn spawn_x(w: int) -> int {
    (w - 4) / 2
}

/// A freshly spawned piece of kind `k` on a board of width `w`: the
/// catalog's base shape at the fixed spawn anchor.
pub open spec fn spawn_model(k: Kind, w: int) -> PieceModel {
    PieceModel {
        kind: k,
        anchor_x: spawn_x(w),
        anchor_y: 0,
        cells: shape_seq(k, 0).to_set(),
        rotation: 0,
    }
}

/// The state after the active piece locks and a piece of kind `k`
/// spawns: the active piece joins the locked blocks, the spawned piece
/// becomes active, the ghost is cleared, and the terminal flag is set
/// when the spawned piece immediately collides with a locked block.
pub open spec fn lock_spawn(g: GameModel, k: Kind) -> GameModel {
    let blocks2 = g.blocks.push(g.active.unwrap());
    let sp = spawn_model(k, g.width);
    GameModel {
        blocks: blocks2,
        active: Some(sp),
        ghost_piece: None,
        lost: g.lost || hits_blocks(blocks2, sp),
        ..g
    }
}

/// Some block covers the absolute cell `(x, y)`.
pub open spec fn cell_occupied_in(blocks: Seq<PieceModel>, x: int, y: int) -> bool {
    exists|i: int| 0 <= i < blocks.len() && occupies(#[trigger] blocks[i], x, y)
}

/// Some locked block covers the absolute cell `(x, y)`.
pub open spec fn cell_occupied(g: GameModel, x: int, y: int) -> bool {
    cell_occupied_in(g.blocks, x, y)
}

/// Every column of row `y` is covered by some locked block.
pub open spec fn row_full(g: GameModel, y: int) -> bool {
    forall|x: int| 0 <= x < g.width ==> cell_occupied(g, x, y)
}

/// `rows` lists exactly the full rows of `g`, in increasing order.
pub open spec fn full_rows_listed(g: GameModel, rows: Seq<int>) -> bool {
    &&& forall|a: int, b: int| 0 <= a < b < rows.len() ==> rows[a] < rows[b]
    &&& forall|k: int| 0 <= k < rows.len() ==> 0 <= #[trigger] rows[k] < g.height
    &&& forall|y: int| 0 <= y < g.height ==> (#[trigger] row_full(g, y) <==> rows.contains(y))
}

/// `a + b` clamped to `i32::MAX`.
pub open spec fn sat_add_i32(a: int, b: int) -> int {
    if a + b <= i32::MAX {
        a + b
    } else {
        i32::MAX as int
    }
}

/// The state after full rows `rows` were detected: the score grows by
/// their number, the rows are parked in the animation state, and
/// nothing else changes — in particular the locked blocks keep all
/// their cells until the animation resolves.
pub open spec fn clear_commit(g: GameModel, rows: Seq<int>) -> GameModel {
    GameModel {
        score: sat_add_i32(g.score, rows.len() as int),
        clearing: Some(rows),
        anim_start: Some(0),
        ..g
    }
}

/// Relates the state before and after one full-line detection scan.
/// The scan is a no-op once the game is lost or while an animation is
/// already pending, and when no row is full.
pub open spec fn clear_lines_rel(pre: GameModel, post: GameModel) -> bool {
    if pre.lost || pre.clearing is Some {
        post == pre
    } else if forall|y: int| 0 <= y < pre.height ==> !(#[trigger] row_full(pre, y)) {
        post == pre
    } else {
        exists|rows: Seq<int>|
            {
                &&& #[trigger] full_rows_listed(pre, rows)
                &&& rows.len() > 0
                &&& post == clear_commit(pre, rows)
            }
    }
}

/// The state after the active piece fell by the fall speed.
pub open spec fn fall_commit(pre: GameModel) -> GameModel {
    GameModel { active: Some(dropped(pre.active.unwrap(), pre.speed)), ..pre }
}

/// The state after the active piece dropped `k` rows locks and a piece
/// of kind `kd` spawns.
pub open spec fn hard_drop_lock(pre: GameModel, k: int, kd: Kind) -> GameModel {
    lock_spawn(GameModel { active: Some(dropped(pre.active.unwrap(), k)), ..pre }, kd)
}

/// Relates the state before and after one gravity step. When the piece
/// can fall it falls and the preview is recomputed; when it cannot, it
/// locks and a random piece spawns. Either way a line-detection scan
/// runs unless an animation is already pending. A no-op once lost or
/// while no piece is active.
pub open spec fn move_down_rel(pre: GameModel, post: GameModel) -> bool {
    if pre.lost || pre.active is None {
        post == pre
    } else if placeable(pre, dropped(pre.active.unwrap(), pre.speed)) {
        exists|gh: Option<PieceModel>|
            {
                &&& #[trigger] ghost_ok(fall_commit(pre), gh)
                &&& clear_lines_rel(with_ghost(fall_commit(pre), gh), post)
            }
    } else {
        exists|kd: Kind| clear_lines_rel(#[trigger] lock_spawn(pre, kd), post)
    }
}

/// Relates the state before and after a hard drop: the active piece
/// falls to its landing position, locks there, a random piece spawns,
/// the preview is recomputed, and a line-detection scan runs unless an
/// animation is already pending. A no-op once lost or while no piece
/// is active.
pub open spec fn speed_up_rel(pre: GameModel, post: GameModel) -> bool {
    if pre.lost || pre.active is None {
        post == pre
    } else {
        exists|k: int, kd: Kind, gh: Option<PieceModel>|
            {
                &&& ghost_drop_at(pre, pre.active.unwrap(), dropped(pre.active.unwrap(), k), k)
                &&& #[trigger] ghost_ok(hard_drop_lock(pre, k, kd), gh)
                &&& clear_lines_rel(with_ghost(hard_drop_lock(pre, k, kd), gh), post)
            }
    }
}

/// A pending clearing set: strictly ascending row indices on the board.
pub open spec fn rows_wf(rows: Seq<int>, h: int) -> bool {
    &&& forall|a: int, b: int| 0 <= a < b < rows.len() ==> rows[a] < rows[b]
    &&& forall|k: int| 0 <= k < rows.len() ==> 0 <= #[trigger] rows[k] < h
}

/// One resolution step: the cleared row `r` is removed from every block
/// and every cell above it falls one row.
pub open spec fn resolve_row(blocks: Seq<PieceModel>, r: int) -> Seq<PieceModel> {
    blocks.map_values(|m: PieceModel| piece_fall(piece_remove_row(m, r), r))
}

/// Resolves the pending rows, highest row index first.
pub open spec fn resolve_rows(blocks: Seq<PieceModel>, rows: Seq<int>) -> Seq<PieceModel>
    decreases rows.len(),
{
    if rows.len() == 0 {
        blocks
    } else {
        resolve_rows(resolve_row(blocks, rows.last()), rows.drop_last())
    }
}

/// The piece still holds at least one cell.
pub open spec fn piece_nonempty(m: PieceModel) -> bool {
    exists|p: Position| m.cells.contains(p)
}

/// The block list with blocks that lost their last cell dropped.
pub open spec fn drop_empty(blocks: Seq<PieceModel>) -> Seq<PieceModel>
    decreases blocks.len(),
{
    if blocks.len() == 0 {
        Seq::empty()
    } else {
        let rest = drop_empty(blocks.drop_last());
        if piece_nonempty(blocks.last()) {
            rest.push(blocks.last())
        } else {
            rest
        }
    }
}

/// The state after a pending animation resolves: the stored rows are
/// cleared out of the locked blocks, emptied blocks are dropped, and
/// the animation state returns to idle.
pub open spec fn resolve_commit(g: GameModel, rows: Seq<int>) -> GameModel {
    GameModel {
        blocks: drop_empty(resolve_rows(g.blocks, rows)),
        clearing: None,
        anim_start: None,
        ..g
    }
}

/// A piece with a catalog shape, anchored with its 4x4 box on the
/// board, lies entirely on the board.
pub proof fn lemma_spawn_in_bounds(t: Tetromino, w: int, h: int)
    requires
        t.data.data@ == shape_seq(t.kind, t.rotation as int),
        0 <= t.data.position.0,
        t.data.position.0 + 3 < w,
        t.data.position.1 == 0,
        4 <= h,
    ensures
        piece_in_bounds(t@, w, h),
{
    lemma_shape_seq_wf(t.kind, t.rotation as int);
    Tetromino::lemma_occupies_index(t);
    assert forall|x: int, y: int| #[trigger] occupies(t@, x, y) implies 0 <= x < w && 0 <= y
        < h by {
        let k = choose|k: int|
            0 <= k < t.data.data@.len() && x == #[trigger] t.cell_x(k) && y == t.cell_y(k);
        assert(0 <= shape_seq(t.kind, t.rotation as int)[k].0 < 4);
        assert(0 <= shape_seq(t.kind, t.rotation as int)[k].1 < 4);
    }
}

/// A piece with a catalog shape that lies on the board has its anchor
/// within four cells of the board, far from the `i32` limits.
pub proof fn lemma_table_anchor_bounds(t: Tetromino, w: int, h: int)
    requires
        t.data.data@ == shape_seq(t.kind, t.rotation as int),
        piece_in_bounds(t@, w, h),
        0 < w <= 0x1000_0000,
        0 < h <= 0x1000_0000,
    ensures
        anchor_ok(t@),
        -4 < t@.anchor_x < w,
        -4 < t@.anchor_y < h,
{
    lemma_shape_seq_wf(t.kind, t.rotation as int);
    let p = t.data.data@[0];
    assert(t.data.data@.contains(p));
    assert(t@.cells.contains(p));
    assert(occupies(t@, t@.anchor_x + p.0, t@.anchor_y + p.1));
    assert(0 <= t@.anchor_x + p.0 < w && 0 <= t@.anchor_y + p.1 < h);
    assert(0 <= p.0 < 4 && 0 <= p.1 < 4);
}

/// Relates the state before and after one timer tick. While paused,
/// nothing happens. While a clearing animation is pending, the pending
/// rows resolve and a fresh detection scan runs (which may start a new
/// animation for a cascade); gravity is suspended. Otherwise the tick
/// is one gravity step.
pub open spec fn tick_rel(pre: GameModel, post: GameModel) -> bool {
    if pre.paused {
        post == pre
    } else {
        match pre.clearing {
            Some(rows) => clear_lines_rel(resolve_commit(pre, rows), post),
            None => move_down_rel(pre, post),
        }
    }
}

/// Resolving peels the pending rows from the front: the remaining rows
/// are untouched by the step for the last (highest) one.
proof fn lemma_resolve_rows_first(b: Seq<PieceModel>, s: Seq<int>)
    requires
        s.len() > 0,
    ensures
        resolve_rows(b, s) == resolve_row(resolve_rows(b, s.drop_first()), s.first()),
    decreases s.len(),
{
    if s.len() == 1 {
        assert(s.drop_last() =~= s.drop_first());
        assert(s.drop_first().len() == 0);
        assert(s.last() == s.first());
        assert(resolve_rows(b, s.drop_first()) == b);
        assert(resolve_rows(b, s) == resolve_rows(resolve_row(b, s.last()), s.drop_last()));
        assert(resolve_rows(resolve_row(b, s.last()), s.drop_last()) == resolve_row(
            b,
            s.last(),
        ));
        assert(resolve_rows(b, s) == resolve_row(resolve_rows(b, s.drop_first()), s.first()));
    } else {
        lemma_resolve_rows_first(resolve_row(b, s.last()), s.drop_last());
        assert(s.drop_last().first() == s.first());
        assert(s.drop_last().drop_first() =~= s.drop_first().drop_last());
        assert(s.drop_first().last() == s.last());
        assert(resolve_rows(b, s) == resolve_rows(resolve_row(b, s.last()), s.drop_last()));
        assert(resolve_rows(resolve_row(b, s.last()), s.drop_last()) == resolve_row(
            resolve_rows(resolve_row(b, s.last()), s.drop_last().drop_first()),
            s.first(),
        ));
        assert(resolve_rows(b, s.drop_first()) == resolve_rows(
            resolve_row(b, s.drop_first().last()),
            s.drop_first().drop_last(),
        ));
        assert(resolve_rows(resolve_row(b, s.last()), s.drop_first().drop_last())
            == resolve_rows(b, s.drop_first()));
        assert(resolve_rows(b, s) == resolve_row(resolve_rows(b, s.drop_first()), s.first()));
    }
}

/// Clearing a row keeps a block that lay on the board on the board.
proof fn lemma_clear_block_in_bounds(m: PieceModel, r: int, w: int, h: int)
    requires
        piece_in_bounds(m, w, h),
        anchor_ok(m),
        0 <= r < h,
        h <= 0x1000_0000,
    ensures
        piece_in_bounds(piece_fall(piece_remove_row(m, r), r), w, h),
{
    let m2 = piece_fall(piece_remove_row(m, r), r);
    assert forall|x: int, y: int| #[trigger] occupies(m2, x, y) implies 0 <= x < w && 0 <= y
        < h by {
        let p = choose|p: Position|
            #[trigger] m2.cells.contains(p) && x == m2.anchor_x + p.0 && y == m2.anchor_y + p.1;
        let q = choose|q: Position|
            #[trigger] piece_remove_row(m, r).cells.contains(q) && p == fall_cell(
                q,
                m.anchor_y,
                r,
            );
        assert(m.cells.contains(q));
        assert(occupies(m, m.anchor_x + q.0, m.anchor_y + q.1));
        assert(0 <= m.anchor_x + q.0 < w && 0 <= m.anchor_y + q.1 < h);
        assert(q.1 < i32::MAX);
        if m.anchor_y + q.1 < r {
            assert(p == Position(q.0, (q.1 + 1) as i32));
            assert(p.1 == q.1 + 1);
            assert(y == m.anchor_y + q.1 + 1);
        } else {
            assert(p == q);
        }
    }
}

/// Copies a row-index vector element by element.
fn copy_usize_vec(v: &Vec<usize>) -> (r: Vec<usize>)
    ensures
        r@ == v@,
{
    let mut r: Vec<usize> = Vec::new();
    let mut i: usize = 0;
    while i < v.len()
        invariant
            i <= v.len(),
            r@ == v@.take(i as int),
        decreases v.len() - i,
    {
        r.push(v[i]);
        proof {
            assert(r@ =~= v@.take(i + 1 as int));
        }
        i = i + 1;
    }
    proof {
        assert(v@.take(v@.len() as int) =~= v@);
    }
    r
}

/// The engine. All state transitions happen inside the action methods;
/// the query methods are read-only.
#[derive(Debug)]
pub struct Tetris {
    pub width: u32,
    pub height: u32,
    /// The falling piece under the player's control.
    pub current_tetromino: Option<Tetromino>,
    /// Landing preview: a pure projection of the active piece, never
    /// persisted to the locked blocks.
    pub ghost_tetromino: Option<Tetromino>,
    /// The locked pieces; their cells take part in row-fullness checks.
    pub fixed_blocks: Vec<Tetromino>,
    /// Rows fallen per gravity tick; always 1.
    pub speed: i32,
    pub score: i32,
    pub lost: bool,
    pub paused: bool,
    /// Full rows detected and waiting for the animation to resolve, in
    /// increasing order.
    pub lines_being_cleared: Option<Vec<usize>>,
    /// Set while a clearing animation is pending.
    pub animation_start_time: Option<u64>,
}

impl View for Tetris {
    type V = GameModel;

    open spec fn view(&self) -> GameModel {
        GameModel {
            width: self.width as int,
            height: self.height as int,
            active: match self.current_tetromino {
                Some(t) => Some(t@),
                None => None,
            },
            ghost_piece: match self.ghost_tetromino {
                Some(t) => Some(t@),
                None => None,
            },
            blocks: self.fixed_blocks@.map_values(|t: Tetromino| t@),
            speed: self.speed as int,
            score: self.score as int,
            lost: self.lost,
            paused: self.paused,
            clearing: match self.lines_being_cleared {
                Some(v) => Some(v@.map_values(|u: usize| u as int)),
                None => None,
            },
            anim_start: match self.animation_start_time {
                Some(t) => Some(t as int),
                None => None,
            },
        }
    }
}

impl Tetris {
    /// Structural invariant of the engine state. Established by `new`
    /// and preserved by every action method.
    pub open spec fn wf(self) -> bool {
        &&& 4 <= self.width <= 0x1000_0000
        &&& 4 <= self.height <= 0x1000_0000
        &&& self.speed == 1
        &&& self.score >= 0
        &&& (self.lines_being_cleared is Some <==> self.animation_start_time is Some)
        &&& match self.lines_being_cleared {
            Some(v) => rows_wf(v@.map_values(|u: usize| u as int), self.height as int),
            None => true,
        }
        &&& match self.current_tetromino {
            Some(t) => {
                &&& t.wf()
                &&& t.rotation < 4
                &&& t.data.data@ == shape_seq(t.kind, t.rotation as int)
                &&& piece_in_bounds(t@, self.width as int, self.height as int)
                &&& anchor_ok(t@)
            },
            None => true,
        }
        &&& forall|i: int|
            0 <= i < self.fixed_blocks@.len() ==> {
                &&& (#[trigger] self.fixed_blocks@[i]).wf()
                &&& piece_in_bounds(self.fixed_blocks@[i]@, self.width as int, self.height as int)
                &&& anchor_ok(self.fixed_blocks@[i]@)
            }
    }

    /// The current score.
    pub fn get_score(&self) -> (r: i32)
        ensures
            r == self.score,
    {
        self.score
    }

    /// Stops the timer-driven tick; movement actions are not gated.
    pub fn pause(&mut self)
        ensures
            *final(self) == (Tetris { paused: true, ..*old(self) }),
    {
        self.paused = true;
    }

    /// Restores normal tick behaviour.
    pub fn resume(&mut self)
        ensures
            *final(self) == (Tetris { paused: false, ..*old(self) }),
    {
        self.paused = false;
    }

    /// Whether the engine is paused.
    pub fn is_paused(&self) -> (r: bool)
        ensures
            r == self.paused,
    {
        self.paused
    }

    /// True when some cell of `t` lies outside the board.
    pub fn is_oob(&self, t: &Tetromino) -> (r: bool)
        ensures
            r == !piece_in_bounds(t@, self.width as int, self.height as int),
    {
        let n = t.data.data.len();
        let mut i: usize = 0;
        while i < n
            invariant
                n == t.data.data@.len(),
                i <= n,
                forall|k: int|
                    0 <= k < i ==> 0 <= #[trigger] t.cell_x(k) < self.width as int && 0
                        <= t.cell_y(k) < self.height as int,
            decreases n - i,
        {
            let x = t.data.position.0 as i64 + t.data.data[i].0 as i64;
            let y = t.data.position.1 as i64 + t.data.data[i].1 as i64;
            if x < 0 || x >= self.width as i64 || y < 0 || y >= self.height as i64 {
                proof {
                    let p = t.data.data@[i as int];
                    assert(t.data.data@.contains(p));
                    assert(t@.cells.contains(p));
                    assert(occupies(t@, x as int, y as int));
                }
                return true;
            }
            i = i + 1;
        }
        proof {
            Tetromino::lemma_occupies_index(*t);
            assert forall|x: int, y: int| #[trigger] occupies(t@, x, y) implies 0 <= x
                < self.width as int && 0 <= y < self.height as int by {
                let k = choose|k: int|
                    0 <= k < t.data.data@.len() && x == #[trigger] t.cell_x(k) && y == t.cell_y(k);
            }
        }
        false
    }

    /// Creates a fresh game: an empty board of the given dimensions
    /// with a random piece spawned at the fixed spawn anchor.
    pub fn new(width: u32, height: u32) -> (r: Tetris)
        requires
            4 <= width <= 0x1000_0000,
            4 <= height <= 0x1000_0000,
        ensures
            r.wf(),
            r.width == width,
            r.height == height,
            r.fixed_blocks@.len() == 0,
            r.speed == 1,
            r.score == 0,
            !r.lost,
            !r.paused,
            r.lines_being_cleared is None,
            r.animation_start_time is None,
            r.ghost_tetromino is None,
            r.current_tetromino matches Some(t) && t@ == spawn_model(t.kind, width as int),
    {
        let spawn_pos = Position(((width - 4) / 2) as i32, 0);
        let t = Tetromino::new_random(spawn_pos);
        proof {
            lemma_spawn_in_bounds(t, width as int, height as int);
            assert(t@ =~~= spawn_model(t.kind, width as int));
        }
        Tetris {
            width,
            height,
            current_tetromino: Some(t),
            ghost_tetromino: None,
            fixed_blocks: Vec::new(),
            speed: 1,
            score: 0,
            lost: false,
            paused: false,
            lines_being_cleared: None,
            animation_start_time: None,
        }
    }

    /// One translation attempt: moves the active piece by `pos` when
    /// the move keeps it on the board and clear of locked blocks;
    /// otherwise the call is a no-op.
    fn translate(&mut self, pos: Position)
        requires
            old(self).wf(),
            -2 <= pos.0 <= 2,
            -2 <= pos.1 <= 2,
        ensures
            final(self).wf(),
            final(self)@ == translate_step(old(self)@, pos.0 as int, pos.1 as int),
            *final(self) == (Tetris {
                current_tetromino: final(self).current_tetromino,
                ..*old(self)
            }),
    {
        let ghost g = self@;
        let cur = match &self.current_tetromino {
            Some(c) => c,
            None => {
                return ;
            },
        };
        let ghost a = cur@;
        let new_pos = cur.data.position.plus(pos);
        let cand = Tetromino {
            kind: cur.kind,
            data: TetrominoData { position: new_pos, data: copy_cells(&cur.data.data) },
            rotation: cur.rotation,
        };
        proof {
            assert(cand@ =~~= moved_piece(a, pos.0 as int, pos.1 as int));
        }
        if self.is_oob(&cand) || self.is_colliding(&cand) {
            return ;
        }
        proof {
            assert(placeable(g, cand@));
            lemma_table_anchor_bounds(cand, self.width as int, self.height as int);
        }
        self.current_tetromino = Some(cand);
        proof {
            assert(final(self)@ =~~= translate_step(g, pos.0 as int, pos.1 as int));
        }
    }

    /// Recomputes the landing preview: the active piece probed downward
    /// one row at a time until the next step would be illegal. Clears
    /// the preview when no piece is active.
    pub fn udpate_ghost(&mut self)
        requires
            old(self).wf(),
        ensures
            final(self).wf(),
            *final(self) == (Tetris {
                ghost_tetromino: final(self).ghost_tetromino,
                ..*old(self)
            }),
            ghost_ok(old(self)@, final(self)@.ghost_piece),
    {
        let ghost orig = *old(self);
        let cur = match &self.current_tetromino {
            Some(c) => c,
            None => {
                self.ghost_tetromino = None;
                return ;
            },
        };
        let ghost a = cur@;
        let ghost p0 = cur.data.data@[0];
        let mut next = copy_piece(cur);
        let ghost mut k: int = 0;
        proof {
            lemma_shape_seq_wf(a.kind, a.rotation);
            assert(cur.data.data@.contains(p0));
            assert(a.cells.contains(p0));
            assert(occupies(a, a.anchor_x + p0.0, a.anchor_y + p0.1));
            assert(0 <= a.anchor_y + p0.1 < orig.height as int);
        }
        loop
            invariant_except_break
                *self == orig,
                self@ == orig@,
                4 <= orig.width <= 0x1000_0000,
                4 <= orig.height <= 0x1000_0000,
                orig@.active == Some(a),
                anchor_ok(a),
                a.cells.contains(p0),
                0 <= a.anchor_y + p0.1 < orig.height as int,
                0 <= k <= orig.height as int,
                next@ == dropped(a, k),
                next.data.position.0 as int == a.anchor_x,
                next.data.position.1 as int == a.anchor_y + k,
                forall|j: int| 1 <= j <= k ==> placeable(orig@, #[trigger] dropped(a, j)),
            ensures
                *self == (Tetris { ghost_tetromino: self.ghost_tetromino, ..orig }),
                ghost_ok(orig@, self@.ghost_piece),
            decreases orig.height as int - k,
        {
            next.data.position = next.data.position.plus(Position(0, 1));
            proof {
                assert(next@ =~~= dropped(a, k + 1));
            }
            if self.is_oob(&next) || self.is_colliding(&next) {
                proof {
                    assert(!placeable(orig@, dropped(a, k + 1)));
                }
                next.data.position = next.data.position.minus(Position(0, 1));
                proof {
                    assert(next@ =~~= dropped(a, k));
                }
                self.ghost_tetromino = Some(next);
                proof {
                    assert(*self == (Tetris { ghost_tetromino: self.ghost_tetromino, ..orig }));
                    assert(ghost_drop_at(orig@, a, next@, k));
                    assert(self@.ghost_piece == Some(next@));
                }
                break ;
            }
            proof {
                assert(placeable(orig@, dropped(a, k + 1)));
                // a piece on the board bounds the probe distance: its
                // cell p0 must stay above the floor.
                assert(dropped(a, k + 1).cells == a.cells);
                assert(dropped(a, k + 1).cells.contains(p0));
                assert(occupies(
                    dropped(a, k + 1),
                    a.anchor_x + p0.0,
                    a.anchor_y + k + 1 + p0.1,
                ));
                assert(a.anchor_y + k + 1 + p0.1 < orig.height as int);
                k = k + 1;
            }
        }
    }

    /// One rotation attempt: the active piece advances to its next
    /// rotation state when the rotated piece is legal; otherwise the
    /// call is a no-op. No wall kick is attempted. Rejected once lost.
    pub fn rotate(&mut self)
        requires
            old(self).wf(),
        ensures
            final(self).wf(),
            *final(self) == (Tetris {
                current_tetromino: final(self).current_tetromino,
                ghost_tetromino: final(self).ghost_tetromino,
                ..*old(self)
            }),
            old(self).lost ==> *final(self) == *old(self),
            !old(self).lost && rotate_step(old(self)@) == old(self)@ ==> *final(self) == *old(
                self,
            ),
            !old(self).lost && rotate_step(old(self)@) != old(self)@ ==> {
                &&& final(self)@ == with_ghost(
                    rotate_step(old(self)@),
                    final(self)@.ghost_piece,
                )
                &&& ghost_ok(rotate_step(old(self)@), final(self)@.ghost_piece)
            },
    {
        if self.lost {
            return ;
        }
        let ghost g = self@;
        let cur = match &self.current_tetromino {
            Some(c) => c,
            None => {
                return ;
            },
        };
        let ghost a = cur@;
        let cand = cur.rotated();
        proof {
            assert(cand@ =~~= piece_rotated(a));
        }
        if self.is_oob(&cand) || self.is_colliding(&cand) {
            proof {
                assert(!placeable(g, piece_rotated(a)));
                assert(rotate_step(g) == g);
            }
            return ;
        }
        proof {
            assert(placeable(g, cand@));
            lemma_table_anchor_bounds(cand, self.width as int, self.height as int);
        }
        self.current_tetromino = Some(cand);
        proof {
            assert(self@ =~~= rotate_step(g));
        }
        self.udpate_ghost();
    }

    /// Moves the active piece one column to the left when legal.
    /// Rejected once lost.
    pub fn move_left(&mut self)
        requires
            old(self).wf(),
        ensures
            final(self).wf(),
            old(self).lost ==> *final(self) == *old(self),
            !old(self).lost ==> {
                &&& *final(self) == (Tetris {
                    current_tetromino: final(self).current_tetromino,
                    ghost_tetromino: final(self).ghost_tetromino,
                    ..*old(self)
                })
                &&& final(self)@ == with_ghost(
                    translate_step(old(self)@, -1, 0),
                    final(self)@.ghost_piece,
                )
                &&& ghost_ok(translate_step(old(self)@, -1, 0), final(self)@.ghost_piece)
            },
    {
        if self.lost {
            return ;
        }
        self.translate(Position(-1, 0));
        proof {
            assert(self@ == translate_step(old(self)@, -1, 0));
        }
        self.udpate_ghost();
        proof {
            assert(self@ =~~= with_ghost(
                translate_step(old(self)@, -1, 0),
                self@.ghost_piece,
            ));
        }
    }

    /// Moves the active piece one column to the right when legal.
    /// Rejected once lost.
    pub fn move_right(&mut self)
        requires
            old(self).wf(),
        ensures
            final(self).wf(),
            old(self).lost ==> *final(self) == *old(self),
            !old(self).lost ==> {
                &&& *final(self) == (Tetris {
                    current_tetromino: final(self).current_tetromino,
                    ghost_tetromino: final(self).ghost_tetromino,
                    ..*old(self)
                })
                &&& final(self)@ == with_ghost(
                    translate_step(old(self)@, 1, 0),
                    final(self)@.ghost_piece,
                )
                &&& ghost_ok(translate_step(old(self)@, 1, 0), final(self)@.ghost_piece)
            },
    {
        if self.lost {
            return ;
        }
        self.translate(Position(1, 0));
        proof {
            assert(self@ == translate_step(old(self)@, 1, 0));
        }
        self.udpate_ghost();
        proof {
            assert(self@ =~~= with_ghost(
                translate_step(old(self)@, 1, 0),
                self@.ghost_piece,
            ));
        }
    }

    /// True when some locked block covers the absolute cell `(x, y)`.
    fn cell_occupied_at(&self, x: i64, y: i64) -> (r: bool)
        ensures
            r == cell_occupied(self@, x as int, y as int),
    {
        let n = self.fixed_blocks.len();
        let mut i: usize = 0;
        while i < n
            invariant
                n == self.fixed_blocks@.len(),
                i <= n,
                forall|k: int| 0 <= k < i ==> !occupies(#[trigger] self@.blocks[k], x as int, y as int),
            decreases n - i,
        {
            if covers(&self.fixed_blocks[i], x, y) {
                proof {
                    assert(self@.blocks[i as int] == self.fixed_blocks@[i as int]@);
                    assert(occupies(self@.blocks[i as int], x as int, y as int));
                }
                return true;
            }
            i = i + 1;
        }
        proof {
            if cell_occupied(self@, x as int, y as int) {
                let k = choose|k: int|
                    0 <= k < self@.blocks.len() && occupies(
                        #[trigger] self@.blocks[k],
                        x as int,
                        y as int,
                    );
                assert(false);
            }
        }
        false
    }

    /// True when every column of row `y` is covered by a locked block.
    fn row_is_full(&self, y: u32) -> (r: bool)
        ensures
            r == row_full(self@, y as int),
    {
        let w = self.width;
        let mut x: u32 = 0;
        while x < w
            invariant
                w == self.width,
                x <= w,
                forall|xx: int| 0 <= xx < x ==> cell_occupied(self@, xx, y as int),
            decreases w - x,
        {
            if !self.cell_occupied_at(x as i64, y as i64) {
                return false;
            }
            x = x + 1;
        }
        true
    }

    /// One full-line detection scan. When full rows exist and no
    /// animation is pending, the score grows by their number and the
    /// rows enter the clearing animation; the locked blocks themselves
    /// are untouched. A no-op once lost, while an animation is already
    /// pending, and when no row is full.
    pub fn clear_lines(&mut self)
        requires
            old(self).wf(),
        ensures
            final(self).wf(),
            clear_lines_rel(old(self)@, final(self)@),
            *final(self) == (Tetris {
                score: final(self).score,
                lines_being_cleared: final(self).lines_being_cleared,
                animation_start_time: final(self).animation_start_time,
                ..*old(self)
            }),
    {
        let ghost orig = *old(self);
        if self.lost {
            return ;
        }
        if self.lines_being_cleared.is_some() {
            return ;
        }
        let mut rows: Vec<usize> = Vec::new();
        let mut y: u32 = 0;
        while y < self.height
            invariant
                *self == orig,
                y <= self.height,
                rows@.len() <= y,
                forall|a: int, b: int| 0 <= a < b < rows@.len() ==> rows@[a] < rows@[b],
                forall|k: int|
                    0 <= k < rows@.len() ==> (#[trigger] rows@[k]) < y && row_full(
                        orig@,
                        rows@[k] as int,
                    ),
                forall|yy: int|
                    0 <= yy < y && #[trigger] row_full(orig@, yy) ==> exists|k: int|
                        0 <= k < rows@.len() && rows@[k] == yy,
            decreases self.height - y,
        {
            if self.row_is_full(y) {
                let ghost prev = rows@;
                rows.push(y as usize);
                proof {
                    assert forall|yy: int|
                        0 <= yy < y + 1 && #[trigger] row_full(orig@, yy) implies exists|k: int|
                        0 <= k < rows@.len() && rows@[k] == yy by {
                        if yy < y {
                            let k = choose|k: int| 0 <= k < prev.len() && prev[k] == yy;
                            assert(rows@[k] == yy);
                        } else {
                            assert(rows@[rows@.len() - 1] == yy);
                        }
                    }
                }
            }
            y = y + 1;
        }
        if rows.len() > 0 {
            let ghost rs = rows@;
            let ghost rows_int = rs.map_values(|u: usize| u as int);
            let n32 = rows.len() as i32;
            if self.score <= i32::MAX - n32 {
                self.score = self.score + n32;
            } else {
                self.score = i32::MAX;
            }
            self.lines_being_cleared = Some(rows);
            self.animation_start_time = Some(0);
            proof {
                assert(full_rows_listed(orig@, rows_int)) by {
                    assert forall|yy: int|
                        0 <= yy < orig@.height implies (#[trigger] row_full(orig@, yy)
                        <==> rows_int.contains(yy)) by {
                        if row_full(orig@, yy) {
                            let k = choose|k: int| 0 <= k < rs.len() && rs[k] == yy;
                            assert(rows_int[k] == yy);
                            assert(rows_int.contains(yy));
                        }
                        if rows_int.contains(yy) {
                            let k = choose|k: int|
                                0 <= k < rows_int.len() && rows_int[k] == yy;
                            assert(rs[k] == yy);
                            assert(row_full(orig@, rs[k] as int));
                        }
                    }
                    assert forall|aa: int, bb: int|
                        0 <= aa < bb < rows_int.len() implies rows_int[aa] < rows_int[bb] by {
                        assert(rs[aa] < rs[bb]);
                    }
                    assert forall|kk: int|
                        0 <= kk < rows_int.len() implies 0 <= #[trigger] rows_int[kk]
                            < orig@.height by {
                        assert(rs[kk] < orig.height);
                    }
                }
                assert(row_full(orig@, rows_int[0]));
                assert(self@ =~~= clear_commit(orig@, rows_int));
                assert(clear_lines_rel(orig@, self@));
            }
        } else {
            proof {
                assert forall|yy: int| 0 <= yy < orig@.height implies !(#[trigger] row_full(
                    orig@,
                    yy,
                )) by {
                    if row_full(orig@, yy) {
                        let k = choose|k: int| 0 <= k < rows@.len() && rows@[k] == yy;
                    }
                }
            }
        }
    }

    /// Locks the active piece in place: it joins the locked blocks, a
    /// random piece spawns at the fixed spawn anchor, the preview is
    /// cleared, and the game is lost when the spawned piece collides
    /// with a locked block.
    fn lock_and_spawn(&mut self)
        requires
            old(self).wf(),
            old(self).current_tetromino is Some,
        ensures
            final(self).wf(),
            exists|kd: Kind| final(self)@ == #[trigger] lock_spawn(old(self)@, kd),
    {
        let ghost pre = self@;
        let ghost a = self.current_tetromino.unwrap()@;
        let locked = copy_piece(self.current_tetromino.as_ref().unwrap());
        self.fixed_blocks.push(locked);
        proof {
            assert(self@.blocks =~= pre.blocks.push(a));
        }
        let next = Tetromino::new_random(Position(((self.width - 4) / 2) as i32, 0));
        let collide = self.is_colliding(&next);
        if collide {
            self.lost = true;
        }
        self.current_tetromino = Some(next);
        self.ghost_tetromino = None;
        proof {
            lemma_spawn_in_bounds(next, self.width as int, self.height as int);
            assert(next@ =~~= spawn_model(next.kind, pre.width));
            assert(self@ =~~= lock_spawn(pre, next.kind));
        }
    }

    /// One gravity step: the active piece falls by the fall speed when
    /// that is legal; otherwise it locks and a random piece spawns,
    /// losing the game if the spawned piece immediately collides. A
    /// line-detection scan follows unless an animation is pending.
    /// A no-op once lost.
    pub fn move_down(&mut self)
        requires
            old(self).wf(),
        ensures
            final(self).wf(),
            move_down_rel(old(self)@, final(self)@),
    {
        let ghost pre = self@;
        if self.lost {
            return ;
        }
        let cur = match &self.current_tetromino {
            Some(c) => c,
            None => {
                return ;
            },
        };
        let ghost a = cur@;
        let new_pos = cur.data.position.plus(Position(0, self.speed));
        let cand = Tetromino {
            kind: cur.kind,
            data: TetrominoData { position: new_pos, data: copy_cells(&cur.data.data) },
            rotation: cur.rotation,
        };
        proof {
            assert(cand@ =~~= dropped(a, pre.speed));
        }
        if self.is_oob(&cand) || self.is_colliding(&cand) {
            proof {
                assert(!placeable(pre, dropped(a, pre.speed)));
            }
            self.lock_and_spawn();
            let ghost m1 = self@;
            if self.lines_being_cleared.is_none() {
                self.clear_lines();
            }
            proof {
                let kd = choose|kd: Kind| m1 == #[trigger] lock_spawn(pre, kd);
                assert(clear_lines_rel(m1, self@));
                assert(clear_lines_rel(lock_spawn(pre, kd), self@));
            }
        } else {
            proof {
                assert(placeable(pre, cand@));
                lemma_table_anchor_bounds(cand, self.width as int, self.height as int);
            }
            self.current_tetromino = Some(cand);
            let ghost mid = self@;
            proof {
                assert(mid =~~= (GameModel { active: Some(dropped(a, pre.speed)), ..pre }));
            }
            self.udpate_ghost();
            let ghost m2 = self@;
            let ghost gh = self@.ghost_piece;
            proof {
                assert(m2 =~~= with_ghost(mid, gh));
            }
            if self.lines_being_cleared.is_none() {
                self.clear_lines();
            }
            proof {
                assert(ghost_ok(mid, gh));
                assert(clear_lines_rel(m2, self@));
                assert(clear_lines_rel(with_ghost(
                    (GameModel { active: Some(dropped(a, pre.speed)), ..pre }),
                    gh,
                ), self@));
            }
        }
    }

    /// Hard drop: the active piece falls row by row to its landing
    /// position and locks there, with the same spawn, loss, preview and
    /// detection sequence as a blocked gravity step. A no-op once lost.
    pub fn speed_up(&mut self)
        requires
            old(self).wf(),
        ensures
            final(self).wf(),
            speed_up_rel(old(self)@, final(self)@),
    {
        let ghost pre = self@;
        if self.lost {
            return ;
        }
        let cur = match &self.current_tetromino {
            Some(c) => c,
            None => {
                return ;
            },
        };
        let ghost a = cur@;
        let ghost p0 = cur.data.data@[0];
        let mut piece = copy_piece(cur);
        let ghost mut k: int = 0;
        proof {
            lemma_shape_seq_wf(a.kind, a.rotation);
            assert(cur.data.data@.contains(p0));
            assert(a.cells.contains(p0));
            assert(occupies(a, a.anchor_x + p0.0, a.anchor_y + p0.1));
            assert(0 <= a.anchor_y + p0.1 < self.height as int);
        }
        loop
            invariant_except_break
                *self == *old(self),
                self@ == pre,
                old(self).wf(),
                4 <= self.width <= 0x1000_0000,
                4 <= self.height <= 0x1000_0000,
                !pre.lost,
                pre.active == Some(a),
                anchor_ok(a),
                a.cells.contains(p0),
                0 <= a.anchor_y + p0.1 < self.height as int,
                0 <= k <= self.height as int,
                piece@ == dropped(a, k),
                piece.data.position.0 as int == a.anchor_x,
                piece.data.position.1 as int == a.anchor_y + k,
                piece.kind == self.current_tetromino.unwrap().kind,
                piece.rotation == self.current_tetromino.unwrap().rotation,
                piece.data.data@ == self.current_tetromino.unwrap().data.data@,
                forall|j: int| 1 <= j <= k ==> placeable(pre, #[trigger] dropped(a, j)),
            ensures
                self.wf(),
                speed_up_rel(pre, self@),
            decreases self.height as int - k,
        {
            let cand = Tetromino {
                kind: piece.kind,
                data: TetrominoData {
                    position: piece.data.position.plus(Position(0, 1)),
                    data: copy_cells(&piece.data.data),
                },
                rotation: piece.rotation,
            };
            proof {
                assert(cand@ =~~= dropped(a, k + 1));
            }
            if self.is_oob(&cand) || self.is_colliding(&cand) {
                proof {
                    assert(!placeable(pre, dropped(a, k + 1)));
                    assert(ghost_drop_at(pre, a, dropped(a, k), k));
                    assert(piece.wf());
                    lemma_table_anchor_bounds(piece, self.width as int, self.height as int);
                }
                self.current_tetromino = Some(piece);
                proof {
                    assert(self@ =~~= (GameModel { active: Some(dropped(a, k)), ..pre }));
                }
                let ghost s_lock_pre = self@;
                self.lock_and_spawn();
                let ghost m1 = self@;
                self.udpate_ghost();
                let ghost m2 = self@;
                let ghost gh = self@.ghost_piece;
                proof {
                    assert(m2 =~~= with_ghost(m1, gh));
                }
                if self.lines_being_cleared.is_none() {
                    self.clear_lines();
                }
                proof {
                    let kd = choose|kd: Kind| m1 == #[trigger] lock_spawn(s_lock_pre, kd);
                    assert(pre.active.unwrap() == a);
                    assert(s_lock_pre == (GameModel {
                        active: Some(dropped(pre.active.unwrap(), k)),
                        ..pre
                    }));
                    assert(m1 == hard_drop_lock(pre, k, kd));
                    assert(ghost_drop_at(pre, pre.active.unwrap(), dropped(
                        pre.active.unwrap(),
                        k,
                    ), k));
                    assert(ghost_ok(hard_drop_lock(pre, k, kd), gh));
                    assert(clear_lines_rel(with_ghost(hard_drop_lock(pre, k, kd), gh), self@));
                    assert(speed_up_rel(pre, self@));
                }
                break ;
            }
            proof {
                assert(placeable(pre, dropped(a, k + 1)));
                assert(dropped(a, k + 1).cells == a.cells);
                assert(dropped(a, k + 1).cells.contains(p0));
                assert(occupies(
                    dropped(a, k + 1),
                    a.anchor_x + p0.0,
                    a.anchor_y + k + 1 + p0.1,
                ));
                assert(a.anchor_y + k + 1 + p0.1 < self.height as int);
            }
            piece = cand;
            proof {
                k = k + 1;
            }
        }
    }

    /// One timer tick. While paused, nothing happens. While a clearing
    /// animation is pending, the stored rows resolve, highest first:
    /// each row's cells are removed from every locked block, cells
    /// above fall one row, emptied blocks are dropped, and a fresh
    /// detection scan runs, which may start a new animation for a
    /// cascade. Otherwise the tick is one gravity step.
    pub fn tick(&mut self)
        requires
            old(self).wf(),
        ensures
            final(self).wf(),
            tick_rel(old(self)@, final(self)@),
            old(self).paused ==> *final(self) == *old(self),
    {
        let ghost pre = self@;
        if self.paused {
            return ;
        }
        let rows_vec: Vec<usize> = match &self.lines_being_cleared {
            Some(v) => copy_usize_vec(v),
            None => {
                self.move_down();
                return ;
            },
        };
        let ghost orig = *old(self);
        let ghost rows_int = rows_vec@.map_values(|u: usize| u as int);
        proof {
            assert(pre.clearing == Some(rows_int)) by {
                assert(rows_int =~= orig.lines_being_cleared.unwrap()@.map_values(
                    |u: usize| u as int,
                ));
            }
        }
        let mut idx: usize = rows_vec.len();
        proof {
            assert(rows_int.subrange(idx as int, rows_int.len() as int).len() == 0);
            assert(self@.blocks == resolve_rows(
                orig@.blocks,
                rows_int.subrange(idx as int, rows_int.len() as int),
            ));
        }
        while idx > 0
            invariant
                orig.wf(),
                idx <= rows_vec@.len(),
                rows_int == rows_vec@.map_values(|u: usize| u as int),
                forall|k: int| 0 <= k < rows_int.len() ==> 0 <= #[trigger] rows_int[k]
                    < orig.height as int,
                *self == (Tetris { fixed_blocks: self.fixed_blocks, ..orig }),
                self@.blocks == resolve_rows(
                    orig@.blocks,
                    rows_int.subrange(idx as int, rows_int.len() as int),
                ),
                forall|i: int|
                    0 <= i < self.fixed_blocks@.len() ==> {
                        &&& (#[trigger] self.fixed_blocks@[i]).wf()
                        &&& piece_in_bounds(
                            self.fixed_blocks@[i]@,
                            orig.width as int,
                            orig.height as int,
                        )
                        &&& anchor_ok(self.fixed_blocks@[i]@)
                    },
            decreases idx,
        {
            proof {
                assert(rows_vec@[idx - 1] as int == rows_int[idx - 1]);
            }
            let r = rows_vec[idx - 1];
            let ghost snap = *self;
            let ghost cur_blocks = self@.blocks;
            let mut nb: Vec<Tetromino> = Vec::new();
            let mut b: usize = 0;
            while b < self.fixed_blocks.len()
                invariant
                    *self == snap,
                    cur_blocks == self@.blocks,
                    b <= self.fixed_blocks@.len(),
                    r as int == rows_int[idx - 1],
                    0 <= r < snap.height,
                    4 <= snap.width <= 0x1000_0000,
                    4 <= snap.height <= 0x1000_0000,
                    forall|i: int|
                        0 <= i < self.fixed_blocks@.len() ==> {
                            &&& (#[trigger] self.fixed_blocks@[i]).wf()
                            &&& piece_in_bounds(
                                self.fixed_blocks@[i]@,
                                snap.width as int,
                                snap.height as int,
                            )
                            &&& anchor_ok(self.fixed_blocks@[i]@)
                        },
                    nb@.len() == b,
                    forall|i: int|
                        0 <= i < b ==> (#[trigger] nb@[i])@ == piece_fall(
                            piece_remove_row(cur_blocks[i], r as int),
                            r as int,
                        ),
                    forall|i: int|
                        0 <= i < b ==> {
                            &&& (#[trigger] nb@[i]).wf()
                            &&& piece_in_bounds(nb@[i]@, snap.width as int, snap.height as int)
                            &&& anchor_ok(nb@[i]@)
                        },
                    idx <= rows_int.len(),
                    idx >= 1,
                decreases self.fixed_blocks@.len() - b,
            {
                let mut t = copy_piece(&self.fixed_blocks[b]);
                let ghost bm = t@;
                proof {
                    assert(bm == cur_blocks[b as int]);
                }
                t.remove_row(r as i32);
                proof {
                    assert(t@ =~~= piece_remove_row(bm, r as int));
                    assert forall|i: int|
                        0 <= i < t.data.data@.len() implies (#[trigger] t.data.data@[i]).1
                        < i32::MAX by {
                        let p = t.data.data@[i];
                        assert(t.data.data@.contains(p));
                        assert(t@.cells.contains(p));
                        assert(bm.cells.contains(p));
                        assert(occupies(bm, bm.anchor_x + p.0, bm.anchor_y + p.1));
                        assert(0 <= bm.anchor_y + p.1 < snap.height as int);
                    }
                }
                t.fall_down(r as i32);
                proof {
                    assert(t@ =~~= piece_fall(piece_remove_row(bm, r as int), r as int));
                    lemma_clear_block_in_bounds(
                        bm,
                        r as int,
                        snap.width as int,
                        snap.height as int,
                    );
                }
                nb.push(t);
                b = b + 1;
            }
            proof {
                assert(nb@.map_values(|t: Tetromino| t@) =~= resolve_row(cur_blocks, r as int));
            }
            self.fixed_blocks = nb;
            proof {
                assert(self@.blocks =~= resolve_row(cur_blocks, r as int));
                lemma_resolve_rows_first(
                    orig@.blocks,
                    rows_int.subrange(idx - 1, rows_int.len() as int),
                );
                assert(rows_int.subrange(idx - 1, rows_int.len() as int).drop_first()
                    =~= rows_int.subrange(idx as int, rows_int.len() as int));
                assert(rows_int.subrange(idx - 1, rows_int.len() as int).first() == rows_int[idx
                    - 1]);
                assert(self@.blocks == resolve_rows(
                    orig@.blocks,
                    rows_int.subrange(idx - 1, rows_int.len() as int),
                ));
            }
            idx = idx - 1;
        }
        proof {
            assert(rows_int.subrange(0, rows_int.len() as int) =~= rows_int);
            assert(self@.blocks == resolve_rows(orig@.blocks, rows_int));
        }
        let ghost rb = self@.blocks;
        let ghost mid = *self;
        let mut kept: Vec<Tetromino> = Vec::new();
        let mut i: usize = 0;
        while i < self.fixed_blocks.len()
            invariant
                *self == mid,
                rb == self@.blocks,
                i <= self.fixed_blocks@.len(),
                forall|j: int|
                    0 <= j < self.fixed_blocks@.len() ==> {
                        &&& (#[trigger] self.fixed_blocks@[j]).wf()
                        &&& piece_in_bounds(
                            self.fixed_blocks@[j]@,
                            mid.width as int,
                            mid.height as int,
                        )
                        &&& anchor_ok(self.fixed_blocks@[j]@)
                    },
                kept@.map_values(|t: Tetromino| t@) == drop_empty(rb.take(i as int)),
                forall|j: int|
                    0 <= j < kept@.len() ==> {
                        &&& (#[trigger] kept@[j]).wf()
                        &&& piece_in_bounds(kept@[j]@, mid.width as int, mid.height as int)
                        &&& anchor_ok(kept@[j]@)
                    },
            decreases self.fixed_blocks@.len() - i,
        {
            proof {
                assert(rb.take(i + 1 as int).drop_last() =~= rb.take(i as int));
                assert(rb.take(i + 1 as int).last() == rb[i as int]);
            }
            let t = &self.fixed_blocks[i];
            if t.data.data.len() > 0 {
                proof {
                    let p = t.data.data@[0];
                    assert(t.data.data@.contains(p));
                    assert(t@.cells.contains(p));
                    assert(piece_nonempty(rb[i as int]));
                }
                kept.push(copy_piece(t));
                proof {
                    assert(kept@.map_values(|t: Tetromino| t@) =~= drop_empty(
                        rb.take(i + 1 as int),
                    ));
                }
            } else {
                proof {
                    if piece_nonempty(rb[i as int]) {
                        let p = choose|p: Position| rb[i as int].cells.contains(p);
                        assert(t.data.data@.contains(p));
                        let k = choose|k: int|
                            0 <= k < t.data.data@.len() && t.data.data@[k] == p;
                        assert(false);
                    }
                    assert(kept@.map_values(|t: Tetromino| t@) =~= drop_empty(
                        rb.take(i + 1 as int),
                    ));
                }
            }
            i = i + 1;
        }
        proof {
            assert(rb.take(rb.len() as int) =~= rb);
        }
        self.fixed_blocks = kept;
        self.lines_being_cleared = None;
        self.animation_start_time = None;
        proof {
            assert(self@ =~~= resolve_commit(pre, rows_int));
        }
        self.clear_lines();
        proof {
            assert(clear_lines_rel(resolve_commit(pre, rows_int), self@));
            assert(tick_rel(pre, self@));
        }
    }

    /// True when `t` shares a cell with some locked block.
    pub fn is_colliding(&self, t: &Tetromino) -> (r: bool)
        ensures
            r == hits_blocks(self@.blocks, t@),
    {
        let n = self.fixed_blocks.len();
        let mut i: usize = 0;
        while i < n
            invariant
                n == self.fixed_blocks@.len(),
                i <= n,
                forall|k: int| 0 <= k < i ==> !collides(#[trigger] self@.blocks[k], t@),
            decreases n - i,
        {
            if self.fixed_blocks[i].is_colliding(t) {
                proof {
                    assert(self@.blocks[i as int] == self.fixed_blocks@[i as int]@);
                }
                return true;
            }
            i = i + 1;
        }
        false
    }
}

} // verus!
