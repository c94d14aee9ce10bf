//! Engine-level laws: properties of the game that hold in every state
//! or relate the spec-level step functions, proved once and for all.

use vstd::prelude::*;
use crate::engine::{
    anchor_ok, cell_occupied, cell_occupied_in, clear_commit, clear_lines_rel, drop_empty,
    dropped, fall_commit, full_rows_listed, ghost_drop_at, ghost_ok, hard_drop_lock, hits_blocks,
    lock_spawn, move_down_rel, piece_in_bounds, piece_nonempty, placeable, resolve_commit,
    resolve_row, resolve_rows, rotate_step, row_full, speed_up_rel, tick_rel, translate_step,
    with_ghost, GameModel, Tetris,
};
use crate::position::Position;
use crate::shape::{shape_seq, Kind};
use crate::tetromino::{
    fall_cell, occupies, piece_fall, piece_remove_row, piece_rotated, PieceModel,
};

verus! {

/// Every block of the list lies on the board, with a sane anchor.
pub open spec fn block_set_ok(blocks: Seq<PieceModel>, w: int, h: int) -> bool {
    forall|i: int|
        0 <= i < blocks.len() ==> piece_in_bounds(#[trigger] blocks[i], w, h) && anchor_ok(
            blocks[i],
        )
}

/// The active piece, if any, overlaps no locked block.
pub open spec fn active_clear(g: GameModel) -> bool {
    match g.active {
        Some(a) => !hits_blocks(g.blocks, a),
        None => true,
    }
}

/// In every well-formed engine state, every cell of every locked block
/// lies inside the board: the coordinates sit in
/// `[0, width) x [0, height)`. Every action method of [`Tetris`]
/// ensures well-formedness, so this holds after every call.
pub proof fn lemma_locked_cells_in_bounds(t: Tetris)
    requires
        t.wf(),
    ensures
        forall|i: int, x: int, y: int|
            0 <= i < t@.blocks.len() && #[trigger] occupies(t@.blocks[i], x, y) ==> 0 <= x
                < t@.width && 0 <= y < t@.height,
{
    assert forall|i: int, x: int, y: int|
        0 <= i < t@.blocks.len() && #[trigger] occupies(t@.blocks[i], x, y) implies 0 <= x
        < t@.width && 0 <= y < t@.height by {
        assert(t@.blocks[i] == t.fixed_blocks@[i]@);
        assert(piece_in_bounds(t.fixed_blocks@[i]@, t.width as int, t.height as int));
    }
}

/// A translation attempt never makes the active piece overlap a locked
/// block: it commits only placeable candidates and moves nothing else.
pub proof fn lemma_translate_step_active_clear(g: GameModel, dx: int, dy: int)
    requires
        active_clear(g),
    ensures
        active_clear(translate_step(g, dx, dy)),
{
}

/// A rotation attempt never makes the active piece overlap a locked
/// block: it commits only placeable candidates and moves nothing else.
pub proof fn lemma_rotate_step_active_clear(g: GameModel)
    requires
        active_clear(g),
    ensures
        active_clear(rotate_step(g)),
{
}

/// A committed gravity step leaves the active piece clear of the
/// locked blocks: the step commits only when the fallen piece is
/// placeable.
pub proof fn lemma_fall_commit_active_clear(g: GameModel)
    requires
        g.active is Some,
        placeable(g, dropped(g.active.unwrap(), g.speed)),
    ensures
        active_clear(fall_commit(g)),
{
}

/// After a lock, the freshly spawned piece either sits clear of every
/// locked block or the game is lost: overlap is never silent.
pub proof fn lemma_lock_spawn_active_clear(g: GameModel, k: Kind)
    ensures
        !lock_spawn(g, k).lost ==> active_clear(lock_spawn(g, k)),
{
}

/// Replacing the landing preview touches neither the active piece nor
/// the locked blocks.
pub proof fn lemma_with_ghost_active_clear(g: GameModel, gh: Option<PieceModel>)
    requires
        active_clear(g),
    ensures
        active_clear(with_ghost(g, gh)),
{
}

/// A detection scan never moves a locked cell — the detected rows keep
/// all their cells until the animation resolves — and the score never
/// decreases.
pub proof fn lemma_detection_keeps_blocks(pre: GameModel, post: GameModel)
    requires
        clear_lines_rel(pre, post),
        pre.score <= i32::MAX,
    ensures
        post.blocks == pre.blocks,
        post.score >= pre.score,
        post.active == pre.active,
{
    if !(pre.lost || pre.clearing is Some) && !(forall|y: int|
        0 <= y < pre.height ==> !(#[trigger] row_full(pre, y)))
    {
        let rows = choose|rows: Seq<int>|
            {
                &&& #[trigger] full_rows_listed(pre, rows)
                &&& rows.len() > 0
                &&& post == clear_commit(pre, rows)
            };
    }
}

/// Rotating a piece four times in a row returns it to its original
/// state: the rotation index cycles modulo 4 and the cells come back
/// to the same catalog entry.
pub proof fn lemma_rotation_cycle(m: PieceModel)
    requires
        0 <= m.rotation < 4,
        m.cells == shape_seq(m.kind, m.rotation).to_set(),
    ensures
        piece_rotated(piece_rotated(piece_rotated(piece_rotated(m)))) == m,
{
    let m4 = piece_rotated(piece_rotated(piece_rotated(piece_rotated(m))));
    assert(m4.rotation == m.rotation);
    assert(m4 =~~= m);
}

/// Dropping emptied blocks changes no occupancy: a block with no cells
/// covers nothing.
pub proof fn lemma_drop_empty_occupancy(blocks: Seq<PieceModel>)
    ensures
        forall|x: int, y: int|
            #[trigger] cell_occupied_in(drop_empty(blocks), x, y) <==> cell_occupied_in(
                blocks,
                x,
                y,
            ),
    decreases blocks.len(),
{
    if blocks.len() == 0 {
    } else {
        lemma_drop_empty_occupancy(blocks.drop_last());
        let rest = drop_empty(blocks.drop_last());
        assert forall|x: int, y: int|
            #[trigger] cell_occupied_in(drop_empty(blocks), x, y) implies cell_occupied_in(
            blocks,
            x,
            y,
        ) by {
            let i = choose|i: int|
                0 <= i < drop_empty(blocks).len() && occupies(
                    #[trigger] drop_empty(blocks)[i],
                    x,
                    y,
                );
            if piece_nonempty(blocks.last()) {
                if i < rest.len() {
                    assert(drop_empty(blocks)[i] == rest[i]);
                    assert(occupies(rest[i], x, y));
                    assert(cell_occupied_in(rest, x, y));
                    assert(cell_occupied_in(blocks.drop_last(), x, y));
                    let j = choose|j: int|
                        0 <= j < blocks.drop_last().len() && occupies(
                            #[trigger] blocks.drop_last()[j],
                            x,
                            y,
                        );
                    assert(occupies(blocks[j], x, y));
                } else {
                    assert(drop_empty(blocks)[i] == blocks.last());
                    assert(occupies(blocks[blocks.len() - 1], x, y));
                }
            } else {
                assert(drop_empty(blocks) == rest);
                assert(occupies(rest[i], x, y));
                assert(cell_occupied_in(rest, x, y));
                assert(cell_occupied_in(blocks.drop_last(), x, y));
                let j = choose|j: int|
                    0 <= j < blocks.drop_last().len() && occupies(
                        #[trigger] blocks.drop_last()[j],
                        x,
                        y,
                    );
                assert(blocks.drop_last()[j] == blocks[j]);
                assert(occupies(blocks[j], x, y));
            }
        }
        assert forall|x: int, y: int|
            cell_occupied_in(blocks, x, y) implies #[trigger] cell_occupied_in(
            drop_empty(blocks),
            x,
            y,
        ) by {
            let i = choose|i: int| 0 <= i < blocks.len() && occupies(#[trigger] blocks[i], x, y);
            if i < blocks.len() - 1 {
                assert(blocks.drop_last()[i] == blocks[i]);
                assert(occupies(blocks.drop_last()[i], x, y));
                assert(cell_occupied_in(blocks.drop_last(), x, y));
                assert(cell_occupied_in(rest, x, y));
                let j = choose|j: int| 0 <= j < rest.len() && occupies(#[trigger] rest[j], x, y);
                if piece_nonempty(blocks.last()) {
                    assert(drop_empty(blocks)[j] == rest[j]);
                } else {
                    assert(drop_empty(blocks) == rest);
                }
                assert(occupies(drop_empty(blocks)[j], x, y));
            } else {
                assert(occupies(blocks.last(), x, y));
                assert(piece_nonempty(blocks.last()));
                assert(drop_empty(blocks)[drop_empty(blocks).len() - 1] == blocks.last());
            }
        }
    }
}

/// Resolving one cleared row `r` transforms the board occupancy
/// exactly: every cell of row `r` is removed, every cell strictly
/// above `r` moves down one row, and every cell below `r` stays.
pub proof fn lemma_resolve_row_occupancy(blocks: Seq<PieceModel>, r: int, w: int, h: int)
    requires
        block_set_ok(blocks, w, h),
        0 <= r < h,
        h <= 0x1000_0000,
    ensures
        forall|x: int, y: int|
            #[trigger] cell_occupied_in(resolve_row(blocks, r), x, y) <==> ((y <= r
                && cell_occupied_in(blocks, x, y - 1)) || (y > r && cell_occupied_in(
                blocks,
                x,
                y,
            ))),
{
    assert forall|x: int, y: int|
        #[trigger] cell_occupied_in(resolve_row(blocks, r), x, y) implies ((y <= r
        && cell_occupied_in(blocks, x, y - 1)) || (y > r && cell_occupied_in(blocks, x, y))) by {
        let i = choose|i: int|
            0 <= i < resolve_row(blocks, r).len() && occupies(
                #[trigger] resolve_row(blocks, r)[i],
                x,
                y,
            );
        let m = blocks[i];
        let m2 = piece_fall(piece_remove_row(m, r), r);
        assert(resolve_row(blocks, r)[i] == m2);
        let p = choose|p: Position|
            #[trigger] m2.cells.contains(p) && x == m2.anchor_x + p.0 && y == m2.anchor_y + p.1;
        let q = choose|q: Position|
            #[trigger] piece_remove_row(m, r).cells.contains(q) && p == fall_cell(
                q,
                m.anchor_y,
                r,
            );
        assert(m.cells.contains(q));
        assert(occupies(m, m.anchor_x + q.0, m.anchor_y + q.1));
        assert(piece_in_bounds(m, w, h));
        assert(0 <= m.anchor_y + q.1 < h);
        assert(q.1 < i32::MAX);
        if m.anchor_y + q.1 < r {
            assert(p.1 == q.1 + 1);
            assert(y == m.anchor_y + q.1 + 1);
            assert(y <= r);
            assert(occupies(m, x, y - 1));
        } else {
            assert(p == q);
            assert(y == m.anchor_y + q.1);
            assert(y > r);
            assert(occupies(m, x, y));
        }
    }
    assert forall|x: int, y: int|
        ((y <= r && cell_occupied_in(blocks, x, y - 1)) || (y > r && cell_occupied_in(
            blocks,
            x,
            y,
        ))) implies #[trigger] cell_occupied_in(resolve_row(blocks, r), x, y) by {
        if y <= r && cell_occupied_in(blocks, x, y - 1) {
            let i = choose|i: int|
                0 <= i < blocks.len() && occupies(#[trigger] blocks[i], x, y - 1);
            let m = blocks[i];
            let q = choose|q: Position|
                #[trigger] m.cells.contains(q) && x == m.anchor_x + q.0 && y - 1 == m.anchor_y
                    + q.1;
            assert(0 <= m.anchor_y + q.1 < h);
            assert(q.1 < i32::MAX);
            assert(m.anchor_y + q.1 != r);
            assert(piece_remove_row(m, r).cells.contains(q));
            let p = fall_cell(q, m.anchor_y, r);
            assert(piece_fall(piece_remove_row(m, r), r).cells.contains(p));
            assert(p.1 == q.1 + 1);
            assert(occupies(resolve_row(blocks, r)[i], x, y));
        }
        if y > r && cell_occupied_in(blocks, x, y) {
            let i = choose|i: int| 0 <= i < blocks.len() && occupies(#[trigger] blocks[i], x, y);
            let m = blocks[i];
            let q = choose|q: Position|
                #[trigger] m.cells.contains(q) && x == m.anchor_x + q.0 && y == m.anchor_y + q.1;
            assert(m.anchor_y + q.1 != r);
            assert(piece_remove_row(m, r).cells.contains(q));
            let p = fall_cell(q, m.anchor_y, r);
            assert(p == q);
            assert(piece_fall(piece_remove_row(m, r), r).cells.contains(p));
            assert(occupies(resolve_row(blocks, r)[i], x, y));
        }
    }
}

/// After an animation holding exactly one cleared row `r` resolves,
/// the board occupancy is transformed exactly: the cells of row `r`
/// are gone, every locked cell strictly above `r` has moved down by
/// one row, every cell below `r` is unchanged, and the top row ends
/// empty. (With several pending rows the stored rows are processed
/// highest first, each step shifting the rows above it, so this exact
/// per-row description applies to the single-row episode.)
pub proof fn lemma_single_row_resolution(g: GameModel, r: int)
    requires
        block_set_ok(g.blocks, g.width, g.height),
        0 <= r < g.height,
        g.height <= 0x1000_0000,
    ensures
        forall|x: int, y: int|
            #[trigger] cell_occupied(resolve_commit(g, seq![r]), x, y) <==> ((y <= r
                && cell_occupied(g, x, y - 1)) || (y > r && cell_occupied(g, x, y))),
        forall|x: int| !(#[trigger] cell_occupied(resolve_commit(g, seq![r]), x, 0)),
{
    let rows: Seq<int> = seq![r];
    assert(rows[0] == r);
    assert(rows.last() == r);
    assert(rows.drop_last() =~= Seq::<int>::empty());
    assert(resolve_rows(g.blocks, rows) == resolve_rows(
        resolve_row(g.blocks, r),
        rows.drop_last(),
    ));
    assert(resolve_rows(g.blocks, rows) == resolve_row(g.blocks, r));
    lemma_resolve_row_occupancy(g.blocks, r, g.width, g.height);
    lemma_drop_empty_occupancy(resolve_row(g.blocks, r));
    assert forall|x: int, y: int|
        #[trigger] cell_occupied(resolve_commit(g, rows), x, y) <==> ((y <= r && cell_occupied(
            g,
            x,
            y - 1,
        )) || (y > r && cell_occupied(g, x, y))) by {
        assert(cell_occupied(resolve_commit(g, rows), x, y) == cell_occupied_in(
            drop_empty(resolve_row(g.blocks, r)),
            x,
            y,
        ));
    }
    assert forall|x: int| !(#[trigger] cell_occupied(resolve_commit(g, rows), x, 0)) by {
        if cell_occupied(resolve_commit(g, rows), x, 0) {
            assert(cell_occupied(g, x, -1));
            let i = choose|i: int|
                0 <= i < g.blocks.len() && occupies(#[trigger] g.blocks[i], x, -1);
            assert(piece_in_bounds(g.blocks[i], g.width, g.height));
            assert(false);
        }
    }
}


/// The score never decreases across a gravity step: falling, locking,
/// spawning and the detection scan only leave it or raise it.
pub proof fn lemma_gravity_never_decreases_score(pre: GameModel, post: GameModel)
    requires
        move_down_rel(pre, post),
        pre.score <= i32::MAX,
    ensures
        post.score >= pre.score,
{
    if pre.lost || pre.active is None {
    } else if placeable(pre, dropped(pre.active.unwrap(), pre.speed)) {
        let gh = choose|gh: Option<PieceModel>|
            {
                &&& #[trigger] ghost_ok(fall_commit(pre), gh)
                &&& clear_lines_rel(with_ghost(fall_commit(pre), gh), post)
            };
        lemma_detection_keeps_blocks(with_ghost(fall_commit(pre), gh), post);
    } else {
        let kd = choose|kd: Kind| clear_lines_rel(#[trigger] lock_spawn(pre, kd), post);
        lemma_detection_keeps_blocks(lock_spawn(pre, kd), post);
    }
}

/// The score never decreases across a hard drop.
pub proof fn lemma_hard_drop_never_decreases_score(pre: GameModel, post: GameModel)
    requires
        speed_up_rel(pre, post),
        pre.score <= i32::MAX,
    ensures
        post.score >= pre.score,
{
    if pre.lost || pre.active is None {
    } else {
        let (k, kd, gh) = choose|k: int, kd: Kind, gh: Option<PieceModel>|
            {
                &&& ghost_drop_at(pre, pre.active.unwrap(), dropped(pre.active.unwrap(), k), k)
                &&& #[trigger] ghost_ok(hard_drop_lock(pre, k, kd), gh)
                &&& clear_lines_rel(with_ghost(hard_drop_lock(pre, k, kd), gh), post)
            };
        lemma_detection_keeps_blocks(with_ghost(hard_drop_lock(pre, k, kd), gh), post);
    }
}

/// The score never decreases across a timer tick: pausing, resolving a
/// pending animation and the follow-up scan only leave it or raise it.
pub proof fn lemma_tick_never_decreases_score(pre: GameModel, post: GameModel)
    requires
        tick_rel(pre, post),
        pre.score <= i32::MAX,
    ensures
        post.score >= pre.score,
{
    if pre.paused {
    } else {
        match pre.clearing {
            Some(rows) => {
                lemma_detection_keeps_blocks(resolve_commit(pre, rows), post);
            },
            None => {
                lemma_gravity_never_decreases_score(pre, post);
            },
        }
    }
}

} // verus!
