//! The piece catalog: the seven canonical tetromino kinds and the static
//! table of their rotation states.
//!
//! Every (kind, rotation index) pair maps to a fixed set of exactly four
//! relative cells inside a 4x4 box. Not all kinds have four visually
//! distinct states; the table stores four entries per kind anyway so that
//! rotation is a plain table lookup.

use vstd::prelude::*;
use crate::position::Position;

verus! {

/// One of the seven canonical tetromino kinds.
#[derive(Debug, Clone, Copy, PartialEq, Eq, Structural, Hash)]
pub enum Kind {
    I,
    T,
    O,
    J,
    L,
    S,
    Z,
}

/// The relative cells of `kind` in rotation state `rot`.
///
/// Rotation states 0 to 3 are meaningful; any other argument is read as
/// state 3, so the function is total. Executable code always passes a
/// value reduced modulo 4.
pub open spec fn shape_seq(kind: Kind, rot: int) -> Seq<Position> {
    match kind {
        Kind::I => {
            if rot == 0 {
                seq![Position(1, 0), Position(1, 1), Position(1, 2), Position(1, 3)]
            } else if rot == 1 {
                seq![Position(0, 1), Position(1, 1), Position(2, 1), Position(3, 1)]
            } else if rot == 2 {
                seq![Position(2, 0), Position(2, 1), Position(2, 2), Position(2, 3)]
            } else {
                seq![Position(0, 2), Position(1, 2), Position(2, 2), Position(3, 2)]
            }
        },
        Kind::T => {
            if rot == 0 {
                seq![Position(1, 0), Position(0, 1), Position(1, 1), Position(2, 1)]
            } else if rot == 1 {
                seq![Position(1, 0), Position(1, 1), Position(2, 1), Position(1, 2)]
            } else if rot == 2 {
                seq![Position(0, 1), Position(1, 1), Position(2, 1), Position(1, 2)]
            } else {
                seq![Position(1, 0), Position(0, 1), Position(1, 1), Position(1, 2)]
            }
        },
        Kind::O => {
            seq![Position(1, 0), Position(2, 0), Position(1, 1), Position(2, 1)]
        },
        Kind::J => {
            if rot == 0 {
                seq![Position(1, 0), Position(1, 1), Position(1, 2), Position(0, 2)]
            } else if rot == 1 {
                seq![Position(0, 0), Position(0, 1), Position(1, 1), Position(2, 1)]
            } else if rot == 2 {
                seq![Position(1, 0), Position(2, 0), Position(1, 1), Position(1, 2)]
            } else {
                seq![Position(0, 1), Position(1, 1), Position(2, 1), Position(2, 2)]
            }
        },
        Kind::L => {
            if rot == 0 {
                seq![Position(1, 0), Position(1, 1), Position(1, 2), Position(2, 2)]
            } else if rot == 1 {
                seq![Position(0, 1), Position(1, 1), Position(2, 1), Position(0, 2)]
            } else if rot == 2 {
                seq![Position(0, 0), Position(1, 0), Position(1, 1), Position(1, 2)]
            } else {
                seq![Position(0, 1), Position(1, 1), Position(2, 1), Position(2, 0)]
            }
        },
        Kind::S => {
            if rot == 0 || rot == 2 {
                seq![Position(1, 0), Position(2, 0), Position(1, 1), Position(0, 1)]
            } else {
                seq![Position(1, 0), Position(1, 1), Position(2, 1), Position(2, 2)]
            }
        },
        Kind::Z => {
            if rot == 0 || rot == 2 {
                seq![Position(0, 0), Position(1, 0), Position(1, 1), Position(2, 1)]
            } else {
                seq![Position(1, 0), Position(1, 1), Position(0, 1), Position(0, 2)]
            }
        },
    }
}

/// Every table entry holds exactly four distinct cells inside the 4x4 box.
pub proof fn lemma_shape_seq_wf(kind: Kind, rot: int)
    ensures
        shape_seq(kind, rot).len() == 4,
        shape_seq(kind, rot).no_duplicates(),
        forall|i: int|
            0 <= i < 4 ==> 0 <= #[trigger] shape_seq(kind, rot)[i].0 < 4
                && 0 <= shape_seq(kind, rot)[i].1 < 4,
{
    assert(shape_seq(kind, rot).no_duplicates()) by {
        reveal(Seq::no_duplicates);
    }
}

/// The kind drawn for a given random index, in the catalog's fixed order.
pub open spec fn spec_kind_from_index(index: int) -> Kind {
    if index == 0 {
        Kind::I
    } else if index == 1 {
        Kind::T
    } else if index == 2 {
        Kind::O
    } else if index == 3 {
        Kind::J
    } else if index == 4 {
        Kind::L
    } else if index == 5 {
        Kind::S
    } else {
        Kind::Z
    }
}

/// Maps a random draw in `0..7` to a piece kind.
pub fn kind_from_index(index: u32) -> (k: Kind)
    requires
        index < 7,
    ensures
        k == spec_kind_from_index(index as int),
{
    match index {
        0 => Kind::I,
        1 => Kind::T,
        2 => Kind::O,
        3 => Kind::J,
        4 => Kind::L,
        5 => Kind::S,
        _ => Kind::Z,
    }
}

} // verus!
