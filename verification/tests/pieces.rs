use std::collections::HashSet;
use tetris_core::position::Position;
use tetris_core::shape::{kind_from_index, Kind};
use tetris_core::tetromino::{Tetromino, TetrominoData};

const KINDS: [Kind; 7] = [
    Kind::I,
    Kind::T,
    Kind::O,
    Kind::J,
    Kind::L,
    Kind::S,
    Kind::Z,
];

fn cell_set(v: &[Position]) -> HashSet<Position> {
    v.iter().copied().collect()
}

#[test]
fn shape_table_has_four_distinct_cells_in_the_box() {
    for &kind in KINDS.iter() {
        for rotation in 0..4 {
            let cells = Tetromino::get_rotation_data(kind, rotation);
            assert_eq!(cells.len(), 4);
            assert_eq!(cell_set(&cells).len(), 4);
            for p in cells.iter() {
                assert!(0 <= p.0 && p.0 < 4);
                assert!(0 <= p.1 && p.1 < 4);
            }
        }
    }
}

#[test]
fn shape_table_exact_entries() {
    let i0 = Tetromino::get_rotation_data(Kind::I, 0);
    assert_eq!(
        cell_set(&i0),
        cell_set(&[Position(1, 0), Position(1, 1), Position(1, 2), Position(1, 3)])
    );
    let o3 = Tetromino::get_rotation_data(Kind::O, 3);
    assert_eq!(
        cell_set(&o3),
        cell_set(&[Position(1, 0), Position(2, 0), Position(1, 1), Position(2, 1)])
    );
    let s0 = Tetromino::get_rotation_data(Kind::S, 0);
    assert_eq!(
        cell_set(&s0),
        cell_set(&[Position(1, 0), Position(2, 0), Position(1, 1), Position(0, 1)])
    );
}

#[test]
fn rotation_index_is_taken_modulo_four() {
    for &kind in KINDS.iter() {
        for rotation in 0..4 {
            let a = Tetromino::get_rotation_data(kind, rotation);
            let b = Tetromino::get_rotation_data(kind, rotation + 4);
            assert_eq!(a, b);
        }
    }
}

#[test]
fn rotating_four_times_restores_the_cells() {
    for &kind in KINDS.iter() {
        let t = Tetromino::from_kind(kind, Position(3, 3));
        let r4 = t.rotated().rotated().rotated().rotated();
        assert_eq!(r4.rotation, t.rotation);
        assert_eq!(cell_set(&r4.data.data), cell_set(&t.data.data));
        assert_eq!(r4.data.position, t.data.position);
        assert_eq!(r4.kind, t.kind);
    }
}

#[test]
fn rotated_advances_the_rotation_index() {
    let t = Tetromino::from_kind(Kind::T, Position(0, 0));
    let r = t.rotated();
    assert_eq!(r.rotation, 1);
    assert_eq!(
        cell_set(&r.data.data),
        cell_set(&Tetromino::get_rotation_data(Kind::T, 1))
    );
    assert_eq!(r.rotated().rotated().rotated().rotation, 0);
}

#[test]
fn new_random_spawns_a_catalog_piece_at_the_anchor() {
    for _ in 0..50 {
        let t = Tetromino::new_random(Position(3, 0));
        assert_eq!(t.data.position, Position(3, 0));
        assert_eq!(t.rotation, 0);
        assert!(KINDS.contains(&t.kind));
        assert_eq!(
            cell_set(&t.data.data),
            cell_set(&Tetromino::get_rotation_data(t.kind, 0))
        );
    }
}

#[test]
fn kind_from_index_covers_the_catalog() {
    let drawn: Vec<Kind> = (0..7).map(kind_from_index).collect();
    assert_eq!(drawn, KINDS.to_vec());
}

#[test]
fn collect_positions_offsets_by_the_anchor() {
    let t = Tetromino::from_kind(Kind::T, Position(5, 5));
    let abs = cell_set(&t.collect_positions());
    assert_eq!(
        abs,
        cell_set(&[Position(6, 5), Position(5, 6), Position(6, 6), Position(7, 6)])
    );
}

#[test]
fn remove_at_removes_only_the_matching_cell() {
    let mut t = Tetromino::from_kind(Kind::T, Position(5, 5));
    t.remove_at(Position(6, 5));
    assert_eq!(
        cell_set(&t.collect_positions()),
        cell_set(&[Position(5, 6), Position(6, 6), Position(7, 6)])
    );
    // Removing a position the piece does not occupy is a no-op.
    t.remove_at(Position(0, 0));
    assert_eq!(t.data.data.len(), 3);
    assert_eq!(t.data.position, Position(5, 5));
}

#[test]
fn fall_down_shifts_cells_above_the_cleared_row() {
    let mut t = Tetromino {
        kind: Kind::I,
        data: TetrominoData {
            position: Position(2, 2),
            data: vec![Position(0, 0), Position(0, 1)],
        },
        rotation: 0,
    };
    // Absolute cells (2, 2) and (2, 3); both lie above row 4.
    t.fall_down(4);
    assert_eq!(
        cell_set(&t.collect_positions()),
        cell_set(&[Position(2, 3), Position(2, 4)])
    );
}

#[test]
fn fall_down_merges_cells_that_coincide() {
    let mut t = Tetromino {
        kind: Kind::I,
        data: TetrominoData {
            position: Position(2, 2),
            data: vec![Position(0, 0), Position(0, 1)],
        },
        rotation: 0,
    };
    // Only the cell at row 2 lies above row 3; it falls onto the cell
    // at row 3, and the cells merge as a set.
    t.fall_down(3);
    assert_eq!(t.data.data.len(), 1);
    assert_eq!(cell_set(&t.collect_positions()), cell_set(&[Position(2, 3)]));
}

#[test]
fn pieces_collide_exactly_when_they_share_a_cell() {
    let a = Tetromino::from_kind(Kind::O, Position(0, 0));
    let b = Tetromino::from_kind(Kind::O, Position(1, 0));
    let c = Tetromino::from_kind(Kind::O, Position(2, 0));
    assert!(a.is_colliding(&b));
    assert!(b.is_colliding(&a));
    assert!(!a.is_colliding(&c));
    let far = Tetromino::from_kind(Kind::I, Position(100, 100));
    assert!(!a.is_colliding(&far));
}
