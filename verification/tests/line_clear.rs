use std::collections::HashSet;
use tetris_core::engine::Tetris;
use tetris_core::position::Position;
use tetris_core::shape::Kind;
use tetris_core::tetromino::{Tetromino, TetrominoData};

fn count_blocks_at_line(tetris: &Tetris, line_y: i32) -> usize {
    tetris
        .fixed_blocks
        .iter()
        .flat_map(|t| t.collect_positions())
        .filter(|p| p.1 == line_y)
        .count()
}

fn get_block_positions(tetris: &Tetris) -> HashSet<Position> {
    tetris
        .fixed_blocks
        .iter()
        .flat_map(|t| t.collect_positions())
        .collect()
}

fn single_cell(kind: Kind, pos: Position) -> Tetromino {
    Tetromino {
        kind,
        data: TetrominoData {
            position: pos,
            data: [Position(0, 0)].into(),
        },
        rotation: 0,
    }
}

#[test]
fn test_line_clearing_animation() {
    let width = 10;
    let height = 5;
    let mut tetris = Tetris::new(width, height);
    tetris.current_tetromino = None;
    tetris.fixed_blocks.clear();
    tetris.score = 0;

    let shifting_block_orig_pos = Position(0, height as i32 - 2);
    tetris
        .fixed_blocks
        .push(single_cell(Kind::S, shifting_block_orig_pos));

    let line_to_clear_y = height as i32 - 1;
    for i in 0..width {
        tetris
            .fixed_blocks
            .push(single_cell(Kind::I, Position(i as i32, line_to_clear_y)));
    }

    assert_eq!(tetris.fixed_blocks.len(), width as usize + 1);
    assert!(get_block_positions(&tetris).contains(&shifting_block_orig_pos));
    assert_eq!(count_blocks_at_line(&tetris, line_to_clear_y), width as usize);

    tetris.clear_lines();

    assert_eq!(
        tetris.lines_being_cleared,
        Some(vec![line_to_clear_y as usize])
    );
    assert!(tetris.animation_start_time.is_some());
    assert_eq!(tetris.score, 1);
    assert_eq!(tetris.fixed_blocks.len(), width as usize + 1);
    assert!(get_block_positions(&tetris).contains(&shifting_block_orig_pos));
    assert_eq!(count_blocks_at_line(&tetris, line_to_clear_y), width as usize);

    tetris.tick();

    assert_eq!(tetris.lines_being_cleared, None);
    assert!(tetris.animation_start_time.is_none());
    // The ten cells that filled the cleared row are gone; the block
    // from the row above has fallen into it.
    assert_eq!(count_blocks_at_line(&tetris, line_to_clear_y), 1);

    let shifted_block_new_pos = Position(shifting_block_orig_pos.0, shifting_block_orig_pos.1 + 1);
    let current_positions = get_block_positions(&tetris);
    assert!(
        current_positions.contains(&shifted_block_new_pos),
        "Shifting block should have moved down to {:?}, current positions: {:?}",
        shifted_block_new_pos,
        current_positions
    );
    assert!(!current_positions.contains(&shifting_block_orig_pos));
    assert_eq!(tetris.fixed_blocks.len(), 1);
    assert_eq!(tetris.fixed_blocks[0].kind, Kind::S);

    let old_score = tetris.score;
    tetris.clear_lines();
    assert_eq!(tetris.lines_being_cleared, None);
    assert_eq!(tetris.score, old_score);
}

#[test]
fn single_line_clear_scenario() {
    // 10-wide, 5-tall board; one single-cell block at (0, 3); row 4
    // filled completely with ten single-cell blocks.
    let mut tetris = Tetris::new(10, 5);
    tetris.current_tetromino = None;
    tetris.fixed_blocks.clear();
    tetris.score = 0;

    tetris.fixed_blocks.push(single_cell(Kind::S, Position(0, 3)));
    for i in 0..10 {
        tetris
            .fixed_blocks
            .push(single_cell(Kind::I, Position(i, 4)));
    }

    // Detection: score becomes 1, the animation holds row 4, and no
    // cell has been removed yet.
    tetris.clear_lines();
    assert_eq!(tetris.score, 1);
    assert_eq!(tetris.lines_being_cleared, Some(vec![4]));
    assert!(tetris.animation_start_time.is_some());
    assert_eq!(count_blocks_at_line(&tetris, 4), 10);
    assert!(get_block_positions(&tetris).contains(&Position(0, 3)));

    // Resolution: the filled row's cells vanish, the block at (0, 3)
    // falls to (0, 4), exactly one locked block remains, the animation
    // state clears, and the re-scan finds no new full row.
    tetris.tick();
    assert_eq!(tetris.lines_being_cleared, None);
    assert!(tetris.animation_start_time.is_none());
    assert_eq!(tetris.fixed_blocks.len(), 1);
    let positions = get_block_positions(&tetris);
    assert!(positions.contains(&Position(0, 4)));
    assert!(!positions.contains(&Position(0, 3)));
    assert_eq!(tetris.score, 1);
}

#[test]
fn detection_scores_each_full_row_once() {
    // Two separated full rows are detected in one scan: the score
    // grows by exactly 2 and the locked cells stay untouched until the
    // animation resolves.
    let mut tetris = Tetris::new(10, 5);
    tetris.current_tetromino = None;
    tetris.fixed_blocks.clear();
    tetris.score = 0;

    for i in 0..10 {
        tetris
            .fixed_blocks
            .push(single_cell(Kind::J, Position(i, 2)));
        tetris
            .fixed_blocks
            .push(single_cell(Kind::L, Position(i, 4)));
    }
    let before = get_block_positions(&tetris);

    tetris.clear_lines();
    assert_eq!(tetris.score, 2);
    assert_eq!(tetris.lines_being_cleared, Some(vec![2, 4]));
    assert_eq!(get_block_positions(&tetris), before);

    // A second scan while the animation is pending is ignored.
    tetris.clear_lines();
    assert_eq!(tetris.score, 2);
    assert_eq!(tetris.lines_being_cleared, Some(vec![2, 4]));
}

#[test]
fn score_saturates_at_the_integer_limit() {
    let mut tetris = Tetris::new(10, 5);
    tetris.current_tetromino = None;
    tetris.fixed_blocks.clear();
    tetris.score = i32::MAX;
    for i in 0..10 {
        tetris
            .fixed_blocks
            .push(single_cell(Kind::I, Position(i, 4)));
    }
    tetris.clear_lines();
    assert_eq!(tetris.score, i32::MAX);
    assert_eq!(tetris.lines_being_cleared, Some(vec![4]));
}
