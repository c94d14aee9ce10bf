use tetris_core::engine::Tetris;
use tetris_core::position::Position;
use tetris_core::render::Cell;
use tetris_core::shape::Kind;
use tetris_core::tetromino::{Tetromino, TetrominoData};

fn single_cell(kind: Kind, pos: Position) -> Tetromino {
    Tetromino {
        kind,
        data: TetrominoData {
            position: pos,
            data: [Position(0, 0)].into(),
        },
        rotation: 0,
    }
}

fn active_pos(t: &Tetris) -> Position {
    t.current_tetromino.as_ref().unwrap().data.position
}

#[test]
fn new_game_defaults() {
    let t = Tetris::new(10, 25);
    assert_eq!(t.width, 10);
    assert_eq!(t.height, 25);
    assert_eq!(t.get_score(), 0);
    assert!(!t.lost);
    assert!(!t.is_paused());
    assert!(t.fixed_blocks.is_empty());
    assert!(t.lines_being_cleared.is_none());
    assert!(t.animation_start_time.is_none());
    assert!(t.ghost_tetromino.is_none());
    let active = t.current_tetromino.as_ref().unwrap();
    assert_eq!(active.data.position, Position(3, 0));
    assert_eq!(active.rotation, 0);
}

#[test]
fn moves_stop_at_the_walls() {
    let mut t = Tetris::new(10, 5);
    t.fixed_blocks.clear();
    t.current_tetromino = Some(Tetromino::from_kind(Kind::O, Position(0, 0)));

    // O occupies columns 1 and 2 of its box: one step left is legal.
    t.move_left();
    assert_eq!(active_pos(&t), Position(-1, 0));
    // Another step would leave the board: the move is rejected.
    t.move_left();
    assert_eq!(active_pos(&t), Position(-1, 0));

    for _ in 0..20 {
        t.move_right();
    }
    // Columns 1 and 2 of the box may reach columns 8 and 9.
    assert_eq!(active_pos(&t), Position(7, 0));
}

#[test]
fn illegal_rotation_is_rejected() {
    let mut t = Tetris::new(10, 5);
    t.fixed_blocks.clear();
    // The I piece in rotation state 0 occupies only column 1 of its
    // box, so it may hug the left wall with a negative anchor; its
    // next rotation state needs all four columns and must be refused.
    t.current_tetromino = Some(Tetromino::from_kind(Kind::I, Position(-1, 0)));
    t.rotate();
    let active = t.current_tetromino.as_ref().unwrap();
    assert_eq!(active.rotation, 0);
    assert_eq!(active.data.position, Position(-1, 0));
}

#[test]
fn legal_rotation_commits_and_updates_the_preview() {
    let mut t = Tetris::new(10, 25);
    t.fixed_blocks.clear();
    t.current_tetromino = Some(Tetromino::from_kind(Kind::T, Position(3, 0)));
    t.rotate();
    let active = t.current_tetromino.as_ref().unwrap();
    assert_eq!(active.rotation, 1);
    assert!(t.ghost_tetromino.is_some());
}

#[test]
fn ghost_projects_the_piece_to_its_landing_row() {
    let mut t = Tetris::new(10, 5);
    t.fixed_blocks.clear();
    t.current_tetromino = Some(Tetromino::from_kind(Kind::O, Position(0, 0)));
    t.udpate_ghost();
    let ghost = t.ghost_tetromino.as_ref().unwrap();
    // O occupies rows 0 and 1 of its box: it can fall three rows.
    assert_eq!(ghost.data.position, Position(0, 3));
    assert_eq!(ghost.kind, Kind::O);

    t.current_tetromino = None;
    t.udpate_ghost();
    assert!(t.ghost_tetromino.is_none());
}

#[test]
fn ghost_rests_on_locked_blocks() {
    let mut t = Tetris::new(10, 5);
    t.fixed_blocks.clear();
    t.fixed_blocks.push(single_cell(Kind::I, Position(1, 4)));
    t.current_tetromino = Some(Tetromino::from_kind(Kind::O, Position(0, 0)));
    t.udpate_ghost();
    // One more row down would overlap the block at (1, 4).
    assert_eq!(t.ghost_tetromino.as_ref().unwrap().data.position, Position(0, 2));
}

#[test]
fn hard_drop_locks_at_the_landing_row_and_spawns() {
    let mut t = Tetris::new(10, 5);
    t.fixed_blocks.clear();
    t.current_tetromino = Some(Tetromino::from_kind(Kind::O, Position(0, 0)));
    t.speed_up();
    assert_eq!(t.fixed_blocks.len(), 1);
    let locked = &t.fixed_blocks[0];
    assert_eq!(locked.kind, Kind::O);
    assert_eq!(locked.data.position, Position(0, 3));
    // A fresh piece is active at the spawn anchor.
    assert_eq!(active_pos(&t), Position(3, 0));
    assert_eq!(t.current_tetromino.as_ref().unwrap().rotation, 0);
    assert!(!t.lost);
    assert_eq!(t.get_score(), 0);
}

#[test]
fn blocked_gravity_step_locks_and_spawns() {
    let mut t = Tetris::new(10, 5);
    t.fixed_blocks.clear();
    t.current_tetromino = Some(Tetromino::from_kind(Kind::O, Position(0, 3)));
    t.move_down();
    assert_eq!(t.fixed_blocks.len(), 1);
    assert_eq!(t.fixed_blocks[0].data.position, Position(0, 3));
    assert_eq!(active_pos(&t), Position(3, 0));
    assert!(!t.lost);
}

#[test]
fn gravity_step_commits_when_legal() {
    let mut t = Tetris::new(10, 5);
    t.fixed_blocks.clear();
    t.current_tetromino = Some(Tetromino::from_kind(Kind::O, Position(0, 0)));
    t.move_down();
    assert_eq!(active_pos(&t), Position(0, 1));
    assert!(t.ghost_tetromino.is_some());
    assert!(t.fixed_blocks.is_empty());
}

#[test]
fn colliding_spawn_sets_the_terminal_flag() {
    // Spawning a new piece into existing locked cells loses the game,
    // and every further action leaves board and score unchanged.
    let mut t = Tetris::new(10, 5);
    t.fixed_blocks.clear();
    t.score = 0;
    for y in 0..4 {
        for x in 0..10 {
            t.fixed_blocks.push(single_cell(Kind::J, Position(x, y)));
        }
    }
    t.current_tetromino = Some(single_cell(Kind::S, Position(0, 4)));

    // The piece at the floor cannot fall: it locks and the spawned
    // piece lands inside the filled rows.
    t.tick();
    assert!(t.lost);

    let board = t.render();
    let score = t.get_score();
    t.move_left();
    t.move_right();
    t.rotate();
    t.speed_up();
    t.tick();
    assert!(t.lost);
    assert_eq!(t.render(), board);
    assert_eq!(t.get_score(), score);
}

#[test]
fn pause_freezes_ticks_and_resume_restores_them() {
    let mut t = Tetris::new(10, 25);
    t.pause();
    assert!(t.is_paused());

    let score = t.get_score();
    let pos = active_pos(&t);
    let board = t.render();
    for _ in 0..5 {
        t.tick();
        assert_eq!(t.get_score(), score);
        assert_eq!(active_pos(&t), pos);
        assert_eq!(t.render(), board);
    }

    t.resume();
    assert!(!t.is_paused());
    t.tick();
    assert_eq!(active_pos(&t), Position(pos.0, pos.1 + 1));
}

#[test]
fn render_view_reports_cells_with_precedence() {
    let mut t = Tetris::new(10, 5);
    t.fixed_blocks.clear();
    t.fixed_blocks.push(single_cell(Kind::I, Position(1, 4)));
    t.current_tetromino = Some(Tetromino::from_kind(Kind::O, Position(0, 0)));
    t.udpate_ghost();

    let view = t.render_view();
    assert_eq!(view.len(), 5);
    assert!(view.iter().all(|row| row.len() == 10));
    // Active piece cells.
    assert_eq!(view[0][1], Cell::Piece(Kind::O));
    assert_eq!(view[1][2], Cell::Piece(Kind::O));
    // The locked block shows its own kind, not the preview.
    assert_eq!(view[4][1], Cell::Piece(Kind::I));
    // The preview shows only over empty background.
    assert_eq!(view[2][1], Cell::Shadow);
    assert_eq!(view[3][2], Cell::Shadow);
    // Plain background elsewhere.
    assert_eq!(view[0][0], Cell::Background);
    assert_eq!(view[4][9], Cell::Background);
}

#[test]
fn render_draws_one_glyph_per_cell() {
    let mut t = Tetris::new(4, 4);
    t.current_tetromino = None;
    t.ghost_tetromino = None;
    t.fixed_blocks.clear();
    t.fixed_blocks.push(single_cell(Kind::Z, Position(0, 3)));
    assert_eq!(t.render(), "BBBB\nBBBB\nBBBB\nZBBB");
}

#[test]
fn bounds_and_collision_queries() {
    let mut t = Tetris::new(10, 5);
    t.fixed_blocks.clear();
    t.fixed_blocks.push(single_cell(Kind::I, Position(5, 4)));

    let inside = Tetromino::from_kind(Kind::O, Position(0, 0));
    assert!(!t.is_oob(&inside));
    let outside = Tetromino::from_kind(Kind::O, Position(-2, 0));
    assert!(t.is_oob(&outside));
    let below = Tetromino::from_kind(Kind::O, Position(0, 4));
    assert!(t.is_oob(&below));

    let hits = single_cell(Kind::O, Position(5, 4));
    assert!(t.is_colliding(&hits));
    let misses = single_cell(Kind::O, Position(4, 4));
    assert!(!t.is_colliding(&misses));
}

#[test]
fn spawn_anchor_is_centered() {
    let t = Tetris::new(9, 5);
    assert_eq!(active_pos(&t), Position(2, 0));
    let u = Tetris::new(4, 4);
    assert_eq!(active_pos(&u), Position(0, 0));
}
