use blockfall::board::Square;
use blockfall::geom::Vector2D;
use blockfall::piece::{piece_from_kind, Color, Piece};
use blockfall::state::{Inner, Key};
use blockfall::{NUM_COLS, NUM_ROWS};

fn line_piece_at(x: i32, y: i32) -> Piece {
    Piece {
        top_left: Vector2D { x, y },
        size: 4,
        squares: vec![
            Vector2D { x: 0, y: 1 },
            Vector2D { x: 1, y: 1 },
            Vector2D { x: 2, y: 1 },
            Vector2D { x: 3, y: 1 },
        ],
        color: Color::Blue,
    }
}

fn square_piece_at(x: i32, y: i32) -> Piece {
    Piece {
        top_left: Vector2D { x, y },
        size: 2,
        squares: vec![
            Vector2D { x: 0, y: 0 },
            Vector2D { x: 0, y: 1 },
            Vector2D { x: 1, y: 0 },
            Vector2D { x: 1, y: 1 },
        ],
        color: Color::Orange,
    }
}

fn cell(x: i32, y: i32) -> Square {
    Square { position: Vector2D { x, y }, color: Color::Green, purgatory: false }
}

/// A board whose bottom row (y = NUM_ROWS - 1, bucket 1) holds cells in
/// the given columns.
fn board_with_bottom_cells(columns: &[i32]) -> Vec<Vec<Square>> {
    let mut bottom = Vec::new();
    for &x in columns {
        bottom.push(cell(x, NUM_ROWS - 1));
    }
    vec![Vec::new(), bottom]
}

#[test]
fn collide_inside_empty_board_is_free() {
    let inner = Inner::new();
    let p = line_piece_at(3, 0);
    assert!(!blockfall::board::does_collide(&p, &inner.board_pieces));
}

#[test]
fn collide_left_of_field() {
    let inner = Inner::new();
    let p = line_piece_at(-1, 0);
    assert!(blockfall::board::does_collide(&p, &inner.board_pieces));
}

#[test]
fn collide_right_of_field() {
    let inner = Inner::new();
    let p = line_piece_at(NUM_COLS - 3, 0);
    assert!(blockfall::board::does_collide(&p, &inner.board_pieces));
}

#[test]
fn collide_below_floor() {
    let inner = Inner::new();
    let p = line_piece_at(3, NUM_ROWS - 1);
    assert!(blockfall::board::does_collide(&p, &inner.board_pieces));
}

#[test]
fn collide_above_field_is_free() {
    let inner = Inner::new();
    let p = line_piece_at(3, -2);
    assert!(!blockfall::board::does_collide(&p, &inner.board_pieces));
}

#[test]
fn collide_on_locked_cell() {
    let board = board_with_bottom_cells(&[3]);
    let p = line_piece_at(3, NUM_ROWS - 2);
    assert!(blockfall::board::does_collide(&p, &board));
    let free = line_piece_at(4, NUM_ROWS - 2);
    assert!(!blockfall::board::does_collide(&free, &board));
}

#[test]
fn rotate_clockwise_exact_offsets() {
    let mut p = line_piece_at(3, 0);
    p.rotate_clockwise();
    let expected = vec![
        Vector2D { x: 2, y: 0 },
        Vector2D { x: 2, y: 1 },
        Vector2D { x: 2, y: 2 },
        Vector2D { x: 2, y: 3 },
    ];
    assert_eq!(p.squares, expected);
}

#[test]
fn rotate_four_times_is_identity() {
    let mut p = line_piece_at(3, 0);
    let original = p.squares.clone();
    for _ in 0..4 {
        p.rotate_clockwise();
    }
    assert_eq!(p.squares, original);
}

#[test]
fn rotate_counter_clockwise_undoes_clockwise() {
    let mut p = square_piece_at(4, 0);
    let original = p.squares.clone();
    p.rotate_clockwise();
    p.rotate_counter_clockwise();
    assert_eq!(p.squares, original);
}

#[test]
fn interception_point_on_empty_board() {
    let inner = Inner::new();
    let p = line_piece_at(3, 0);
    // The piece's cells sit in row 1; they may fall until row NUM_ROWS - 1.
    let extra = blockfall::board::get_interception_point(&p, &inner.board_pieces);
    assert_eq!(extra, NUM_ROWS - 2);
}

#[test]
fn interception_point_stops_on_locked_cells() {
    let board = board_with_bottom_cells(&[0, 1, 2, 3]);
    let p = line_piece_at(0, 0);
    let extra = blockfall::board::get_interception_point(&p, &board);
    assert_eq!(extra, NUM_ROWS - 3);
}

#[test]
fn hard_drop_reaches_interception_row() {
    let mut inner = Inner::new();
    let p = line_piece_at(3, 0);
    let extra = blockfall::board::get_interception_point(&p, &inner.board_pieces);
    inner.current_piece = Some(line_piece_at(3, 0));
    inner.should_send_to_bottom = true;
    inner.update();
    let dropped = inner.current_piece.as_ref().unwrap();
    assert_eq!(dropped.top_left.y, extra);
    // The hard drop forces the lock-delay counter past its threshold.
    assert_eq!(
        inner.frames_since_last_successful_move,
        blockfall::FRAMES_BEFORE_WE_SEAL_MOVE + 1
    );
}

#[test]
fn hard_drop_line_piece_completes_bottom_row() {
    // Fresh board except for six cells of the bottom row; the line piece
    // spawns at (NUM_COLS / 2 - 2, 0) and is hard-dropped into the gap.
    let mut inner = Inner::new();
    inner.board_pieces = board_with_bottom_cells(&[4, 5, 6, 7, 8, 9]);
    inner.current_piece = Some(line_piece_at(NUM_COLS / 2 - 2, 0));
    let mut moved = inner.current_piece.take().unwrap();
    moved.top_left.x = 0;
    inner.current_piece = Some(moved);
    inner.should_send_to_bottom = true;
    inner.update();
    // Locked at the bottom with no collision: cells rest in the last row.
    assert_eq!(inner.current_piece.as_ref().unwrap().top_left.y, NUM_ROWS - 2);
    inner.update();
    // The piece merged; the completed bottom row is flagged, all
    // NUM_COLS of its cells in purgatory.
    assert!(inner.current_piece.is_none());
    assert_eq!(inner.frames_to_wait, blockfall::FRAMES_TO_SHOW_PURGATORY);
    let bottom = &inner.board_pieces[1];
    assert_eq!(bottom.len(), NUM_COLS as usize);
    let mut purgatory_count = 0;
    for c in bottom.iter() {
        if c.purgatory {
            purgatory_count += 1;
        }
    }
    assert_eq!(purgatory_count, NUM_COLS);
    // Two wait cycles pass, then the next update clears the row and
    // spawns a fresh piece.
    inner.update();
    inner.update();
    assert_eq!(inner.frames_to_wait, 0);
    inner.update();
    assert!(inner.current_piece.is_some());
    for row in inner.board_pieces.iter() {
        assert_eq!(row.len(), 0);
    }
}

#[test]
fn line_clear_shifts_rows_above_down() {
    // Bucket 1 (bottom row) full; bucket 2 (row above) holds two cells.
    let mut inner = Inner::new();
    let mut bottom = Vec::new();
    for x in 0..NUM_COLS {
        bottom.push(cell(x, NUM_ROWS - 1));
    }
    let above = vec![cell(0, NUM_ROWS - 2), cell(7, NUM_ROWS - 2)];
    inner.board_pieces = vec![Vec::new(), bottom, above];
    inner.update();
    // The spawn step clears the full row first: the two cells above
    // moved down one row and now form the bottom bucket.
    assert!(inner.current_piece.is_some());
    assert_eq!(inner.board_pieces.len(), 2);
    let shifted = &inner.board_pieces[1];
    assert_eq!(shifted.len(), 2);
    assert_eq!(shifted[0].position.y, NUM_ROWS - 1);
    assert_eq!(shifted[1].position.y, NUM_ROWS - 1);
    assert_eq!(shifted[0].position.x, 0);
    assert_eq!(shifted[1].position.x, 7);
}

#[test]
fn key_buffer_caps_at_three() {
    let mut inner = Inner::new();
    inner.handle_key(Key::MoveLeft);
    inner.handle_key(Key::MoveRight);
    inner.handle_key(Key::RotateCw);
    assert_eq!(inner.key_buff.len(), 3);
    inner.handle_key(Key::HardDrop);
    // The fourth key is dropped; the buffer is unchanged.
    assert_eq!(inner.key_buff.len(), 3);
    assert_eq!(inner.key_buff[0], Key::MoveLeft);
    assert_eq!(inner.key_buff[1], Key::MoveRight);
    assert_eq!(inner.key_buff[2], Key::RotateCw);
}

#[test]
fn unknown_key_is_buffered_and_ignored() {
    let mut inner = Inner::new();
    inner.current_piece = Some(line_piece_at(3, 5));
    inner.handle_key(Key::Other);
    assert_eq!(inner.key_buff.len(), 1);
    inner.tick();
    // The key was consumed without effect; the piece only fell by one.
    assert_eq!(inner.key_buff.len(), 0);
    let p = inner.current_piece.as_ref().unwrap();
    assert_eq!(p.top_left.x, 3);
    assert_eq!(p.top_left.y, 6);
    assert_eq!(inner.x_to_move, 0);
    assert_eq!(inner.rotations_to_perform, 0);
}

#[test]
fn swap_twice_returns_original_piece() {
    let mut inner = Inner::new();
    inner.current_piece = Some(line_piece_at(3, 5));
    inner.swapped_piece = Some(square_piece_at(4, 7));
    inner.should_swap_piece = true;
    inner.update();
    // The held square entered play at row 0 and fell one step.
    assert_eq!(inner.current_piece.as_ref().unwrap().color, Color::Orange);
    assert_eq!(inner.current_piece.as_ref().unwrap().top_left.y, 1);
    assert_eq!(inner.swapped_piece.as_ref().unwrap().color, Color::Blue);
    inner.should_swap_piece = true;
    inner.update();
    // The original line piece is back in play, its row reset to 0
    // before the tick's single gravity step.
    let back = inner.current_piece.as_ref().unwrap();
    assert_eq!(back.color, Color::Blue);
    assert_eq!(back.top_left.x, 3);
    assert_eq!(back.top_left.y, 1);
}

#[test]
fn pause_key_toggles_pause() {
    let mut inner = Inner::new();
    inner.handle_key(Key::PauseOrRestart);
    inner.tick();
    assert!(inner.is_paused);
    inner.handle_key(Key::PauseOrRestart);
    inner.tick();
    assert!(!inner.is_paused);
}

#[test]
fn pause_key_after_game_over_resets() {
    let mut inner = Inner::new();
    inner.is_game_over = true;
    inner.score = 4;
    inner.board_pieces = board_with_bottom_cells(&[0, 1]);
    inner.swapped_piece = Some(square_piece_at(4, 7));
    inner.handle_key(Key::PauseOrRestart);
    inner.pre_process_keys();
    assert!(!inner.is_game_over);
    assert!(!inner.did_win);
    assert_eq!(inner.score, 0);
    assert_eq!(inner.board_pieces.len(), 0);
    assert!(inner.current_piece.is_none());
    assert!(inner.swapped_piece.is_none());
}

#[test]
fn reset_key_restores_initial_board() {
    let mut inner = Inner::new();
    inner.score = 9;
    inner.board_pieces = board_with_bottom_cells(&[0, 1, 2]);
    inner.current_piece = Some(line_piece_at(3, 5));
    inner.handle_key(Key::Reset);
    inner.pre_process_keys();
    assert_eq!(inner.score, 0);
    assert_eq!(inner.board_pieces.len(), 0);
    assert!(inner.current_piece.is_none());
}

#[test]
fn pause_clears_buffered_keys() {
    let mut inner = Inner::new();
    inner.is_paused = true;
    inner.handle_key(Key::MoveLeft);
    inner.handle_key(Key::MoveLeft);
    inner.tick();
    // Pause-buffering is forbidden: the keys are gone.
    assert_eq!(inner.key_buff.len(), 0);
    assert_eq!(inner.x_to_move, 0);
}

#[test]
fn gravity_follows_movement_cadence() {
    let mut inner = Inner::new();
    inner.current_piece = Some(line_piece_at(3, 0));
    inner.tick();
    assert_eq!(inner.current_piece.as_ref().unwrap().top_left.y, 1);
    // The next four frames only count down; the piece stays put.
    for _ in 0..(blockfall::MIN_SPEED - 1) {
        inner.tick();
        assert_eq!(inner.current_piece.as_ref().unwrap().top_left.y, 1);
    }
    inner.tick();
    assert_eq!(inner.current_piece.as_ref().unwrap().top_left.y, 2);
}

#[test]
fn horizontal_move_consumes_accumulator() {
    let mut inner = Inner::new();
    inner.current_piece = Some(line_piece_at(3, 5));
    inner.handle_key(Key::MoveLeft);
    inner.tick();
    let p = inner.current_piece.as_ref().unwrap();
    assert_eq!(p.top_left.x, 2);
    assert_eq!(inner.x_to_move, 0);
}

#[test]
fn wall_blocks_horizontal_move() {
    let mut inner = Inner::new();
    inner.current_piece = Some(line_piece_at(0, 5));
    inner.handle_key(Key::MoveLeft);
    inner.tick();
    // The step into the wall was reverted.
    assert_eq!(inner.current_piece.as_ref().unwrap().top_left.x, 0);
}

#[test]
fn blocked_rotation_is_reverted() {
    // A vertical line piece in a one-column well cannot rotate flat.
    let mut inner = Inner::new();
    let mut walls = Vec::new();
    for x in 0..NUM_COLS {
        if x != 2 {
            walls.push(cell(x, NUM_ROWS - 2));
        }
    }
    let mut bottom = Vec::new();
    for x in 0..NUM_COLS {
        if x != 2 {
            bottom.push(cell(x, NUM_ROWS - 1));
        }
    }
    inner.board_pieces = vec![Vec::new(), bottom, walls];
    let mut p = line_piece_at(0, NUM_ROWS - 4);
    p.rotate_clockwise();
    let shape_before = p.squares.clone();
    inner.current_piece = Some(p);
    inner.rotations_to_perform = 1;
    inner.update();
    let after = inner.current_piece.as_ref().unwrap();
    assert_eq!(after.squares, shape_before);
}

#[test]
fn spawn_onto_locked_cells_tops_out() {
    let mut inner = Inner::new();
    // Five cells across the spawn rows block every shape; the row is
    // not full, so the clear pass leaves it alone.
    let blockers = vec![cell(2, 1), cell(3, 1), cell(4, 1), cell(5, 1), cell(6, 1)];
    inner.board_pieces = vec![Vec::new()];
    for _ in 0..(NUM_ROWS - 2) {
        inner.board_pieces.push(Vec::new());
    }
    inner.board_pieces.push(blockers);
    inner.update();
    assert!(inner.is_game_over);
    assert!(inner.current_piece.is_none());
}

#[test]
fn random_piece_is_one_of_the_five_shapes() {
    let mut inner = Inner::new();
    for _ in 0..50 {
        let p = inner.get_random_piece();
        let mut matched = false;
        for k in 0..5u8 {
            let t = piece_from_kind(k);
            if p.squares == t.squares && p.size == t.size && p.color == t.color
                && p.top_left == t.top_left {
                matched = true;
            }
        }
        assert!(matched);
    }
}

#[test]
fn piece_templates_have_expected_spawn_anchor() {
    for k in 0..5u8 {
        let p = piece_from_kind(k);
        assert_eq!(p.top_left.y, 0);
        assert_eq!(p.squares.len(), 4);
        if k == 4 {
            assert_eq!(p.top_left.x, NUM_COLS / 2 - 1);
            assert_eq!(p.size, 2);
        } else {
            assert_eq!(p.top_left.x, NUM_COLS / 2 - 2);
        }
    }
    assert_eq!(piece_from_kind(0).size, 4);
    assert_eq!(piece_from_kind(1).size, 3);
    assert_eq!(piece_from_kind(0).color, Color::Blue);
}

#[test]
fn focus_banner_pauses_the_game() {
    let mut inner = Inner::new();
    inner.current_piece = Some(line_piece_at(3, 5));
    inner.show_focus_banner();
    inner.tick();
    // Effectively paused: the piece does not fall.
    assert_eq!(inner.current_piece.as_ref().unwrap().top_left.y, 5);
    inner.hide_focus_banner();
    inner.tick();
    assert_eq!(inner.current_piece.as_ref().unwrap().top_left.y, 6);
}

#[test]
fn rotate_counter_clockwise_exact_offsets() {
    let mut p = line_piece_at(3, 0);
    p.rotate_counter_clockwise();
    let expected = vec![
        Vector2D { x: 1, y: 3 },
        Vector2D { x: 1, y: 2 },
        Vector2D { x: 1, y: 1 },
        Vector2D { x: 1, y: 0 },
    ];
    assert_eq!(p.squares, expected);
}

#[test]
fn horizontal_move_after_hard_drop_cancels_forced_lock() {
    // A successful sideways step in the hard-drop tick counts as a
    // move and resets the lock-delay counter again.
    let mut inner = Inner::new();
    inner.current_piece = Some(line_piece_at(3, 0));
    inner.should_send_to_bottom = true;
    inner.x_to_move = -1;
    inner.update();
    let p = inner.current_piece.as_ref().unwrap();
    assert_eq!(p.top_left.y, NUM_ROWS - 2);
    assert_eq!(p.top_left.x, 2);
    assert_eq!(inner.frames_since_last_successful_move, 0);
}

#[test]
fn swap_with_empty_hold_spawns_a_new_piece() {
    let mut inner = Inner::new();
    inner.current_piece = Some(line_piece_at(3, 5));
    inner.should_swap_piece = true;
    inner.update();
    // The falling piece went to the hold slot; with nothing to re-enter,
    // the spawn step produced a fresh piece that fell one step.
    assert_eq!(inner.swapped_piece.as_ref().unwrap().color, Color::Blue);
    assert_eq!(inner.swapped_piece.as_ref().unwrap().top_left.y, 5);
    let spawned = inner.current_piece.as_ref().unwrap();
    assert_eq!(spawned.top_left.y, 1);
    assert!(!inner.should_swap_piece);
}

#[test]
fn reset_keeps_the_pause_flag() {
    let mut inner = Inner::new();
    inner.is_paused = true;
    inner.score = 3;
    inner.board_pieces = board_with_bottom_cells(&[0]);
    inner.handle_key(Key::Reset);
    inner.handle_key(Key::MoveLeft);
    inner.tick();
    // The session reset, but the pause flag survives, and the paused
    // state swallowed the remaining buffered key.
    assert!(inner.is_paused);
    assert_eq!(inner.score, 0);
    assert_eq!(inner.board_pieces.len(), 0);
    assert_eq!(inner.key_buff.len(), 0);
}
