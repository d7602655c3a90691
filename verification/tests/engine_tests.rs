use tic_tac_toe::engine::{ConfigurationError, Engine, MoveKind, Player, Winner, WIDTH};

#[test]
fn check_winner_horizontally() {
    let mut engine = Engine::new(Player::X, WIDTH).unwrap();

    engine.update_state_for_testing(vec![
        None, None, None,
        None, None, None,
        None, None, None,
    ]);

    assert!(engine.check_winner().is_none());

    engine.update_state_for_testing(vec![
        None,            None,            None,
        Some(Player::X), Some(Player::X), Some(Player::X),
        None,            None,            None,
    ]);

    assert!(engine.check_winner() == Some(Winner::X));

    engine.update_state_for_testing(vec![
        None,            None,            None,
        Some(Player::X), Some(Player::O), Some(Player::X),
        None,            None,            None,
    ]);

    assert!(engine.check_winner().is_none());
}

#[test]
fn check_winner_vertically() {
    let mut engine = Engine::new(Player::X, WIDTH).unwrap();

    engine.update_state_for_testing(vec![
        None,            Some(Player::O), None,
        None,            Some(Player::O), None,
        None,            Some(Player::O), None,
    ]);

    assert!(engine.check_winner() == Some(Winner::O));
}

#[test]
fn check_winner_diagonally() {
    let mut engine = Engine::new(Player::X, WIDTH).unwrap();

    engine.update_state_for_testing(vec![
        Some(Player::O), None,            None,
        None,            Some(Player::O), None,
        None,            None,            Some(Player::O),
    ]);

    assert!(engine.check_winner() == Some(Winner::O));

    engine.update_state_for_testing(vec![
        None,            None,            Some(Player::O),
        None,            Some(Player::O), None,
        Some(Player::O), None,            None,
    ]);

    assert!(engine.check_winner() == Some(Winner::O));
}

#[test]
fn check_winner_tie() {
    let mut engine = Engine::new(Player::X, WIDTH).unwrap();

    engine.update_state_for_testing(vec![
        Some(Player::X), Some(Player::O), Some(Player::X),
        Some(Player::X), Some(Player::O), Some(Player::O),
        Some(Player::O), Some(Player::X), Some(Player::O),
    ]);

    assert!(engine.check_winner() == Some(Winner::Tie));
}

#[test]
fn row_win_reported_for_first_player() {
    let mut engine = Engine::new(Player::X, WIDTH).unwrap();

    engine.update_state_for_testing(vec![
        Some(Player::X), Some(Player::X), Some(Player::X),
        None,            None,            None,
        None,            None,            None,
    ]);

    assert!(engine.check_winner() == Some(Winner::X));
}

#[test]
fn no_outcome_on_open_board() {
    let mut engine = Engine::new(Player::X, WIDTH).unwrap();

    assert!(engine.check_winner().is_none());

    engine.update_state_for_testing(vec![
        Some(Player::X), Some(Player::O), None,
        None,            Some(Player::X), None,
        Some(Player::O), None,            None,
    ]);

    assert!(engine.check_winner().is_none());
}

#[test]
fn new_engine_starts_centered_and_empty() {
    let engine = Engine::new(Player::O, WIDTH).unwrap();

    assert_eq!(engine.width, 3);
    assert_eq!(engine.state.len(), 9);
    assert!(engine.state.iter().all(|c| c.is_none()));
    assert_eq!(engine.cursor_pos.x, 1);
    assert_eq!(engine.cursor_pos.y, 1);
    assert_eq!(engine.turn, Player::O);
}

#[test]
fn new_rejects_zero_side() {
    assert!(matches!(
        Engine::new(Player::X, 0),
        Err(ConfigurationError::ZeroSide)
    ));
}

#[test]
fn new_rejects_oversized_board() {
    assert!(matches!(
        Engine::new(Player::X, usize::MAX),
        Err(ConfigurationError::BoardTooLarge)
    ));
}

#[test]
fn cursor_moves_inside_the_board() {
    let mut engine = Engine::new(Player::X, WIDTH).unwrap();

    assert!(engine.move_cursor(MoveKind::Right));
    assert_eq!((engine.cursor_pos.x, engine.cursor_pos.y), (2, 1));
    assert!(engine.move_cursor(MoveKind::Down));
    assert_eq!((engine.cursor_pos.x, engine.cursor_pos.y), (2, 2));
    assert!(engine.move_cursor(MoveKind::Left));
    assert!(engine.move_cursor(MoveKind::Up));
    assert_eq!((engine.cursor_pos.x, engine.cursor_pos.y), (1, 1));
}

#[test]
fn boundary_moves_are_rejected_at_edges() {
    let mut engine = Engine::new(Player::X, WIDTH).unwrap();

    assert!(engine.move_cursor(MoveKind::Left));
    assert!(engine.move_cursor(MoveKind::Up));
    assert_eq!((engine.cursor_pos.x, engine.cursor_pos.y), (0, 0));

    assert!(!engine.move_cursor(MoveKind::Left));
    assert_eq!((engine.cursor_pos.x, engine.cursor_pos.y), (0, 0));
    assert!(!engine.move_cursor(MoveKind::Up));
    assert_eq!((engine.cursor_pos.x, engine.cursor_pos.y), (0, 0));

    assert!(engine.move_cursor(MoveKind::Right));
    assert!(engine.move_cursor(MoveKind::Right));
    assert!(engine.move_cursor(MoveKind::Down));
    assert!(engine.move_cursor(MoveKind::Down));
    assert_eq!((engine.cursor_pos.x, engine.cursor_pos.y), (2, 2));

    assert!(!engine.move_cursor(MoveKind::Right));
    assert_eq!((engine.cursor_pos.x, engine.cursor_pos.y), (2, 2));
    assert!(!engine.move_cursor(MoveKind::Down));
    assert_eq!((engine.cursor_pos.x, engine.cursor_pos.y), (2, 2));
}

#[test]
fn end_to_end_center_placement_and_rejection() {
    let mut engine = Engine::new(Player::X, WIDTH).unwrap();

    assert!(engine.place());
    assert_eq!(engine.state[4], Some(Player::X));
    assert_eq!(engine.turn, Player::O);

    assert!(!engine.place());
    assert_eq!(engine.state[4], Some(Player::X));
    assert_eq!(engine.turn, Player::O);
    assert!(engine.state.iter().enumerate().all(|(i, c)| i == 4 || c.is_none()));

    assert!(engine.move_cursor(MoveKind::Left));
    assert!(engine.place());
    assert_eq!(engine.state[3], Some(Player::O));
    assert_eq!(engine.turn, Player::X);
}

#[test]
fn last_checked_line_wins_on_malformed_boards() {
    let mut engine = Engine::new(Player::X, WIDTH).unwrap();

    // Two complete rows: the later row is the one reported.
    engine.update_state_for_testing(vec![
        Some(Player::X), Some(Player::X), Some(Player::X),
        Some(Player::O), Some(Player::O), Some(Player::O),
        None,            None,            None,
    ]);

    assert!(engine.check_winner() == Some(Winner::O));

    // A complete column outranks an earlier complete column.
    engine.update_state_for_testing(vec![
        Some(Player::X), Some(Player::O), None,
        Some(Player::X), Some(Player::O), None,
        Some(Player::X), Some(Player::O), None,
    ]);

    assert!(engine.check_winner() == Some(Winner::O));
}
