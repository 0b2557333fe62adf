use tictactoe::game::{GameMode, GameStatus, MoveError, Player};
use tictactoe::session::{get_ai_move, make_move, new_game, parse_mode, GameState};

const X: Option<Player> = Some(Player::X);
const O: Option<Player> = Some(Player::O);
const E: Option<Player> = None;

#[test]
fn mode_names() {
    assert_eq!(parse_mode(&"ai".to_string()), GameMode::VsAI);
    assert_eq!(parse_mode(&"player".to_string()), GameMode::VsPlayer);
    assert_eq!(parse_mode(&"AI".to_string()), GameMode::VsPlayer);
    assert_eq!(parse_mode(&"".to_string()), GameMode::VsPlayer);
}

#[test]
fn new_game_engine_first() {
    let s = new_game("ai".to_string(), false);
    assert!(s.is_ai_turn);
    assert_eq!(s.current_player, Player::O);
    assert_eq!(s.game_mode, GameMode::VsAI);
    assert_eq!(s.game_status, GameStatus::InProgress);
    let s = get_ai_move(s).unwrap();
    assert_eq!(s.board, [[O, E, E], [E, E, E], [E, E, E]]);
    assert_eq!(s.current_player, Player::X);
    assert!(!s.is_ai_turn);
}

#[test]
fn new_game_person_first_or_two_people() {
    let s = new_game("ai".to_string(), true);
    assert!(!s.is_ai_turn);
    assert_eq!(s.current_player, Player::X);
    let s = new_game("player".to_string(), false);
    assert!(!s.is_ai_turn);
    assert_eq!(s.current_player, Player::X);
    assert_eq!(s.game_mode, GameMode::VsPlayer);
}

#[test]
fn make_move_engine_replies() {
    let s = new_game("ai".to_string(), true);
    let s = make_move(0, 0, s).unwrap();
    assert_eq!(s.current_player, Player::X);
    assert_eq!(s.board[0][0], X);
    assert_eq!(s.board.iter().flatten().filter(|c| **c == O).count(), 1);
    assert_eq!(s.board[1][1], O);
    assert_eq!(s.game_status, GameStatus::InProgress);
    assert!(!s.is_ai_turn);
}

#[test]
fn make_move_two_people_no_reply() {
    let s = new_game("player".to_string(), true);
    let s = make_move(1, 1, s).unwrap();
    assert_eq!(s.board, [[E, E, E], [E, X, E], [E, E, E]]);
    assert_eq!(s.current_player, Player::O);
}

#[test]
fn make_move_errors() {
    let s = new_game("ai".to_string(), true);
    assert!(matches!(make_move(3, 0, s), Err(MoveError::OutOfBounds)));
    let s = make_move(0, 0, s).unwrap();
    assert!(matches!(make_move(0, 0, s), Err(MoveError::CellOccupied)));
}

#[test]
fn make_move_winning_ends_without_reply() {
    let s = GameState {
        board: [[X, X, E], [O, O, E], [E, E, E]],
        current_player: Player::X,
        game_mode: GameMode::VsAI,
        game_status: GameStatus::InProgress,
        is_ai_turn: false,
    };
    let s = make_move(0, 2, s).unwrap();
    assert_eq!(s.game_status, GameStatus::XWins);
    assert_eq!(s.board, [[X, X, X], [O, O, E], [E, E, E]]);
    assert_eq!(s.current_player, Player::O);
}

#[test]
fn get_ai_move_on_full_board() {
    let s = GameState {
        board: [[X, O, X], [X, O, O], [O, X, X]],
        current_player: Player::O,
        game_mode: GameMode::VsAI,
        game_status: GameStatus::Draw,
        is_ai_turn: true,
    };
    assert!(matches!(get_ai_move(s), Err(MoveError::NoLegalMove)));
}

#[test]
fn get_ai_move_wins() {
    let s = GameState {
        board: [[X, X, E], [O, O, E], [E, E, E]],
        current_player: Player::O,
        game_mode: GameMode::VsAI,
        game_status: GameStatus::InProgress,
        is_ai_turn: true,
    };
    let s = get_ai_move(s).unwrap();
    assert_eq!(s.board, [[X, X, E], [O, O, O], [E, E, E]]);
    assert_eq!(s.game_status, GameStatus::OWins);
}
