use tictactoe::game::{board_is_full, Board, Game, GameMode, GameStatus, MoveError, Player};

const X: Option<Player> = Some(Player::X);
const O: Option<Player> = Some(Player::O);
const E: Option<Player> = None;

fn game_with(board: Board, current_player: Player) -> Game {
    Game { board, current_player, game_mode: GameMode::VsAI }
}

fn occupied(board: &Board) -> usize {
    board.iter().map(|row| row.iter().filter(|c| c.is_some()).count()).sum()
}

#[test]
fn other_toggles() {
    assert_eq!(Player::X.other(), Player::O);
    assert_eq!(Player::O.other(), Player::X);
}

#[test]
fn new_game_opening_player() {
    assert_eq!(Game::new(GameMode::VsAI, Some(true)).current_player, Player::X);
    assert_eq!(Game::new(GameMode::VsAI, Some(false)).current_player, Player::O);
    assert_eq!(Game::new(GameMode::VsAI, None).current_player, Player::X);
    assert_eq!(Game::new(GameMode::VsPlayer, Some(false)).current_player, Player::X);
    let g = Game::new(GameMode::VsPlayer, None);
    assert_eq!(g.board, [[E; 3]; 3]);
    assert_eq!(g.game_mode, GameMode::VsPlayer);
    assert_eq!(g.check_status(), GameStatus::InProgress);
}

#[test]
fn move_out_of_bounds_leaves_state() {
    let mut g = game_with([[X, E, E], [E, O, E], [E, E, E]], Player::X);
    for (r, c) in [(3, 0), (0, 3), (5, 7), (usize::MAX, 1)] {
        assert_eq!(g.make_move(r, c), Err(MoveError::OutOfBounds));
        assert_eq!(g.board, [[X, E, E], [E, O, E], [E, E, E]]);
        assert_eq!(g.current_player, Player::X);
        assert_eq!(g.game_mode, GameMode::VsAI);
    }
}

#[test]
fn move_on_occupied_cell_leaves_state() {
    let mut g = game_with([[X, E, E], [E, O, E], [E, E, E]], Player::X);
    assert_eq!(g.make_move(0, 0), Err(MoveError::CellOccupied));
    assert_eq!(g.make_move(1, 1), Err(MoveError::CellOccupied));
    assert_eq!(g.board, [[X, E, E], [E, O, E], [E, E, E]]);
    assert_eq!(g.current_player, Player::X);
}

#[test]
fn legal_move_flips_turn_and_fills_one_cell() {
    let mut g = Game::new(GameMode::VsPlayer, None);
    assert_eq!(g.make_move(2, 1), Ok(()));
    assert_eq!(g.board, [[E, E, E], [E, E, E], [E, X, E]]);
    assert_eq!(g.current_player, Player::O);
    assert_eq!(g.make_move(0, 2), Ok(()));
    assert_eq!(g.board, [[E, E, O], [E, E, E], [E, X, E]]);
    assert_eq!(g.current_player, Player::X);
    assert_eq!(occupied(&g.board), 2);
}

#[test]
fn status_rows_columns_diagonals() {
    let s = |b: Board| game_with(b, Player::X).check_status();
    assert_eq!(s([[E, E, E], [O, O, O], [X, X, E]]), GameStatus::OWins);
    assert_eq!(s([[X, O, E], [X, O, E], [X, E, E]]), GameStatus::XWins);
    assert_eq!(s([[O, X, X], [E, O, X], [E, E, O]]), GameStatus::OWins);
    assert_eq!(s([[O, O, X], [E, X, E], [X, E, E]]), GameStatus::XWins);
    assert_eq!(s([[X, O, E], [E, E, E], [E, E, E]]), GameStatus::InProgress);
}

#[test]
fn status_scans_rows_before_columns() {
    let g = game_with([[O, O, O], [X, E, E], [X, E, E]], Player::X);
    assert_eq!(g.check_status(), GameStatus::OWins);
    let g = game_with([[X, O, E], [X, O, E], [X, O, E]], Player::X);
    assert_eq!(g.check_status(), GameStatus::XWins);
    let g = game_with([[X, X, X], [O, O, O], [E, E, E]], Player::X);
    assert_eq!(g.check_status(), GameStatus::XWins);
}

#[test]
fn status_is_stable_and_depends_on_board_only() {
    let b = [[X, O, X], [E, O, E], [E, E, E]];
    let g1 = game_with(b, Player::X);
    let g2 = Game { board: b, current_player: Player::O, game_mode: GameMode::VsPlayer };
    assert_eq!(g1.check_status(), g1.check_status());
    assert_eq!(g1.check_status(), g2.check_status());
}

#[test]
fn full_board_without_line_is_draw() {
    let b = [[X, O, X], [X, O, O], [O, X, X]];
    let g = game_with(b, Player::O);
    assert!(board_is_full(&b));
    assert_eq!(g.check_status(), GameStatus::Draw);
    assert_eq!(g.get_best_move(), None);
}

#[test]
fn full_board_with_line_is_a_win() {
    let g = game_with([[X, X, X], [O, O, X], [X, O, O]], Player::O);
    assert_eq!(g.check_status(), GameStatus::XWins);
    assert_eq!(g.get_best_move(), None);
}

#[test]
fn engine_takes_immediate_win() {
    let mut g = game_with([[X, X, E], [O, O, E], [E, E, E]], Player::O);
    assert_eq!(g.get_best_move(), Some((1, 2)));
    g.make_move(1, 2).unwrap();
    assert_eq!(g.check_status(), GameStatus::OWins);
}

#[test]
fn engine_blocks_as_x() {
    let g = game_with([[O, O, E], [X, E, E], [X, E, E]], Player::X);
    assert_eq!(g.get_best_move(), Some((0, 2)));
}

#[test]
fn engine_on_empty_board_as_o_opens_top_left() {
    let g = game_with([[E; 3]; 3], Player::O);
    assert_eq!(g.get_best_move(), Some((0, 0)));
}

#[test]
fn engine_does_not_mutate_game() {
    let b = [[X, E, E], [E, O, E], [E, E, X]];
    let g = game_with(b, Player::O);
    let _ = g.get_best_move();
    assert_eq!(g.board, b);
    assert_eq!(g.current_player, Player::O);
}

#[test]
fn engine_returns_empty_cell_until_full() {
    let mut g = Game::new(GameMode::VsPlayer, None);
    let mut plies = 0;
    while let Some((r, c)) = g.get_best_move() {
        assert!(r < 3 && c < 3);
        assert_eq!(g.board[r][c], None);
        g.make_move(r, c).unwrap();
        plies += 1;
        if plies == 9 {
            break;
        }
    }
    assert!(plies >= 1);
}

#[test]
fn engine_against_itself_draws() {
    let mut g = Game::new(GameMode::VsPlayer, None);
    while g.check_status() == GameStatus::InProgress {
        let (r, c) = g.get_best_move().expect("a move while in progress");
        g.make_move(r, c).unwrap();
    }
    assert_eq!(g.check_status(), GameStatus::Draw);
    assert_eq!(occupied(&g.board), 9);
}

#[test]
fn move_count_matches_occupied_cells() {
    let mut g = Game::new(GameMode::VsPlayer, None);
    let mut accepted = 0;
    for (r, c) in [(0, 0), (0, 0), (1, 1), (4, 1), (2, 2), (1, 1), (0, 2), (0, 1)] {
        if g.make_move(r, c).is_ok() {
            accepted += 1;
        }
        let _ = g.check_status();
        assert_eq!(occupied(&g.board), accepted);
    }
    assert_eq!(accepted, 5);
}
