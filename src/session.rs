use vstd::prelude::*;
use crate::game::{
    cell, in_range, is_best_move, is_full, place, status_of, Board, Game,
    GameMode, GameStatus, MoveError, Player,
};

verus! {

/// Everything a client holds between two requests: the position, its
/// status, and whether the engine is to move next.
#[derive(Debug, Clone, Copy)]
pub struct GameState {
    pub board: Board,
    pub current_player: Player,
    pub game_mode: GameMode,
    pub game_status: GameStatus,
    pub is_ai_turn: bool,
}

/// The mode named by a client: `"ai"` plays against the engine, any other
/// name against another person.
pub open spec fn mode_named(name: Seq<char>) -> GameMode {
    if name == seq!['a', 'i'] {
        GameMode::VsAI
    } else {
        GameMode::VsPlayer
    }
}

/// `nb` is `b` after the side `turn` played its best cell.
pub open spec fn after_best_move(b: Board, turn: Player, nb: Board) -> bool {
    exists|r: int, c: int| #[trigger] is_best_move(b, turn, r, c) && nb == place(b, r, c, turn)
}

/// Whether the engine answers a move that left board `b` with `turn` to move.
pub open spec fn engine_replies(mode: GameMode, b: Board, turn: Player) -> bool {
    mode == GameMode::VsAI && status_of(b) == GameStatus::InProgress && turn == Player::O
}

/// The mode a client names.
pub fn parse_mode(name: &String) -> (mode: GameMode)
    ensures
        mode == mode_named(name@),
{
    let ai = "ai".to_owned();
    proof {
        reveal_strlit("ai");
        assert(ai@ =~= seq!['a', 'i']);
    }
    if *name == ai {
        GameMode::VsAI
    } else {
        GameMode::VsPlayer
    }
}

/// The state sent back to a client after a position changed.
fn snapshot(game: &Game) -> (s: GameState)
    ensures
        s.board == game.board,
        s.current_player == game.current_player,
        s.game_mode == game.game_mode,
        s.game_status == status_of(game.board),
        !s.is_ai_turn,
{
    GameState {
        board: game.board,
        current_player: game.current_player,
        game_mode: game.game_mode,
        game_status: game.check_status(),
        is_ai_turn: false,
    }
}

/// Starts a game; in a game against the engine, `player_first` says whether
/// the person opens.
pub fn new_game(game_mode: String, player_first: bool) -> (s: GameState)
    ensures
        s.game_mode == mode_named(game_mode@),
        forall|r: int, c: int| #[trigger] in_range(r, c) ==> cell(s.board, r, c) is None,
        s.current_player == if s.game_mode == GameMode::VsAI && !player_first {
            Player::O
        } else {
            Player::X
        },
        s.game_status == GameStatus::InProgress,
        s.is_ai_turn == (s.game_mode == GameMode::VsAI && !player_first),
{
    let mode = parse_mode(&game_mode);
    let game = Game::new(mode, if mode == GameMode::VsAI { Some(player_first) } else { None });
    let status = game.check_status();
    assert(cell(game.board, 0, 0) is None && in_range(0, 0));
    GameState {
        board: game.board,
        current_player: game.current_player,
        game_mode: game.game_mode,
        game_status: status,
        is_ai_turn: mode == GameMode::VsAI && !player_first,
    }
}

/// `s` is what a client gets back after playing `(row, col)` from `before`:
/// the move, then the engine's best reply where one is due.
pub open spec fn played(before: GameState, row: int, col: int, s: GameState) -> bool {
    let b1 = place(before.board, row, col, before.current_player);
    let t1 = before.current_player.spec_other();
    &&& s.game_mode == before.game_mode
    &&& s.game_status == status_of(s.board)
    &&& !s.is_ai_turn
    &&& if engine_replies(before.game_mode, b1, t1) {
        after_best_move(b1, Player::O, s.board) && s.current_player == Player::X
    } else {
        s.board == b1 && s.current_player == t1
    }
}

/// The game a client state stands for.
fn game_of(state: &GameState) -> (g: Game)
    ensures
        g.board == state.board,
        g.current_player == state.current_player,
        g.game_mode == state.game_mode,
{
    Game { board: state.board, current_player: state.current_player, game_mode: state.game_mode }
}

/// Plays the client's move at `(row, col)`; in a game against the engine,
/// when the game goes on and `O` is to move, the engine replies at once.
pub fn make_move(row: usize, col: usize, game_state: GameState) -> (res: Result<GameState, MoveError>)
    ensures
        (row >= 3 || col >= 3) ==> res == Err::<GameState, MoveError>(MoveError::OutOfBounds),
        in_range(row as int, col as int) && cell(game_state.board, row as int, col as int) is Some
            ==> res == Err::<GameState, MoveError>(MoveError::CellOccupied),
        in_range(row as int, col as int) && cell(game_state.board, row as int, col as int) is None
            ==> res is Ok && played(game_state, row as int, col as int, res->Ok_0),
{
    let mut game = game_of(&game_state);
    match game.make_move(row, col) {
        Err(e) => return Err(e),
        Ok(()) => {},
    }
    let mut state = snapshot(&game);
    if state.game_mode == GameMode::VsAI && state.game_status == GameStatus::InProgress
        && state.current_player == Player::O {
        let ai_move = game.get_best_move();
        if let Some((r, c)) = ai_move {
            let ghost b1 = game.board;
            match game.make_move(r, c) {
                Err(e) => return Err(e),
                Ok(()) => {},
            }
            assert(is_best_move(b1, Player::O, r as int, c as int));
            state = snapshot(&game);
        }
    }
    Ok(state)
}

/// Lets the engine play for the side to move.
pub fn get_ai_move(game_state: GameState) -> (res: Result<GameState, MoveError>)
    ensures
        res is Err <==> is_full(game_state.board),
        res is Err ==> res == Err::<GameState, MoveError>(MoveError::NoLegalMove),
        res matches Ok(s) ==> {
            &&& after_best_move(game_state.board, game_state.current_player, s.board)
            &&& s.current_player == game_state.current_player.spec_other()
            &&& s.game_mode == game_state.game_mode
            &&& s.game_status == status_of(s.board)
            &&& !s.is_ai_turn
        },
{
    let mut game = game_of(&game_state);
    let ai_move = game.get_best_move();
    if let Some((r, c)) = ai_move {
        match game.make_move(r, c) {
            Err(e) => return Err(e),
            Ok(()) => {},
        }
        assert(is_best_move(game_state.board, game_state.current_player, r as int, c as int));
    } else {
        return Err(MoveError::NoLegalMove);
    }
    Ok(snapshot(&game))
}

} // verus!
