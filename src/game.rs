use vstd::prelude::*;
use vstd::array::spec_array_update;

verus! {

/// One of the two marks that can occupy a cell.
#[derive(Debug, Clone, Copy, PartialEq, Eq, Structural)]
pub enum Player {
    X,
    O,
}

impl Player {
    /// The opposing mark, in specifications.
    pub open spec fn spec_other(self) -> Player {
        match self {
            Player::X => Player::O,
            Player::O => Player::X,
        }
    }

    /// The opposing mark.
    pub fn other(&self) -> (r: Player)
        ensures
            r == self.spec_other(),
    {
        match self {
            Player::X => Player::O,
            Player::O => Player::X,
        }
    }
}

/// Whether the second side is played by a person or by the engine.
#[derive(Debug, Clone, Copy, PartialEq, Eq, Structural)]
pub enum GameMode {
    VsPlayer,
    VsAI,
}

/// Classification of a board.
#[derive(Debug, Clone, Copy, PartialEq, Eq, Structural)]
pub enum GameStatus {
    InProgress,
    XWins,
    OWins,
    Draw,
}

/// Why a move was not applied.
#[derive(Debug, Clone, Copy, PartialEq, Eq, Structural)]
pub enum MoveError {
    OutOfBounds,
    CellOccupied,
    NoLegalMove,
}

/// A 3x3 grid in row-major order.
pub type Board = [[Option<Player>; 3]; 3];

pub open spec fn cell(b: Board, r: int, c: int) -> Option<Player> {
    b@[r]@[c]
}

pub open spec fn in_range(r: int, c: int) -> bool {
    0 <= r < 3 && 0 <= c < 3
}

/// The board with `p` written at `(r, c)`.
pub open spec fn place(b: Board, r: int, c: int, p: Player) -> Board {
    spec_array_update(b, r, spec_array_update(b[r], c, Some(p)))
}

pub open spec fn occupied_in_row(b: Board, r: int) -> nat {
    (if cell(b, r, 0) is Some { 1nat } else { 0nat })
        + (if cell(b, r, 1) is Some { 1nat } else { 0nat })
        + (if cell(b, r, 2) is Some { 1nat } else { 0nat })
}

/// Number of occupied cells.
pub open spec fn occupied_count(b: Board) -> nat {
    occupied_in_row(b, 0) + occupied_in_row(b, 1) + occupied_in_row(b, 2)
}

/// Number of empty cells.
pub open spec fn empty_count(b: Board) -> nat {
    (9 - occupied_count(b)) as nat
}

pub open spec fn is_full(b: Board) -> bool {
    forall|r: int, c: int| #[trigger] in_range(r, c) ==> cell(b, r, c) is Some
}

/// The mark filling all three of the given cells, if any.
pub open spec fn line_owner(a: Option<Player>, b: Option<Player>, c: Option<Player>) -> Option<Player> {
    if a is Some && b == a && c == a {
        a
    } else {
        None
    }
}

pub open spec fn row_owner(b: Board, r: int) -> Option<Player> {
    line_owner(cell(b, r, 0), cell(b, r, 1), cell(b, r, 2))
}

pub open spec fn col_owner(b: Board, c: int) -> Option<Player> {
    line_owner(cell(b, 0, c), cell(b, 1, c), cell(b, 2, c))
}

pub open spec fn diag_owner(b: Board) -> Option<Player> {
    line_owner(cell(b, 0, 0), cell(b, 1, 1), cell(b, 2, 2))
}

pub open spec fn anti_diag_owner(b: Board) -> Option<Player> {
    line_owner(cell(b, 0, 2), cell(b, 1, 1), cell(b, 2, 0))
}

pub open spec fn or_else(a: Option<Player>, b: Option<Player>) -> Option<Player> {
    if a is Some {
        a
    } else {
        b
    }
}

/// Owner of the first complete line, scanning rows, then columns, then the
/// main diagonal and the anti-diagonal.
pub open spec fn winner(b: Board) -> Option<Player> {
    or_else(row_owner(b, 0), or_else(row_owner(b, 1), or_else(row_owner(b, 2),
    or_else(col_owner(b, 0), or_else(col_owner(b, 1), or_else(col_owner(b, 2),
    or_else(diag_owner(b), anti_diag_owner(b))))))))
}

/// Status of a board: a win for the owner of the first complete line,
/// otherwise a draw when no cell is empty, otherwise still in progress.
pub open spec fn status_of(b: Board) -> GameStatus {
    match winner(b) {
        Some(Player::X) => GameStatus::XWins,
        Some(Player::O) => GameStatus::OWins,
        None => if is_full(b) {
            GameStatus::Draw
        } else {
            GameStatus::InProgress
        },
    }
}

/// Writing a mark changes exactly the target cell.
pub proof fn lemma_place_cell(b: Board, r: int, c: int, p: Player, r2: int, c2: int)
    requires
        in_range(r, c),
        in_range(r2, c2),
    ensures
        cell(place(b, r, c, p), r2, c2) == if r2 == r && c2 == c {
            Some(p)
        } else {
            cell(b, r2, c2)
        },
{
    broadcast use vstd::array::group_array_axioms;
}

/// Writing a mark on an empty cell occupies exactly one more cell.
pub proof fn lemma_place_occupies_one(b: Board, r: int, c: int, p: Player)
    requires
        in_range(r, c),
        cell(b, r, c) is None,
    ensures
        occupied_count(place(b, r, c, p)) == occupied_count(b) + 1,
{
    let nb = place(b, r, c, p);
    assert forall|r2: int, c2: int| #[trigger] in_range(r2, c2) implies cell(nb, r2, c2) == (
    if r2 == r && c2 == c {
        Some(p)
    } else {
        cell(b, r2, c2)
    }) by {
        lemma_place_cell(b, r, c, p, r2, c2);
    }
    assert(in_range(0, 0) && in_range(0, 1) && in_range(0, 2));
    assert(in_range(1, 0) && in_range(1, 1) && in_range(1, 2));
    assert(in_range(2, 0) && in_range(2, 1) && in_range(2, 2));
}

/// Whether every cell holds a mark.
pub fn board_is_full(b: &Board) -> (full: bool)
    ensures
        full == is_full(*b),
{
    let mut row: usize = 0;
    while row < 3
        invariant
            row <= 3,
            forall|r: int, c: int| #[trigger] in_range(r, c) && r < row ==> cell(*b, r, c) is Some,
        decreases 3 - row,
    {
        let mut col: usize = 0;
        while col < 3
            invariant
                row < 3,
                col <= 3,
                forall|r: int, c: int| #[trigger] in_range(r, c) && r < row ==> cell(*b, r, c) is Some,
                forall|c: int| 0 <= c < col ==> #[trigger] cell(*b, row as int, c) is Some,
            decreases 3 - col,
        {
            if b[row][col].is_none() {
                assert(in_range(row as int, col as int));
                return false;
            }
            col += 1;
        }
        assert forall|r: int, c: int| #[trigger] in_range(r, c) && r < row + 1 implies cell(*b, r, c) is Some by {
            if r == row {
                assert(cell(*b, row as int, c) is Some);
            }
        }
        row += 1;
    }
    true
}

/// Score of a finished board from the point of view of `O`: faster wins
/// and slower losses score better.
pub open spec fn terminal_score(s: GameStatus, depth: int) -> int {
    match s {
        GameStatus::XWins => -10 + depth,
        GameStatus::OWins => 10 - depth,
        _ => 0,
    }
}

pub open spec fn search_identity(is_max: bool) -> int {
    if is_max {
        i32::MIN as int
    } else {
        i32::MAX as int
    }
}

pub open spec fn combine(is_max: bool, a: int, b: int) -> int {
    if is_max {
        if b > a {
            b
        } else {
            a
        }
    } else {
        if b < a {
            b
        } else {
            a
        }
    }
}

/// Minimax value of a board for `O`, with `turn` to move, searching at
/// `depth` plies below the root; `is_max` says whether this ply maximises.
pub open spec fn minimax_value(b: Board, turn: Player, is_max: bool, depth: int) -> int
    decreases empty_count(b), 10int,
{
    if status_of(b) == GameStatus::InProgress {
        best_child_value(b, turn, is_max, depth, 9)
    } else {
        terminal_score(status_of(b), depth)
    }
}

/// Best value over the children reached by playing one of the first `k`
/// cells in row-major order.
pub open spec fn best_child_value(b: Board, turn: Player, is_max: bool, depth: int, k: int) -> int
    decreases empty_count(b), k,
    via best_child_value_decreases
{
    if k <= 0 || k > 9 {
        search_identity(is_max)
    } else {
        let prev = best_child_value(b, turn, is_max, depth, k - 1);
        let r = (k - 1) / 3;
        let c = (k - 1) % 3;
        if cell(b, r, c) is None {
            combine(
                is_max,
                prev,
                minimax_value(place(b, r, c, turn), turn.spec_other(), !is_max, depth + 1),
            )
        } else {
            prev
        }
    }
}

#[via_fn]
proof fn best_child_value_decreases(b: Board, turn: Player, is_max: bool, depth: int, k: int) {
    if !(k <= 0 || k > 9) {
        let r = (k - 1) / 3;
        let c = (k - 1) % 3;
        if cell(b, r, c) is None {
            lemma_place_occupies_one(b, r, c, turn);
        }
    }
}

/// Search values stay within the range of terminal scores.
proof fn lemma_value_bounds(b: Board, turn: Player, is_max: bool, depth: int)
    requires
        0 <= depth,
        depth + empty_count(b) <= 9,
    ensures
        -10 <= minimax_value(b, turn, is_max, depth) <= 10,
    decreases empty_count(b), 10int,
{
    if status_of(b) == GameStatus::InProgress {
        assert(!is_full(b));
        let (r, c) = choose|r: int, c: int| #[trigger] in_range(r, c) && cell(b, r, c) is None;
        assert((3 * r + c) / 3 == r && (3 * r + c) % 3 == c);
        lemma_best_child_bounds(b, turn, is_max, depth, 9);
        assert(-10 <= best_child_value(b, turn, is_max, depth, 9) <= 10);
    }
}

proof fn lemma_best_child_bounds(b: Board, turn: Player, is_max: bool, depth: int, k: int)
    requires
        0 <= depth,
        depth + empty_count(b) <= 9,
        0 <= k <= 9,
    ensures
        best_child_value(b, turn, is_max, depth, k) == search_identity(is_max)
            || -10 <= best_child_value(b, turn, is_max, depth, k) <= 10,
        forall|j: int|
            0 <= j < k && #[trigger] cell(b, j / 3, j % 3) is None
                ==> -10 <= best_child_value(b, turn, is_max, depth, k) <= 10,
    decreases empty_count(b), k,
{
    if k > 0 {
        lemma_best_child_bounds(b, turn, is_max, depth, k - 1);
        let r = (k - 1) / 3;
        let c = (k - 1) % 3;
        if cell(b, r, c) is None {
            lemma_place_occupies_one(b, r, c, turn);
            lemma_value_bounds(place(b, r, c, turn), turn.spec_other(), !is_max, depth + 1);
        }
    }
}

/// Value for `O` of playing `(r, c)` with `turn` to move.
pub open spec fn move_score(b: Board, turn: Player, r: int, c: int) -> int {
    minimax_value(place(b, r, c, turn), turn.spec_other(), turn.spec_other() == Player::O, 0)
}

/// Whether score `a` is strictly better than `s` for the side `turn`:
/// `O` seeks higher scores, `X` lower ones.
pub open spec fn prefers(turn: Player, a: int, s: int) -> bool {
    if turn == Player::O {
        a > s
    } else {
        a < s
    }
}

/// `(r2, c2)` comes before `(r, c)` in row-major order.
pub open spec fn precedes(r2: int, c2: int, r: int, c: int) -> bool {
    r2 < r || (r2 == r && c2 < c)
}

/// `(r, c)` is an empty cell with the best score for `turn`, and the first
/// such cell in row-major order.
pub open spec fn is_best_move(b: Board, turn: Player, r: int, c: int) -> bool {
    &&& in_range(r, c)
    &&& cell(b, r, c) is None
    &&& forall|r2: int, c2: int|
        #[trigger] in_range(r2, c2) && cell(b, r2, c2) is None
            ==> !prefers(turn, move_score(b, turn, r2, c2), move_score(b, turn, r, c))
    &&& forall|r2: int, c2: int|
        #[trigger] in_range(r2, c2) && cell(b, r2, c2) is None && precedes(r2, c2, r, c)
            ==> prefers(turn, move_score(b, turn, r, c), move_score(b, turn, r2, c2))
}

pub open spec fn best_move_of(b: Board, turn: Player, m: Option<(usize, usize)>) -> bool {
    match m {
        None => is_full(b),
        Some((r, c)) => is_best_move(b, turn, r as int, c as int),
    }
}

/// Minimax value of a position for `O`, searched to the end of the game.
fn minimax(game: &Game, is_maximizing: bool, depth: i32) -> (score: i32)
    requires
        0 <= depth,
        depth + empty_count(game.board) <= 9,
    ensures
        score == minimax_value(game.board, game.current_player, is_maximizing, depth as int),
    decreases empty_count(game.board),
{
    proof {
        lemma_value_bounds(game.board, game.current_player, is_maximizing, depth as int);
    }
    match game.check_status() {
        GameStatus::XWins => return -10 + depth,
        GameStatus::OWins => return 10 - depth,
        GameStatus::Draw => return 0,
        GameStatus::InProgress => {},
    }
    let ghost b = game.board;
    let ghost turn = game.current_player;
    let mut best_score: i32 = if is_maximizing {
        i32::MIN
    } else {
        i32::MAX
    };
    let mut row: usize = 0;
    while row < 3
        invariant
            game.board == b,
            game.current_player == turn,
            status_of(b) == GameStatus::InProgress,
            0 <= depth,
            depth + empty_count(b) <= 9,
            row <= 3,
            best_score == best_child_value(b, turn, is_maximizing, depth as int, 3 * row),
        decreases 3 - row,
    {
        let mut col: usize = 0;
        while col < 3
            invariant
                game.board == b,
                game.current_player == turn,
                status_of(b) == GameStatus::InProgress,
                0 <= depth,
                depth + empty_count(b) <= 9,
                row < 3,
                col <= 3,
                best_score == best_child_value(b, turn, is_maximizing, depth as int, 3 * row + col),
            decreases 3 - col,
        {
            let ghost k = 3 * row + col + 1;
            assert((k - 1) / 3 == row && (k - 1) % 3 == col);
            proof {
                lemma_best_child_bounds(b, turn, is_maximizing, depth as int, k);
            }
            if game.board[row][col].is_none() {
                let mut test_game = Game {
                    board: game.board,
                    current_player: game.current_player,
                    game_mode: game.game_mode,
                };
                if test_game.make_move(row, col).is_ok() {
                    proof {
                        lemma_place_occupies_one(b, row as int, col as int, turn);
                        lemma_value_bounds(test_game.board, test_game.current_player, !is_maximizing, depth + 1);
                    }
                    let score = minimax(&test_game, !is_maximizing, depth + 1);
                    if is_maximizing {
                        if score > best_score {
                            best_score = score;
                        }
                    } else {
                        if score < best_score {
                            best_score = score;
                        }
                    }
                }
            }
            col += 1;
        }
        row += 1;
    }
    proof {
        assert(best_child_value(b, turn, is_maximizing, depth as int, 9) == minimax_value(b, turn, is_maximizing, depth as int));
    }
    best_score
}

/// Board reached by playing `moves` in order from `b`, the marks
/// alternating from `turn`.
pub open spec fn replay(b: Board, turn: Player, moves: Seq<(int, int)>) -> Board
    decreases moves.len(),
{
    if moves.len() == 0 {
        b
    } else {
        replay(place(b, moves[0].0, moves[0].1, turn), turn.spec_other(), moves.skip(1))
    }
}

/// Every move of `moves` is in range and targets a cell that is empty when
/// it is played, so that each would be accepted by `Game::make_move`.
pub open spec fn all_legal(b: Board, turn: Player, moves: Seq<(int, int)>) -> bool
    decreases moves.len(),
{
    if moves.len() == 0 {
        true
    } else {
        &&& in_range(moves[0].0, moves[0].1)
        &&& cell(b, moves[0].0, moves[0].1) is None
        &&& all_legal(place(b, moves[0].0, moves[0].1, turn), turn.spec_other(), moves.skip(1))
    }
}

/// After any sequence of accepted moves the board holds exactly one more
/// occupied cell per move; status checks in between change nothing.
pub proof fn lemma_replay_count(b: Board, turn: Player, moves: Seq<(int, int)>)
    requires
        all_legal(b, turn, moves),
    ensures
        occupied_count(replay(b, turn, moves)) == occupied_count(b) + moves.len(),
    decreases moves.len(),
{
    if moves.len() > 0 {
        lemma_place_occupies_one(b, moves[0].0, moves[0].1, turn);
        lemma_replay_count(place(b, moves[0].0, moves[0].1, turn), turn.spec_other(), moves.skip(1));
    }
}

/// The status of a game depends on its board alone: two games with the
/// same board have the same status, whatever their turn and mode.
pub proof fn lemma_status_depends_on_board(g1: Game, g2: Game)
    requires
        g1.board == g2.board,
    ensures
        status_of(g1.board) == status_of(g2.board),
{
}

/// Current position of a game.
pub struct Game {
    pub board: Board,
    pub current_player: Player,
    pub game_mode: GameMode,
}

impl Game {
    /// The mark that opens a game in the given configuration.
    pub open spec fn opening_player(game_mode: GameMode, player_first: Option<bool>) -> Player {
        if game_mode == GameMode::VsAI && player_first == Some(false) {
            Player::O
        } else {
            Player::X
        }
    }

    /// A game on an empty board.
    pub fn new(game_mode: GameMode, player_first: Option<bool>) -> (g: Self)
        ensures
            forall|r: int, c: int| #[trigger] in_range(r, c) ==> cell(g.board, r, c) is None,
            occupied_count(g.board) == 0,
            g.current_player == Self::opening_player(game_mode, player_first),
            g.game_mode == game_mode,
    {
        let current_player = match (game_mode, player_first) {
            (GameMode::VsAI, Some(true)) => Player::X,
            (GameMode::VsAI, Some(false)) => Player::O,
            _ => Player::X,
        };
        Game { board: [[None; 3]; 3], current_player, game_mode }
    }

    /// Writes the mark to move at `(row, col)` and passes the turn.
    pub fn make_move(&mut self, row: usize, col: usize) -> (r: Result<(), MoveError>)
        ensures
            (row >= 3 || col >= 3) ==> r == Err::<(), MoveError>(MoveError::OutOfBounds)
                && *final(self) == *old(self),
            in_range(row as int, col as int) && cell(old(self).board, row as int, col as int) is Some
                ==> r == Err::<(), MoveError>(MoveError::CellOccupied) && *final(self) == *old(self),
            in_range(row as int, col as int) && cell(old(self).board, row as int, col as int) is None
                ==> r is Ok
                && final(self).board == place(old(self).board, row as int, col as int, old(self).current_player)
                && final(self).current_player == old(self).current_player.spec_other()
                && final(self).game_mode == old(self).game_mode
                && occupied_count(final(self).board) == occupied_count(old(self).board) + 1,
    {
        if row >= 3 || col >= 3 {
            return Err(MoveError::OutOfBounds);
        }
        if self.board[row][col].is_some() {
            return Err(MoveError::CellOccupied);
        }
        proof {
            lemma_place_occupies_one(self.board, row as int, col as int, self.current_player);
        }
        let ghost before = self.board;
        self.board[row][col] = Some(self.current_player);
        proof {
            broadcast use vstd::array::group_array_axioms;
            assert(self.board@ =~= place(before, row as int, col as int, self.current_player)@);
        }
        self.current_player = self.current_player.other();
        Ok(())
    }

    /// Status of the current board.
    pub fn check_status(&self) -> (s: GameStatus)
        ensures
            s == status_of(self.board),
    {
        let b = &self.board;
        let mut row: usize = 0;
        while row < 3
            invariant
                *b == self.board,
                row <= 3,
                forall|i: int| 0 <= i < row ==> #[trigger] row_owner(*b, i) is None,
            decreases 3 - row,
        {
            if let Some(player) = b[row][0] {
                if b[row][1] == Some(player) && b[row][2] == Some(player) {
                    assert(row_owner(*b, row as int) == Some(player));
                    assert(row_owner(*b, 0) is None || row == 0);
                    assert(row_owner(*b, 1) is None || row <= 1);
                    return if player == Player::X {
                        GameStatus::XWins
                    } else {
                        GameStatus::OWins
                    };
                }
            }
            row += 1;
        }
        let mut col: usize = 0;
        while col < 3
            invariant
                *b == self.board,
                col <= 3,
                forall|i: int| 0 <= i < 3 ==> #[trigger] row_owner(*b, i) is None,
                forall|j: int| 0 <= j < col ==> #[trigger] col_owner(*b, j) is None,
            decreases 3 - col,
        {
            if let Some(player) = b[0][col] {
                if b[1][col] == Some(player) && b[2][col] == Some(player) {
                    assert(col_owner(*b, col as int) == Some(player));
                    assert(row_owner(*b, 0) is None && row_owner(*b, 1) is None && row_owner(*b, 2) is None);
                    assert(col_owner(*b, 0) is None || col == 0);
                    assert(col_owner(*b, 1) is None || col <= 1);
                    return if player == Player::X {
                        GameStatus::XWins
                    } else {
                        GameStatus::OWins
                    };
                }
            }
            col += 1;
        }
        assert(row_owner(*b, 0) is None && row_owner(*b, 1) is None && row_owner(*b, 2) is None);
        assert(col_owner(*b, 0) is None && col_owner(*b, 1) is None && col_owner(*b, 2) is None);
        if let Some(player) = b[0][0] {
            if b[1][1] == Some(player) && b[2][2] == Some(player) {
                return if player == Player::X {
                    GameStatus::XWins
                } else {
                    GameStatus::OWins
                };
            }
        }
        if let Some(player) = b[0][2] {
            if b[1][1] == Some(player) && b[2][0] == Some(player) {
                return if player == Player::X {
                    GameStatus::XWins
                } else {
                    GameStatus::OWins
                };
            }
        }
        if board_is_full(b) {
            return GameStatus::Draw;
        }
        GameStatus::InProgress
    }

    /// The best cell for the side to move, by exhaustive minimax search.
    pub fn get_best_move(&self) -> (m: Option<(usize, usize)>)
        ensures
            best_move_of(self.board, self.current_player, m),
            m is None <==> is_full(self.board),
            m matches Some((r, c)) ==> r < 3 && c < 3 && cell(self.board, r as int, c as int) is None,
    {
        let ghost b = self.board;
        let ghost turn = self.current_player;
        let is_ai_turn = self.current_player == Player::O;
        let mut best_score: i32 = if is_ai_turn {
            i32::MIN
        } else {
            i32::MAX
        };
        let mut best_move: Option<(usize, usize)> = None;
        let mut row: usize = 0;
        while row < 3
            invariant
                self.board == b,
                self.current_player == turn,
                is_ai_turn == (turn == Player::O),
                row <= 3,
                best_move is None ==> best_score == search_identity(is_ai_turn),
                forall|r2: int, c2: int|
                    #[trigger] in_range(r2, c2) && precedes(r2, c2, row as int, 0) && best_move is None
                        ==> cell(b, r2, c2) is Some,
                match best_move {
                    None => true,
                    Some((br, bc)) => {
                        &&& in_range(br as int, bc as int)
                        &&& cell(b, br as int, bc as int) is None
                        &&& precedes(br as int, bc as int, row as int, 0)
                        &&& best_score == move_score(b, turn, br as int, bc as int)
                        &&& forall|r2: int, c2: int|
                            #[trigger] in_range(r2, c2) && cell(b, r2, c2) is None
                                && precedes(r2, c2, row as int, 0)
                                ==> !prefers(turn, move_score(b, turn, r2, c2), best_score as int)
                        &&& forall|r2: int, c2: int|
                            #[trigger] in_range(r2, c2) && cell(b, r2, c2) is None
                                && precedes(r2, c2, br as int, bc as int)
                                ==> prefers(turn, best_score as int, move_score(b, turn, r2, c2))
                    },
                },
            decreases 3 - row,
        {
            let mut col: usize = 0;
            while col < 3
                invariant
                    self.board == b,
                    self.current_player == turn,
                    is_ai_turn == (turn == Player::O),
                    row < 3,
                    col <= 3,
                    best_move is None ==> best_score == search_identity(is_ai_turn),
                    forall|r2: int, c2: int|
                        #[trigger] in_range(r2, c2) && precedes(r2, c2, row as int, col as int)
                            && best_move is None ==> cell(b, r2, c2) is Some,
                    match best_move {
                        None => true,
                        Some((br, bc)) => {
                            &&& in_range(br as int, bc as int)
                            &&& cell(b, br as int, bc as int) is None
                            &&& precedes(br as int, bc as int, row as int, col as int)
                            &&& best_score == move_score(b, turn, br as int, bc as int)
                            &&& forall|r2: int, c2: int|
                                #[trigger] in_range(r2, c2) && cell(b, r2, c2) is None
                                    && precedes(r2, c2, row as int, col as int)
                                    ==> !prefers(turn, move_score(b, turn, r2, c2), best_score as int)
                            &&& forall|r2: int, c2: int|
                                #[trigger] in_range(r2, c2) && cell(b, r2, c2) is None
                                    && precedes(r2, c2, br as int, bc as int)
                                    ==> prefers(turn, best_score as int, move_score(b, turn, r2, c2))
                        },
                    },
                decreases 3 - col,
            {
                if self.board[row][col].is_none() {
                    let mut test_game = Game {
                        board: self.board,
                        current_player: self.current_player,
                        game_mode: self.game_mode,
                    };
                    if test_game.make_move(row, col).is_ok() {
                        proof {
                            lemma_place_occupies_one(b, row as int, col as int, turn);
                            lemma_value_bounds(test_game.board, test_game.current_player, !is_ai_turn, 0);
                        }
                        let score = minimax(&test_game, !is_ai_turn, 0);
                        let better = if is_ai_turn {
                            score > best_score
                        } else {
                            score < best_score
                        };
                        if better {
                            best_score = score;
                            best_move = Some((row, col));
                        }
                    }
                }
                col += 1;
            }
            row += 1;
        }
        best_move
    }
}

} // verus!
