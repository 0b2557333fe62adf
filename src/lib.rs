// Tic-tac-toe: board rules and an exhaustive minimax opponent.
pub mod game;
pub mod session;
