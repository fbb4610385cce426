//! Error taxonomy, lifecycle states, and move outcomes.

use vstd::prelude::*;

verus! {

/// Typed failures returned to the caller; none is fatal, callers may resubmit.
#[derive(Clone, Copy, PartialEq, Eq, Structural, Debug)]
pub enum GameError {
    /// A freshly minted identifier collides with one already assigned.
    IdAlreadyUsed,
    /// The identity already hosts a session.
    HostAlreadyHosting,
    /// The bounded open-session index is full.
    OpenSlotsExceeded,
    /// No session with the given identifier exists.
    SessionNotFound,
    /// The session is not in the open-session index.
    SessionNotOpen,
    /// The identity already plays in an active session.
    PlayerAlreadyPlaying,
    /// The roster already holds the configured max player count.
    RosterFull,
    /// The caller has no active session to start.
    CallerNotPlaying,
    /// The roster length differs from the configured max player count.
    NotEnoughPlayers,
    /// The caller has no active session to play in.
    PlayerNotPlaying,
    /// The session has no active board or turn record.
    NoActiveGame,
    /// A coordinate lies outside the board.
    CoordinateOutOfRange,
    /// It is not the mover's turn.
    NotYourTurn,
    /// The target cell already holds a mark.
    CellOccupied,
    /// The ended-game archive is at capacity.
    ArchiveFull,
    /// The configured max player count does not fit the board's mark domain.
    InvalidMaxPlayer,
    /// The available balance cannot cover the withdrawal.
    InsufficientFunds,
    /// The payout target has no existing balance record.
    DepositFailed,
}

/// Lifecycle of a session; `End` is never stored, an ended session moves to
/// the archive.
#[derive(Clone, Copy, PartialEq, Eq, Structural, Debug)]
pub enum GameStatus {
    Open,
    Start,
    End,
}

/// What an accepted move produced.
#[derive(Clone, Copy, PartialEq, Eq, Structural, Debug)]
pub enum MoveOutcome {
    Continued,
    Won,
}

} // verus!
