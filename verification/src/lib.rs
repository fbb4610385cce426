//! Authoritative logic for a two-player, stake-backed Gomoku match:
//! session creation, matchmaking, turn-based play, five-in-a-row detection,
//! and settlement of the wagered stake.
//!
//! All state lives in one [`store::GameStore`] value threaded through every
//! operation: the session table, the open and started listings, the hosting
//! and playing lookups, the per-game boards and turn records, the ended-game
//! archive, and the ledger the stakes move against. Each operation carries a
//! contract that says exactly which inputs succeed, which error every other
//! input returns, and how the store changes; a failed operation changes
//! nothing. The well-formedness predicate `GameStore::wf` ties the pieces
//! together — unique keys, indices that agree with the session table, one
//! active role per identity — and every operation preserves it; [`laws`]
//! derives the at-most-one-session guarantees from it.
//!
//! Identifier minting hashes fresh entropy with the block height through an
//! outside BLAKE2b digest; everything else is verified down to the byte.

use vstd::prelude::*;

mod assoc;
pub mod board;
pub mod ids;
pub mod laws;
pub mod store;
pub mod types;

pub use board::check_winner;
pub use ids::gen_id;
pub use store::{EndedGame, GameStore, Session, run_to_block};
pub use types::{GameError, GameStatus, MoveOutcome};

verus! {

/// A 32-byte session identifier, assigned once and never reused.
pub type GameId = [u8; 32];

/// A 32-byte account identifier, supplied by the outer authentication layer.
pub type AccountId = [u8; 32];

/// Compares two 32-byte identifiers for equality.
pub fn bytes32_eq(a: &[u8; 32], b: &[u8; 32]) -> (r: bool)
    ensures
        r == (a@ == b@),
{
    let mut i: usize = 0;
    while i < 32
        invariant
            i <= 32,
            forall|j: int| 0 <= j < i ==> a@[j] == b@[j],
        decreases 32 - i,
    {
        if a[i] != b[i] {
            return false;
        }
        i = i + 1;
    }
    proof {
        assert(a@ =~= b@);
    }
    true
}

} // verus!
