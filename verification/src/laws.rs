//! Laws of the session registry that span several operations: one identity
//! occupies at most one role at a time, and a session lives in at most one
//! lifecycle index at a time.

use vstd::prelude::*;
use crate::store::{
    GameStore, ended_has, hosting_at, ids_has, playing_at, roster_has, session_with_status,
};
use crate::types::GameStatus;

verus! {

/// A session identifier appears in at most one of the open index, the
/// started index, and the ended archive at a time.
pub proof fn lemma_indices_disjoint(s: GameStore, g: Seq<u8>)
    requires
        s.wf(),
    ensures
        !(ids_has(s.game_open@, g) && ids_has(s.game_start@, g)),
        ids_has(s.game_open@, g) ==> !ended_has(s.ended@, g),
        ids_has(s.game_start@, g) ==> !ended_has(s.ended@, g),
{
    if ids_has(s.game_open@, g) && ids_has(s.game_start@, g) {
        let a = choose|a: int| 0 <= a < s.game_open@.len() && s.game_open@[a]@ == g;
        assert(session_with_status(s.sessions@, g, GameStatus::Open));
        let b = choose|b: int| 0 <= b < s.game_start@.len() && s.game_start@[b]@ == g;
        assert(session_with_status(s.sessions@, g, GameStatus::Start));
        let i = choose|i: int|
            0 <= i < s.sessions@.len() && s.sessions@[i].id@ == g && s.sessions@[i].status
                == GameStatus::Open;
        let j = choose|j: int|
            0 <= j < s.sessions@.len() && s.sessions@[j].id@ == g && s.sessions@[j].status
                == GameStatus::Start;
        if i != j {
            if i < j {
                assert(s.sessions@[i].id@ != s.sessions@[j].id@);
            } else {
                assert(s.sessions@[j].id@ != s.sessions@[i].id@);
            }
        }
    }
    if ids_has(s.game_open@, g) && ended_has(s.ended@, g) {
        let a = choose|a: int| 0 <= a < s.game_open@.len() && s.game_open@[a]@ == g;
        assert(session_with_status(s.sessions@, g, GameStatus::Open));
        let i = choose|i: int|
            0 <= i < s.sessions@.len() && s.sessions@[i].id@ == g && s.sessions@[i].status
                == GameStatus::Open;
        assert(s.sessions_ok());
        assert(!ended_has(s.ended@, s.sessions@[i].id@));
    }
    if ids_has(s.game_start@, g) && ended_has(s.ended@, g) {
        let b = choose|b: int| 0 <= b < s.game_start@.len() && s.game_start@[b]@ == g;
        assert(session_with_status(s.sessions@, g, GameStatus::Start));
        let j = choose|j: int|
            0 <= j < s.sessions@.len() && s.sessions@[j].id@ == g && s.sessions@[j].status
                == GameStatus::Start;
        assert(s.sessions_ok());
        assert(!ended_has(s.ended@, s.sessions@[j].id@));
    }
}

/// An identity hosts at most one active session: in a well-formed store,
/// two recorded sessions with the same host are the same record. Together
/// with the hosting index mapping each identity to one identifier, an
/// identity cannot appear as host of two different sessions.
pub proof fn lemma_host_at_most_one_session(s: GameStore, i: int, j: int)
    requires
        s.wf(),
        0 <= i < s.sessions@.len(),
        0 <= j < s.sessions@.len(),
        s.sessions@[i].host@ == s.sessions@[j].host@,
    ensures
        i == j,
{
    if i != j {
        assert(s.sessions_ok());
        assert(hosting_at(s.hosting@, s.sessions@[i].host@, s.sessions@[i].id@));
        assert(hosting_at(s.hosting@, s.sessions@[j].host@, s.sessions@[j].id@));
        let a = choose|a: int|
            0 <= a < s.hosting@.len() && s.hosting@[a].host@ == s.sessions@[i].host@
                && s.hosting@[a].game@ == s.sessions@[i].id@;
        let b = choose|b: int|
            0 <= b < s.hosting@.len() && s.hosting@[b].host@ == s.sessions@[j].host@
                && s.hosting@[b].game@ == s.sessions@[j].id@;
        if a != b {
            if a < b {
                assert(s.hosting@[a].host@ != s.hosting@[b].host@);
            } else {
                assert(s.hosting@[b].host@ != s.hosting@[a].host@);
            }
        }
        assert(s.sessions@[i].id@ == s.sessions@[j].id@);
        if i < j {
            assert(s.sessions@[i].id@ != s.sessions@[j].id@);
        } else {
            assert(s.sessions@[j].id@ != s.sessions@[i].id@);
        }
    }
}

/// An identity plays in at most one active session: in a well-formed store,
/// two recorded sessions whose rosters share a member are the same record.
pub proof fn lemma_player_at_most_one_session(s: GameStore, i: int, j: int, q: Seq<u8>)
    requires
        s.wf(),
        0 <= i < s.sessions@.len(),
        0 <= j < s.sessions@.len(),
        roster_has(s.sessions@[i].roster@, q),
        roster_has(s.sessions@[j].roster@, q),
    ensures
        i == j,
{
    if i != j {
        assert(s.sessions_ok());
        let ki = choose|k: int|
            0 <= k < s.sessions@[i].roster@.len() && s.sessions@[i].roster@[k]@ == q;
        let kj = choose|k: int|
            0 <= k < s.sessions@[j].roster@.len() && s.sessions@[j].roster@[k]@ == q;
        assert(playing_at(s.playing@, s.sessions@[i].roster@[ki]@, s.sessions@[i].id@));
        assert(playing_at(s.playing@, s.sessions@[j].roster@[kj]@, s.sessions@[j].id@));
        let a = choose|a: int|
            0 <= a < s.playing@.len() && s.playing@[a].player@ == q && s.playing@[a].game@
                == s.sessions@[i].id@;
        let b = choose|b: int|
            0 <= b < s.playing@.len() && s.playing@[b].player@ == q && s.playing@[b].game@
                == s.sessions@[j].id@;
        if a != b {
            if a < b {
                assert(s.playing@[a].player@ != s.playing@[b].player@);
            } else {
                assert(s.playing@[b].player@ != s.playing@[a].player@);
            }
        }
        assert(s.sessions@[i].id@ == s.sessions@[j].id@);
        if i < j {
            assert(s.sessions@[i].id@ != s.sessions@[j].id@);
        } else {
            assert(s.sessions@[j].id@ != s.sessions@[i].id@);
        }
    }
}

} // verus!
