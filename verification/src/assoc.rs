//! How the association lists respond to appending, replacing and removing
//! entries: the membership and uniqueness lemmas behind the store's
//! well-formedness proofs.

use vstd::prelude::*;
use crate::{AccountId, GameId};
use crate::store::{
    BalanceEntry, BoardEntry, EndedGame, GameStore, HostEntry, PlayEntry, Session, TurnEntry,
    balance_of, boards_has, boards_unique, ended_has, ended_unique, hosting_at, hosting_has,
    hosting_unique, ids_has, ids_unique, ledger_has, ledger_unique, playing_at, playing_has,
    playing_unique, roster_has, session_of_host, session_ok, session_with_member,
    session_with_status, sessions_has, sessions_unique, started_session_with_member,
    turns_at, turns_has, turns_unique,
};
use crate::types::GameStatus;

verus! {

// Appending an entry to an association list extends its membership by
// exactly that entry's key.

pub(crate) proof fn lemma_sessions_push(s: Seq<Session>, e: Session)
    ensures
        forall|id: Seq<u8>| #[trigger] sessions_has(s.push(e), id) <==> (sessions_has(s, id) || id
            == e.id@),
        forall|id: Seq<u8>, st: GameStatus| #[trigger] session_with_status(s.push(e), id, st) <==> (
        session_with_status(s, id, st) || (id == e.id@ && st == e.status)),
        forall|id: Seq<u8>, w: Seq<u8>| #[trigger] session_of_host(s.push(e), id, w) <==> (
        session_of_host(s, id, w) || (id == e.id@ && w == e.host@)),
        forall|id: Seq<u8>, w: Seq<u8>| #[trigger] session_with_member(s.push(e), id, w) <==> (
        session_with_member(s, id, w) || (id == e.id@ && roster_has(e.roster@, w))),
        forall|id: Seq<u8>, w: Seq<u8>| #[trigger] started_session_with_member(s.push(e), id, w)
            <==> (started_session_with_member(s, id, w) || (id == e.id@ && e.status
            == GameStatus::Start && roster_has(e.roster@, w))),
{
    let t = s.push(e);
    let last = s.len() as int;
    assert(t[last] == e);
    assert(forall|i: int| 0 <= i < s.len() ==> t[i] == s[i]);
    assert forall|id: Seq<u8>| #[trigger] sessions_has(t, id) implies (sessions_has(s, id) || id
        == e.id@) by {
        let i = choose|i: int| 0 <= i < t.len() && t[i].id@ == id;
        if i < last {
            assert(s[i].id@ == id);
        }
    }
    assert forall|id: Seq<u8>| sessions_has(s, id) implies sessions_has(t, id) by {
        let i = choose|i: int| 0 <= i < s.len() && s[i].id@ == id;
        assert(t[i].id@ == id);
    }
    assert forall|id: Seq<u8>, st: GameStatus| #[trigger] session_with_status(t, id, st) implies (
    session_with_status(s, id, st) || (id == e.id@ && st == e.status)) by {
        let i = choose|i: int| 0 <= i < t.len() && t[i].id@ == id && t[i].status == st;
        if i < last {
            assert(s[i].id@ == id && s[i].status == st);
        }
    }
    assert forall|id: Seq<u8>, st: GameStatus| session_with_status(s, id, st) implies
        session_with_status(t, id, st) by {
        let i = choose|i: int| 0 <= i < s.len() && s[i].id@ == id && s[i].status == st;
        assert(t[i].id@ == id && t[i].status == st);
    }
    assert forall|id: Seq<u8>, w: Seq<u8>| #[trigger] session_of_host(t, id, w) implies (
    session_of_host(s, id, w) || (id == e.id@ && w == e.host@)) by {
        let i = choose|i: int| 0 <= i < t.len() && t[i].id@ == id && t[i].host@ == w;
        if i < last {
            assert(s[i].id@ == id && s[i].host@ == w);
        }
    }
    assert forall|id: Seq<u8>, w: Seq<u8>| session_of_host(s, id, w) implies session_of_host(
        t,
        id,
        w,
    ) by {
        let i = choose|i: int| 0 <= i < s.len() && s[i].id@ == id && s[i].host@ == w;
        assert(t[i].id@ == id && t[i].host@ == w);
    }
    assert forall|id: Seq<u8>, w: Seq<u8>| #[trigger] session_with_member(t, id, w) implies (
    session_with_member(s, id, w) || (id == e.id@ && roster_has(e.roster@, w))) by {
        let i = choose|i: int| 0 <= i < t.len() && t[i].id@ == id && roster_has(t[i].roster@, w);
        if i < last {
            assert(s[i].id@ == id && roster_has(s[i].roster@, w));
        }
    }
    assert forall|id: Seq<u8>, w: Seq<u8>| session_with_member(s, id, w) implies
        session_with_member(t, id, w) by {
        let i = choose|i: int| 0 <= i < s.len() && s[i].id@ == id && roster_has(s[i].roster@, w);
        assert(t[i].id@ == id && roster_has(t[i].roster@, w));
    }
    assert forall|id: Seq<u8>, w: Seq<u8>| #[trigger] started_session_with_member(t, id, w) implies
        (started_session_with_member(s, id, w) || (id == e.id@ && e.status == GameStatus::Start
        && roster_has(e.roster@, w))) by {
        let i = choose|i: int|
            0 <= i < t.len() && t[i].id@ == id && t[i].status == GameStatus::Start && roster_has(
                t[i].roster@,
                w,
            );
        if i < last {
            assert(s[i].id@ == id && s[i].status == GameStatus::Start && roster_has(
                s[i].roster@,
                w,
            ));
        }
    }
    assert forall|id: Seq<u8>, w: Seq<u8>| started_session_with_member(s, id, w) implies
        started_session_with_member(t, id, w) by {
        let i = choose|i: int|
            0 <= i < s.len() && s[i].id@ == id && s[i].status == GameStatus::Start && roster_has(
                s[i].roster@,
                w,
            );
        assert(t[i].id@ == id && t[i].status == GameStatus::Start && roster_has(t[i].roster@, w));
    }
}

/// With unique identifiers, the record at index `i` answers every lookup of
/// its identifier.
pub(crate) proof fn lemma_session_lookup(s: Seq<Session>, i: int)
    requires
        sessions_unique(s),
        0 <= i < s.len(),
    ensures
        forall|st: GameStatus| #[trigger] session_with_status(s, s[i].id@, st) ==> st
            == s[i].status,
        forall|w: Seq<u8>| #[trigger] session_of_host(s, s[i].id@, w) ==> w == s[i].host@,
        forall|q: Seq<u8>| #[trigger] session_with_member(s, s[i].id@, q) ==> roster_has(
            s[i].roster@,
            q,
        ),
        forall|q: Seq<u8>| #[trigger] started_session_with_member(s, s[i].id@, q) ==> (s[i].status
            == GameStatus::Start && roster_has(s[i].roster@, q)),
{
    assert forall|st: GameStatus| #[trigger] session_with_status(s, s[i].id@, st) implies st
        == s[i].status by {
        let j = choose|j: int| 0 <= j < s.len() && s[j].id@ == s[i].id@ && s[j].status == st;
        if j != i {
            if j < i {
                assert(s[j].id@ != s[i].id@);
            } else {
                assert(s[i].id@ != s[j].id@);
            }
        }
    }
    assert forall|w: Seq<u8>| #[trigger] session_of_host(s, s[i].id@, w) implies w
        == s[i].host@ by {
        let j = choose|j: int| 0 <= j < s.len() && s[j].id@ == s[i].id@ && s[j].host@ == w;
        if j != i {
            if j < i {
                assert(s[j].id@ != s[i].id@);
            } else {
                assert(s[i].id@ != s[j].id@);
            }
        }
    }
    assert forall|q: Seq<u8>| #[trigger] session_with_member(s, s[i].id@, q) implies roster_has(
        s[i].roster@,
        q,
    ) by {
        let j = choose|j: int|
            0 <= j < s.len() && s[j].id@ == s[i].id@ && roster_has(s[j].roster@, q);
        if j != i {
            if j < i {
                assert(s[j].id@ != s[i].id@);
            } else {
                assert(s[i].id@ != s[j].id@);
            }
        }
    }
    assert forall|q: Seq<u8>| #[trigger] started_session_with_member(s, s[i].id@, q) implies (
    s[i].status == GameStatus::Start && roster_has(s[i].roster@, q)) by {
        let j = choose|j: int|
            0 <= j < s.len() && s[j].id@ == s[i].id@ && s[j].status == GameStatus::Start
                && roster_has(s[j].roster@, q);
        if j != i {
            if j < i {
                assert(s[j].id@ != s[i].id@);
            } else {
                assert(s[i].id@ != s[j].id@);
            }
        }
    }
}

/// Replacing the record at index `i` by one with the same identifier
/// rewrites every lookup of that identifier and leaves the rest alone.
pub(crate) proof fn lemma_sessions_update(s: Seq<Session>, i: int, e: Session)
    requires
        sessions_unique(s),
        0 <= i < s.len(),
        e.id@ == s[i].id@,
    ensures
        sessions_unique(s.update(i, e)),
        forall|id: Seq<u8>| #[trigger] sessions_has(s.update(i, e), id) <==> sessions_has(s, id),
        forall|id: Seq<u8>, st: GameStatus| #[trigger] session_with_status(s.update(i, e), id, st)
            <==> (if id == e.id@ {
            st == e.status
        } else {
            session_with_status(s, id, st)
        }),
        forall|id: Seq<u8>, w: Seq<u8>| #[trigger] session_of_host(s.update(i, e), id, w) <==> (if id
            == e.id@ {
            w == e.host@
        } else {
            session_of_host(s, id, w)
        }),
        forall|id: Seq<u8>, q: Seq<u8>| #[trigger] session_with_member(s.update(i, e), id, q) <==> (
        if id == e.id@ {
            roster_has(e.roster@, q)
        } else {
            session_with_member(s, id, q)
        }),
        forall|id: Seq<u8>, q: Seq<u8>| #[trigger] started_session_with_member(
            s.update(i, e),
            id,
            q,
        ) <==> (if id == e.id@ {
            e.status == GameStatus::Start && roster_has(e.roster@, q)
        } else {
            started_session_with_member(s, id, q)
        }),
{
    let t = s.update(i, e);
    assert(t[i] == e);
    assert(forall|j: int| 0 <= j < s.len() && j != i ==> t[j] == s[j]);
    assert forall|j: int, k: int| 0 <= j < k < t.len() implies t[j].id@ != t[k].id@ by {
        if j != i && k != i {
            assert(s[j].id@ != s[k].id@);
        } else if j == i {
            assert(s[j].id@ != s[k].id@);
        } else {
            assert(s[j].id@ != s[k].id@);
        }
    }
    assert forall|id: Seq<u8>| #[trigger] sessions_has(t, id) implies sessions_has(s, id) by {
        let j = choose|j: int| 0 <= j < t.len() && t[j].id@ == id;
        if j == i {
            assert(s[i].id@ == id);
        } else {
            assert(s[j].id@ == id);
        }
    }
    assert forall|id: Seq<u8>| sessions_has(s, id) implies sessions_has(t, id) by {
        let j = choose|j: int| 0 <= j < s.len() && s[j].id@ == id;
        if j == i {
            assert(t[i].id@ == id);
        } else {
            assert(t[j].id@ == id);
        }
    }
    assert forall|id: Seq<u8>, st: GameStatus| #[trigger] session_with_status(t, id, st) implies (
    if id == e.id@ {
        st == e.status
    } else {
        session_with_status(s, id, st)
    }) by {
        let j = choose|j: int| 0 <= j < t.len() && t[j].id@ == id && t[j].status == st;
        if j == i {
        } else {
            assert(s[j].id@ == id && s[j].status == st);
            if id == e.id@ {
                if j < i {
                    assert(s[j].id@ != s[i].id@);
                } else {
                    assert(s[i].id@ != s[j].id@);
                }
            }
        }
    }
    assert forall|id: Seq<u8>, st: GameStatus| (if id == e.id@ {
        st == e.status
    } else {
        session_with_status(s, id, st)
    }) implies session_with_status(t, id, st) by {
        if id == e.id@ {
            assert(t[i].id@ == id && t[i].status == st);
        } else {
            let j = choose|j: int| 0 <= j < s.len() && s[j].id@ == id && s[j].status == st;
            assert(j != i);
            assert(t[j].id@ == id && t[j].status == st);
        }
    }
    assert forall|id: Seq<u8>, w: Seq<u8>| #[trigger] session_of_host(t, id, w) implies (if id
        == e.id@ {
        w == e.host@
    } else {
        session_of_host(s, id, w)
    }) by {
        let j = choose|j: int| 0 <= j < t.len() && t[j].id@ == id && t[j].host@ == w;
        if j == i {
        } else {
            assert(s[j].id@ == id && s[j].host@ == w);
            if id == e.id@ {
                if j < i {
                    assert(s[j].id@ != s[i].id@);
                } else {
                    assert(s[i].id@ != s[j].id@);
                }
            }
        }
    }
    assert forall|id: Seq<u8>, w: Seq<u8>| (if id == e.id@ {
        w == e.host@
    } else {
        session_of_host(s, id, w)
    }) implies session_of_host(t, id, w) by {
        if id == e.id@ {
            assert(t[i].id@ == id && t[i].host@ == w);
        } else {
            let j = choose|j: int| 0 <= j < s.len() && s[j].id@ == id && s[j].host@ == w;
            assert(j != i);
            assert(t[j].id@ == id && t[j].host@ == w);
        }
    }
    assert forall|id: Seq<u8>, q: Seq<u8>| #[trigger] session_with_member(t, id, q) implies (if id
        == e.id@ {
        roster_has(e.roster@, q)
    } else {
        session_with_member(s, id, q)
    }) by {
        let j = choose|j: int| 0 <= j < t.len() && t[j].id@ == id && roster_has(t[j].roster@, q);
        if j == i {
        } else {
            assert(s[j].id@ == id && roster_has(s[j].roster@, q));
            if id == e.id@ {
                if j < i {
                    assert(s[j].id@ != s[i].id@);
                } else {
                    assert(s[i].id@ != s[j].id@);
                }
            }
        }
    }
    assert forall|id: Seq<u8>, q: Seq<u8>| (if id == e.id@ {
        roster_has(e.roster@, q)
    } else {
        session_with_member(s, id, q)
    }) implies session_with_member(t, id, q) by {
        if id == e.id@ {
            assert(t[i].id@ == id && roster_has(t[i].roster@, q));
        } else {
            let j = choose|j: int|
                0 <= j < s.len() && s[j].id@ == id && roster_has(s[j].roster@, q);
            assert(j != i);
            assert(t[j].id@ == id && roster_has(t[j].roster@, q));
        }
    }
    assert forall|id: Seq<u8>, q: Seq<u8>| #[trigger] started_session_with_member(t, id, q) implies
        (if id == e.id@ {
        e.status == GameStatus::Start && roster_has(e.roster@, q)
    } else {
        started_session_with_member(s, id, q)
    }) by {
        let j = choose|j: int|
            0 <= j < t.len() && t[j].id@ == id && t[j].status == GameStatus::Start && roster_has(
                t[j].roster@,
                q,
            );
        if j == i {
        } else {
            assert(s[j].id@ == id && s[j].status == GameStatus::Start && roster_has(
                s[j].roster@,
                q,
            ));
            if id == e.id@ {
                if j < i {
                    assert(s[j].id@ != s[i].id@);
                } else {
                    assert(s[i].id@ != s[j].id@);
                }
            }
        }
    }
    assert forall|id: Seq<u8>, q: Seq<u8>| (if id == e.id@ {
        e.status == GameStatus::Start && roster_has(e.roster@, q)
    } else {
        started_session_with_member(s, id, q)
    }) implies started_session_with_member(t, id, q) by {
        if id == e.id@ {
            assert(t[i].id@ == id && t[i].status == GameStatus::Start && roster_has(
                t[i].roster@,
                q,
            ));
        } else {
            let j = choose|j: int|
                0 <= j < s.len() && s[j].id@ == id && s[j].status == GameStatus::Start
                    && roster_has(s[j].roster@, q);
            assert(j != i);
            assert(t[j].id@ == id && t[j].status == GameStatus::Start && roster_has(
                t[j].roster@,
                q,
            ));
        }
    }
}

/// Removing the identifier at index `i` by swapping in the last entry and
/// truncating drops exactly that identifier from the listing.
pub(crate) proof fn lemma_ids_swap_remove(s: Seq<GameId>, i: int)
    requires
        ids_unique(s),
        0 <= i < s.len(),
    ensures
        ids_unique(s.update(i, s.last()).drop_last()),
        forall|id: Seq<u8>| #[trigger] ids_has(s.update(i, s.last()).drop_last(), id) <==> (
        ids_has(s, id) && id != s[i]@),
{
    let t = s.update(i, s.last()).drop_last();
    let last = s.len() - 1;
    assert(forall|j: int| 0 <= j < t.len() && j != i ==> t[j] == s[j]);
    assert(i < last ==> t[i] == s[last]);
    assert forall|id: Seq<u8>| #[trigger] ids_has(t, id) implies (ids_has(s, id) && id
        != s[i]@) by {
        let j = choose|j: int| 0 <= j < t.len() && t[j]@ == id;
        if j == i {
            assert(s[last]@ == id);
            assert(i < last);
            assert(s[i]@ != s[last]@);
        } else {
            assert(s[j]@ == id);
            if id == s[i]@ {
                if j < i {
                    assert(s[j]@ != s[i]@);
                } else {
                    assert(s[i]@ != s[j]@);
                }
            }
        }
    }
    assert forall|id: Seq<u8>| ids_has(s, id) && id != s[i]@ implies ids_has(t, id) by {
        let j = choose|j: int| 0 <= j < s.len() && s[j]@ == id;
        if j == last {
            assert(j != i);
            assert(i < last);
            assert(t[i]@ == id);
        } else if j == i {
            assert(false);
        } else {
            assert(t[j]@ == id);
        }
    }
    assert forall|a: int, b: int| 0 <= a < b < t.len() implies t[a]@ != t[b]@ by {
        if a == i {
            assert(i < last);
            assert(t[a] == s[last]);
            assert(s[b]@ != s[last]@);
        } else if b == i {
            assert(i < last);
            assert(t[b] == s[last]);
            assert(s[a]@ != s[last]@);
        } else {
            assert(s[a]@ != s[b]@);
        }
    }
}

/// Removing the session at index `i` drops exactly its identifier from
/// every lookup.
pub(crate) proof fn lemma_sessions_remove_at(s: Seq<Session>, i: int)
    requires
        sessions_unique(s),
        0 <= i < s.len(),
    ensures
        sessions_unique(s.remove(i)),
        forall|id: Seq<u8>| #[trigger] sessions_has(s.remove(i), id) <==> (sessions_has(s, id) && id
            != s[i].id@),
        forall|id: Seq<u8>, st: GameStatus| #[trigger] session_with_status(s.remove(i), id, st)
            <==> (session_with_status(s, id, st) && id != s[i].id@),
        forall|id: Seq<u8>, w: Seq<u8>| #[trigger] session_of_host(s.remove(i), id, w) <==> (
        session_of_host(s, id, w) && id != s[i].id@),
        forall|id: Seq<u8>, q: Seq<u8>| #[trigger] session_with_member(s.remove(i), id, q) <==> (
        session_with_member(s, id, q) && id != s[i].id@),
        forall|id: Seq<u8>, q: Seq<u8>| #[trigger] started_session_with_member(s.remove(i), id, q)
            <==> (started_session_with_member(s, id, q) && id != s[i].id@),
{
    let t = s.remove(i);
    assert(forall|j: int| 0 <= j < i ==> t[j] == s[j]);
    assert(forall|j: int| i <= j < t.len() ==> t[j] == s[j + 1]);
    assert forall|a: int, b: int| 0 <= a < b < t.len() implies t[a].id@ != t[b].id@ by {
        let a2: int = if a < i {
            a
        } else {
            a + 1
        };
        let b2: int = if b < i {
            b
        } else {
            b + 1
        };
        assert(s[a2].id@ != s[b2].id@);
    }
    assert forall|id: Seq<u8>| #[trigger] sessions_has(t, id) implies (sessions_has(s, id) && id
        != s[i].id@) by {
        let j = choose|j: int| 0 <= j < t.len() && t[j].id@ == id;
        let j2: int = if j < i {
            j
        } else {
            j + 1
        };
        assert(s[j2].id@ == id);
        if j2 < i {
            assert(s[j2].id@ != s[i].id@);
        } else {
            assert(s[i].id@ != s[j2].id@);
        }
    }
    assert forall|id: Seq<u8>| sessions_has(s, id) && id != s[i].id@ implies sessions_has(
        t,
        id,
    ) by {
        let j = choose|j: int| 0 <= j < s.len() && s[j].id@ == id;
        assert(j != i);
        if j < i {
            assert(t[j].id@ == id);
        } else {
            assert(t[j - 1].id@ == id);
        }
    }
    assert forall|id: Seq<u8>, st: GameStatus| #[trigger] session_with_status(t, id, st) implies (
    session_with_status(s, id, st) && id != s[i].id@) by {
        let j = choose|j: int| 0 <= j < t.len() && t[j].id@ == id && t[j].status == st;
        let j2: int = if j < i {
            j
        } else {
            j + 1
        };
        assert(s[j2].id@ == id && s[j2].status == st);
        if j2 < i {
            assert(s[j2].id@ != s[i].id@);
        } else {
            assert(s[i].id@ != s[j2].id@);
        }
    }
    assert forall|id: Seq<u8>, st: GameStatus| session_with_status(s, id, st) && id != s[i].id@
        implies session_with_status(t, id, st) by {
        let j = choose|j: int| 0 <= j < s.len() && s[j].id@ == id && s[j].status == st;
        assert(j != i);
        if j < i {
            assert(t[j].id@ == id && t[j].status == st);
        } else {
            assert(t[j - 1].id@ == id && t[j - 1].status == st);
        }
    }
    assert forall|id: Seq<u8>, w: Seq<u8>| #[trigger] session_of_host(t, id, w) implies (
    session_of_host(s, id, w) && id != s[i].id@) by {
        let j = choose|j: int| 0 <= j < t.len() && t[j].id@ == id && t[j].host@ == w;
        let j2: int = if j < i {
            j
        } else {
            j + 1
        };
        assert(s[j2].id@ == id && s[j2].host@ == w);
        if j2 < i {
            assert(s[j2].id@ != s[i].id@);
        } else {
            assert(s[i].id@ != s[j2].id@);
        }
    }
    assert forall|id: Seq<u8>, w: Seq<u8>| session_of_host(s, id, w) && id != s[i].id@ implies
        session_of_host(t, id, w) by {
        let j = choose|j: int| 0 <= j < s.len() && s[j].id@ == id && s[j].host@ == w;
        assert(j != i);
        if j < i {
            assert(t[j].id@ == id && t[j].host@ == w);
        } else {
            assert(t[j - 1].id@ == id && t[j - 1].host@ == w);
        }
    }
    assert forall|id: Seq<u8>, q: Seq<u8>| #[trigger] session_with_member(t, id, q) implies (
    session_with_member(s, id, q) && id != s[i].id@) by {
        let j = choose|j: int| 0 <= j < t.len() && t[j].id@ == id && roster_has(t[j].roster@, q);
        let j2: int = if j < i {
            j
        } else {
            j + 1
        };
        assert(s[j2].id@ == id && roster_has(s[j2].roster@, q));
        if j2 < i {
            assert(s[j2].id@ != s[i].id@);
        } else {
            assert(s[i].id@ != s[j2].id@);
        }
    }
    assert forall|id: Seq<u8>, q: Seq<u8>| session_with_member(s, id, q) && id != s[i].id@ implies
        session_with_member(t, id, q) by {
        let j = choose|j: int| 0 <= j < s.len() && s[j].id@ == id && roster_has(s[j].roster@, q);
        assert(j != i);
        if j < i {
            assert(t[j].id@ == id && roster_has(t[j].roster@, q));
        } else {
            assert(t[j - 1].id@ == id && roster_has(t[j - 1].roster@, q));
        }
    }
    assert forall|id: Seq<u8>, q: Seq<u8>| #[trigger] started_session_with_member(t, id, q) implies
        (started_session_with_member(s, id, q) && id != s[i].id@) by {
        let j = choose|j: int|
            0 <= j < t.len() && t[j].id@ == id && t[j].status == GameStatus::Start && roster_has(
                t[j].roster@,
                q,
            );
        let j2: int = if j < i {
            j
        } else {
            j + 1
        };
        assert(s[j2].id@ == id && s[j2].status == GameStatus::Start && roster_has(
            s[j2].roster@,
            q,
        ));
        if j2 < i {
            assert(s[j2].id@ != s[i].id@);
        } else {
            assert(s[i].id@ != s[j2].id@);
        }
    }
    assert forall|id: Seq<u8>, q: Seq<u8>| started_session_with_member(s, id, q) && id != s[i].id@
        implies started_session_with_member(t, id, q) by {
        let j = choose|j: int|
            0 <= j < s.len() && s[j].id@ == id && s[j].status == GameStatus::Start && roster_has(
                s[j].roster@,
                q,
            );
        assert(j != i);
        if j < i {
            assert(t[j].id@ == id && t[j].status == GameStatus::Start && roster_has(
                t[j].roster@,
                q,
            ));
        } else {
            assert(t[j - 1].id@ == id && t[j - 1].status == GameStatus::Start && roster_has(
                t[j - 1].roster@,
                q,
            ));
        }
    }
}

/// Removing the board at index `i` drops exactly its game from the listing.
pub(crate) proof fn lemma_boards_remove_at(s: Seq<BoardEntry>, i: int)
    requires
        boards_unique(s),
        0 <= i < s.len(),
    ensures
        boards_unique(s.remove(i)),
        forall|g: Seq<u8>| #[trigger] boards_has(s.remove(i), g) <==> (boards_has(s, g) && g
            != s[i].game@),
{
    let t = s.remove(i);
    assert(forall|j: int| 0 <= j < i ==> t[j] == s[j]);
    assert(forall|j: int| i <= j < t.len() ==> t[j] == s[j + 1]);
    assert forall|a: int, b: int| 0 <= a < b < t.len() implies t[a].game@ != t[b].game@ by {
        let a2: int = if a < i {
            a
        } else {
            a + 1
        };
        let b2: int = if b < i {
            b
        } else {
            b + 1
        };
        assert(s[a2].game@ != s[b2].game@);
    }
    assert forall|g: Seq<u8>| #[trigger] boards_has(t, g) implies (boards_has(s, g) && g
        != s[i].game@) by {
        let j = choose|j: int| 0 <= j < t.len() && t[j].game@ == g;
        let j2: int = if j < i {
            j
        } else {
            j + 1
        };
        assert(s[j2].game@ == g);
        if j2 < i {
            assert(s[j2].game@ != s[i].game@);
        } else {
            assert(s[i].game@ != s[j2].game@);
        }
    }
    assert forall|g: Seq<u8>| boards_has(s, g) && g != s[i].game@ implies boards_has(t, g) by {
        let j = choose|j: int| 0 <= j < s.len() && s[j].game@ == g;
        assert(j != i);
        if j < i {
            assert(t[j].game@ == g);
        } else {
            assert(t[j - 1].game@ == g);
        }
    }
}

/// Putting back a board with the same game key changes no listing.
pub(crate) proof fn lemma_boards_update_at(s: Seq<BoardEntry>, i: int, e: BoardEntry)
    requires
        boards_unique(s),
        0 <= i < s.len(),
        e.game@ == s[i].game@,
    ensures
        boards_unique(s.update(i, e)),
        forall|g: Seq<u8>| #[trigger] boards_has(s.update(i, e), g) <==> boards_has(s, g),
{
    let t = s.update(i, e);
    assert(t[i] == e);
    assert(forall|j: int| 0 <= j < s.len() && j != i ==> t[j] == s[j]);
    assert forall|a: int, b: int| 0 <= a < b < t.len() implies t[a].game@ != t[b].game@ by {
        assert(s[a].game@ != s[b].game@);
    }
    assert forall|g: Seq<u8>| #[trigger] boards_has(t, g) implies boards_has(s, g) by {
        let j = choose|j: int| 0 <= j < t.len() && t[j].game@ == g;
        if j == i {
            assert(s[i].game@ == g);
        } else {
            assert(s[j].game@ == g);
        }
    }
    assert forall|g: Seq<u8>| boards_has(s, g) implies boards_has(t, g) by {
        let j = choose|j: int| 0 <= j < s.len() && s[j].game@ == g;
        if j == i {
            assert(t[i].game@ == g);
        } else {
            assert(t[j].game@ == g);
        }
    }
}

/// Removing the turn record at index `i` drops exactly its game.
pub(crate) proof fn lemma_turns_remove_at(s: Seq<TurnEntry>, i: int)
    requires
        turns_unique(s),
        0 <= i < s.len(),
    ensures
        turns_unique(s.remove(i)),
        forall|g: Seq<u8>| #[trigger] turns_has(s.remove(i), g) <==> (turns_has(s, g) && g
            != s[i].game@),
        forall|g: Seq<u8>, w: Seq<u8>| #[trigger] turns_at(s.remove(i), g, w) <==> (turns_at(
            s,
            g,
            w,
        ) && g != s[i].game@),
{
    let t = s.remove(i);
    assert(forall|j: int| 0 <= j < i ==> t[j] == s[j]);
    assert(forall|j: int| i <= j < t.len() ==> t[j] == s[j + 1]);
    assert forall|a: int, b: int| 0 <= a < b < t.len() implies t[a].game@ != t[b].game@ by {
        let a2: int = if a < i {
            a
        } else {
            a + 1
        };
        let b2: int = if b < i {
            b
        } else {
            b + 1
        };
        assert(s[a2].game@ != s[b2].game@);
    }
    assert forall|g: Seq<u8>| #[trigger] turns_has(t, g) implies (turns_has(s, g) && g
        != s[i].game@) by {
        let j = choose|j: int| 0 <= j < t.len() && t[j].game@ == g;
        let j2: int = if j < i {
            j
        } else {
            j + 1
        };
        assert(s[j2].game@ == g);
        if j2 < i {
            assert(s[j2].game@ != s[i].game@);
        } else {
            assert(s[i].game@ != s[j2].game@);
        }
    }
    assert forall|g: Seq<u8>| turns_has(s, g) && g != s[i].game@ implies turns_has(t, g) by {
        let j = choose|j: int| 0 <= j < s.len() && s[j].game@ == g;
        assert(j != i);
        if j < i {
            assert(t[j].game@ == g);
        } else {
            assert(t[j - 1].game@ == g);
        }
    }
    assert forall|g: Seq<u8>, w: Seq<u8>| #[trigger] turns_at(t, g, w) implies (turns_at(s, g, w)
        && g != s[i].game@) by {
        let j = choose|j: int| 0 <= j < t.len() && t[j].game@ == g && t[j].holder@ == w;
        let j2: int = if j < i {
            j
        } else {
            j + 1
        };
        assert(s[j2].game@ == g && s[j2].holder@ == w);
        if j2 < i {
            assert(s[j2].game@ != s[i].game@);
        } else {
            assert(s[i].game@ != s[j2].game@);
        }
    }
    assert forall|g: Seq<u8>, w: Seq<u8>| turns_at(s, g, w) && g != s[i].game@ implies turns_at(
        t,
        g,
        w,
    ) by {
        let j = choose|j: int| 0 <= j < s.len() && s[j].game@ == g && s[j].holder@ == w;
        assert(j != i);
        if j < i {
            assert(t[j].game@ == g && t[j].holder@ == w);
        } else {
            assert(t[j - 1].game@ == g && t[j - 1].holder@ == w);
        }
    }
}

/// Handing the turn to another holder of the same game rewrites that game's
/// lookup and no other.
pub(crate) proof fn lemma_turns_update_at(s: Seq<TurnEntry>, i: int, e: TurnEntry)
    requires
        turns_unique(s),
        0 <= i < s.len(),
        e.game@ == s[i].game@,
    ensures
        turns_unique(s.update(i, e)),
        forall|g: Seq<u8>| #[trigger] turns_has(s.update(i, e), g) <==> turns_has(s, g),
        forall|g: Seq<u8>, w: Seq<u8>| #[trigger] turns_at(s.update(i, e), g, w) <==> (if g
            == e.game@ {
            w == e.holder@
        } else {
            turns_at(s, g, w)
        }),
{
    let t = s.update(i, e);
    assert(t[i] == e);
    assert(forall|j: int| 0 <= j < s.len() && j != i ==> t[j] == s[j]);
    assert forall|a: int, b: int| 0 <= a < b < t.len() implies t[a].game@ != t[b].game@ by {
        assert(s[a].game@ != s[b].game@);
    }
    assert forall|g: Seq<u8>| #[trigger] turns_has(t, g) implies turns_has(s, g) by {
        let j = choose|j: int| 0 <= j < t.len() && t[j].game@ == g;
        if j == i {
            assert(s[i].game@ == g);
        } else {
            assert(s[j].game@ == g);
        }
    }
    assert forall|g: Seq<u8>| turns_has(s, g) implies turns_has(t, g) by {
        let j = choose|j: int| 0 <= j < s.len() && s[j].game@ == g;
        if j == i {
            assert(t[i].game@ == g);
        } else {
            assert(t[j].game@ == g);
        }
    }
    assert forall|g: Seq<u8>, w: Seq<u8>| #[trigger] turns_at(t, g, w) implies (if g == e.game@ {
        w == e.holder@
    } else {
        turns_at(s, g, w)
    }) by {
        let j = choose|j: int| 0 <= j < t.len() && t[j].game@ == g && t[j].holder@ == w;
        if j == i {
        } else {
            assert(s[j].game@ == g && s[j].holder@ == w);
            if g == e.game@ {
                if j < i {
                    assert(s[j].game@ != s[i].game@);
                } else {
                    assert(s[i].game@ != s[j].game@);
                }
            }
        }
    }
    assert forall|g: Seq<u8>, w: Seq<u8>| (if g == e.game@ {
        w == e.holder@
    } else {
        turns_at(s, g, w)
    }) implies turns_at(t, g, w) by {
        if g == e.game@ {
            assert(t[i].game@ == g && t[i].holder@ == w);
        } else {
            let j = choose|j: int| 0 <= j < s.len() && s[j].game@ == g && s[j].holder@ == w;
            assert(j != i);
            assert(t[j].game@ == g && t[j].holder@ == w);
        }
    }
}

pub(crate) proof fn lemma_roster_push(r: Seq<AccountId>, w: AccountId)
    ensures
        forall|q: Seq<u8>| #[trigger] roster_has(r.push(w), q) <==> (roster_has(r, q) || q == w@),
{
    let t = r.push(w);
    let last = r.len() as int;
    assert(t[last] == w);
    assert(forall|i: int| 0 <= i < r.len() ==> t[i] == r[i]);
    assert forall|q: Seq<u8>| #[trigger] roster_has(t, q) implies (roster_has(r, q) || q == w@) by {
        let i = choose|i: int| 0 <= i < t.len() && t[i]@ == q;
        if i < last {
            assert(r[i]@ == q);
        }
    }
    assert forall|q: Seq<u8>| roster_has(r, q) implies roster_has(t, q) by {
        let i = choose|i: int| 0 <= i < r.len() && r[i]@ == q;
        assert(t[i]@ == q);
    }
}

pub(crate) proof fn lemma_ids_push(s: Seq<GameId>, e: GameId)
    ensures
        forall|id: Seq<u8>| #[trigger] ids_has(s.push(e), id) <==> (ids_has(s, id) || id == e@),
{
    let t = s.push(e);
    let last = s.len() as int;
    assert(t[last] == e);
    assert(forall|i: int| 0 <= i < s.len() ==> t[i] == s[i]);
    assert forall|id: Seq<u8>| #[trigger] ids_has(t, id) implies (ids_has(s, id) || id == e@) by {
        let i = choose|i: int| 0 <= i < t.len() && t[i]@ == id;
        if i < last {
            assert(s[i]@ == id);
        }
    }
    assert forall|id: Seq<u8>| ids_has(s, id) implies ids_has(t, id) by {
        let i = choose|i: int| 0 <= i < s.len() && s[i]@ == id;
        assert(t[i]@ == id);
    }
}

pub(crate) proof fn lemma_hosting_push(s: Seq<HostEntry>, e: HostEntry)
    ensures
        forall|w: Seq<u8>| #[trigger] hosting_has(s.push(e), w) <==> (hosting_has(s, w) || w
            == e.host@),
        forall|w: Seq<u8>, g: Seq<u8>| #[trigger] hosting_at(s.push(e), w, g) <==> (hosting_at(
            s,
            w,
            g,
        ) || (w == e.host@ && g == e.game@)),
{
    let t = s.push(e);
    let last = s.len() as int;
    assert(t[last] == e);
    assert(forall|i: int| 0 <= i < s.len() ==> t[i] == s[i]);
    assert forall|w: Seq<u8>| #[trigger] hosting_has(t, w) implies (hosting_has(s, w) || w
        == e.host@) by {
        let i = choose|i: int| 0 <= i < t.len() && t[i].host@ == w;
        if i < last {
            assert(s[i].host@ == w);
        }
    }
    assert forall|w: Seq<u8>| hosting_has(s, w) implies hosting_has(t, w) by {
        let i = choose|i: int| 0 <= i < s.len() && s[i].host@ == w;
        assert(t[i].host@ == w);
    }
    assert forall|w: Seq<u8>, g: Seq<u8>| #[trigger] hosting_at(t, w, g) implies (hosting_at(
        s,
        w,
        g,
    ) || (w == e.host@ && g == e.game@)) by {
        let i = choose|i: int| 0 <= i < t.len() && t[i].host@ == w && t[i].game@ == g;
        if i < last {
            assert(s[i].host@ == w && s[i].game@ == g);
        }
    }
    assert forall|w: Seq<u8>, g: Seq<u8>| hosting_at(s, w, g) implies hosting_at(t, w, g) by {
        let i = choose|i: int| 0 <= i < s.len() && s[i].host@ == w && s[i].game@ == g;
        assert(t[i].host@ == w && t[i].game@ == g);
    }
}

pub(crate) proof fn lemma_playing_push(s: Seq<PlayEntry>, e: PlayEntry)
    ensures
        forall|w: Seq<u8>| #[trigger] playing_has(s.push(e), w) <==> (playing_has(s, w) || w
            == e.player@),
        forall|w: Seq<u8>, g: Seq<u8>| #[trigger] playing_at(s.push(e), w, g) <==> (playing_at(
            s,
            w,
            g,
        ) || (w == e.player@ && g == e.game@)),
{
    let t = s.push(e);
    let last = s.len() as int;
    assert(t[last] == e);
    assert(forall|i: int| 0 <= i < s.len() ==> t[i] == s[i]);
    assert forall|w: Seq<u8>| #[trigger] playing_has(t, w) implies (playing_has(s, w) || w
        == e.player@) by {
        let i = choose|i: int| 0 <= i < t.len() && t[i].player@ == w;
        if i < last {
            assert(s[i].player@ == w);
        }
    }
    assert forall|w: Seq<u8>| playing_has(s, w) implies playing_has(t, w) by {
        let i = choose|i: int| 0 <= i < s.len() && s[i].player@ == w;
        assert(t[i].player@ == w);
    }
    assert forall|w: Seq<u8>, g: Seq<u8>| #[trigger] playing_at(t, w, g) implies (playing_at(
        s,
        w,
        g,
    ) || (w == e.player@ && g == e.game@)) by {
        let i = choose|i: int| 0 <= i < t.len() && t[i].player@ == w && t[i].game@ == g;
        if i < last {
            assert(s[i].player@ == w && s[i].game@ == g);
        }
    }
    assert forall|w: Seq<u8>, g: Seq<u8>| playing_at(s, w, g) implies playing_at(t, w, g) by {
        let i = choose|i: int| 0 <= i < s.len() && s[i].player@ == w && s[i].game@ == g;
        assert(t[i].player@ == w && t[i].game@ == g);
    }
}

pub(crate) proof fn lemma_boards_push(s: Seq<BoardEntry>, e: BoardEntry)
    ensures
        forall|g: Seq<u8>| #[trigger] boards_has(s.push(e), g) <==> (boards_has(s, g) || g
            == e.game@),
{
    let t = s.push(e);
    let last = s.len() as int;
    assert(t[last] == e);
    assert(forall|i: int| 0 <= i < s.len() ==> t[i] == s[i]);
    assert forall|g: Seq<u8>| #[trigger] boards_has(t, g) implies (boards_has(s, g) || g
        == e.game@) by {
        let i = choose|i: int| 0 <= i < t.len() && t[i].game@ == g;
        if i < last {
            assert(s[i].game@ == g);
        }
    }
    assert forall|g: Seq<u8>| boards_has(s, g) implies boards_has(t, g) by {
        let i = choose|i: int| 0 <= i < s.len() && s[i].game@ == g;
        assert(t[i].game@ == g);
    }
}

pub(crate) proof fn lemma_turns_push(s: Seq<TurnEntry>, e: TurnEntry)
    ensures
        forall|g: Seq<u8>| #[trigger] turns_has(s.push(e), g) <==> (turns_has(s, g) || g
            == e.game@),
        forall|g: Seq<u8>, w: Seq<u8>| #[trigger] turns_at(s.push(e), g, w) <==> (turns_at(s, g, w)
            || (g == e.game@ && w == e.holder@)),
{
    let t = s.push(e);
    let last = s.len() as int;
    assert(t[last] == e);
    assert(forall|i: int| 0 <= i < s.len() ==> t[i] == s[i]);
    assert forall|g: Seq<u8>| #[trigger] turns_has(t, g) implies (turns_has(s, g) || g == e.game@) by {
        let i = choose|i: int| 0 <= i < t.len() && t[i].game@ == g;
        if i < last {
            assert(s[i].game@ == g);
        }
    }
    assert forall|g: Seq<u8>| turns_has(s, g) implies turns_has(t, g) by {
        let i = choose|i: int| 0 <= i < s.len() && s[i].game@ == g;
        assert(t[i].game@ == g);
    }
    assert forall|g: Seq<u8>, w: Seq<u8>| #[trigger] turns_at(t, g, w) implies (turns_at(s, g, w)
        || (g == e.game@ && w == e.holder@)) by {
        let i = choose|i: int| 0 <= i < t.len() && t[i].game@ == g && t[i].holder@ == w;
        if i < last {
            assert(s[i].game@ == g && s[i].holder@ == w);
        }
    }
    assert forall|g: Seq<u8>, w: Seq<u8>| turns_at(s, g, w) implies turns_at(t, g, w) by {
        let i = choose|i: int| 0 <= i < s.len() && s[i].game@ == g && s[i].holder@ == w;
        assert(t[i].game@ == g && t[i].holder@ == w);
    }
}

pub(crate) proof fn lemma_ended_push(s: Seq<EndedGame>, e: EndedGame)
    ensures
        forall|id: Seq<u8>| #[trigger] ended_has(s.push(e), id) <==> (ended_has(s, id) || id
            == e.id@),
{
    let t = s.push(e);
    let last = s.len() as int;
    assert(t[last] == e);
    assert(forall|i: int| 0 <= i < s.len() ==> t[i] == s[i]);
    assert forall|id: Seq<u8>| #[trigger] ended_has(t, id) implies (ended_has(s, id) || id
        == e.id@) by {
        let i = choose|i: int| 0 <= i < t.len() && t[i].id@ == id;
        if i < last {
            assert(s[i].id@ == id);
        }
    }
    assert forall|id: Seq<u8>| ended_has(s, id) implies ended_has(t, id) by {
        let i = choose|i: int| 0 <= i < s.len() && s[i].id@ == id;
        assert(t[i].id@ == id);
    }
}

/// After a winning move's settlement — the session removed, its identifier
/// dropped from the started index, its board and turn record gone, the
/// roster unindexed, the host unindexed — the store is well-formed again.
pub(crate) proof fn lemma_play_settlement_wf(
    o: GameStore,
    n: GameStore,
    siv: int,
    biv: int,
    tiv: int,
    caller: AccountId,
)
    requires
        o.wf(),
        0 <= siv < o.sessions@.len(),
        o.sessions@[siv].status == GameStatus::Start,
        0 <= biv < o.boards@.len(),
        o.boards@[biv].game@ == o.sessions@[siv].id@,
        0 <= tiv < o.turns@.len(),
        o.turns@[tiv].game@ == o.sessions@[siv].id@,
        n.sessions@ == o.sessions@.remove(siv),
        forall|g: Seq<u8>| #[trigger] ids_has(n.game_start@, g) <==> (ids_has(o.game_start@, g)
            && g != o.sessions@[siv].id@),
        ids_unique(n.game_start@),
        n.game_open@ == o.game_open@,
        forall|q: Seq<u8>| #[trigger] playing_has(n.playing@, q) <==> (playing_has(o.playing@, q)
            && !roster_has(o.sessions@[siv].roster@, q)),
        forall|q: Seq<u8>, g: Seq<u8>| #[trigger] playing_at(n.playing@, q, g) <==> (playing_at(
            o.playing@,
            q,
            g,
        ) && !roster_has(o.sessions@[siv].roster@, q)),
        playing_unique(n.playing@),
        forall|w: Seq<u8>| #[trigger] hosting_has(n.hosting@, w) <==> (hosting_has(o.hosting@, w)
            && w != o.sessions@[siv].host@),
        forall|w: Seq<u8>, g: Seq<u8>| #[trigger] hosting_at(n.hosting@, w, g) <==> (hosting_at(
            o.hosting@,
            w,
            g,
        ) && w != o.sessions@[siv].host@),
        hosting_unique(n.hosting@),
        n.boards@ == o.boards@.remove(biv),
        n.turns@ == o.turns@.remove(tiv),
        ledger_unique(n.ledger@),
        ended_unique(n.ended@),
        forall|id: Seq<u8>| #[trigger] ended_has(n.ended@, id) ==> (ended_has(o.ended@, id) || id
            == o.sessions@[siv].id@),
        n.max_player == o.max_player,
    ensures
        n.wf(),
{
    let sess = o.sessions@[siv];
    lemma_sessions_remove_at(o.sessions@, siv);
    lemma_boards_remove_at(o.boards@, biv);
    lemma_turns_remove_at(o.turns@, tiv);
    lemma_session_lookup(o.sessions@, siv);
    assert(n.sessions_ok()) by {
        assert forall|i: int| 0 <= i < n.sessions@.len() implies {
            &&& session_ok(#[trigger] n.sessions@[i])
            &&& hosting_at(n.hosting@, n.sessions@[i].host@, n.sessions@[i].id@)
            &&& (n.sessions@[i].status == GameStatus::Open ==> ids_has(
                n.game_open@,
                n.sessions@[i].id@,
            ))
            &&& (n.sessions@[i].status == GameStatus::Start ==> ids_has(
                n.game_start@,
                n.sessions@[i].id@,
            ))
            &&& (forall|k: int| 0 <= k < n.sessions@[i].roster@.len() ==> playing_at(
                n.playing@,
                (#[trigger] n.sessions@[i].roster@[k])@,
                n.sessions@[i].id@,
            ))
            &&& !ended_has(n.ended@, n.sessions@[i].id@)
        } by {
            let i2: int = if i < siv {
                i
            } else {
                i + 1
            };
            assert(o.sessions_ok());
            assert(n.sessions@[i] == o.sessions@[i2]);
            let s2 = o.sessions@[i2];
            assert(s2.id@ != sess.id@) by {
                if i2 < siv {
                    assert(o.sessions@[i2].id@ != o.sessions@[siv].id@);
                } else {
                    assert(o.sessions@[siv].id@ != o.sessions@[i2].id@);
                }
            }
            assert(session_ok(s2));
            assert(hosting_at(n.hosting@, s2.host@, s2.id@)) by {
                assert(hosting_at(o.hosting@, s2.host@, s2.id@));
                if s2.host@ == sess.host@ {
                    assert(hosting_at(o.hosting@, sess.host@, sess.id@));
                    let a = choose|a: int|
                        0 <= a < o.hosting@.len() && o.hosting@[a].host@ == s2.host@
                            && o.hosting@[a].game@ == s2.id@;
                    let b = choose|b: int|
                        0 <= b < o.hosting@.len() && o.hosting@[b].host@ == sess.host@
                            && o.hosting@[b].game@ == sess.id@;
                    if a != b {
                        if a < b {
                            assert(o.hosting@[a].host@ != o.hosting@[b].host@);
                        } else {
                            assert(o.hosting@[b].host@ != o.hosting@[a].host@);
                        }
                    }
                    assert(s2.id@ == sess.id@);
                }
            }
            assert forall|k: int| 0 <= k < s2.roster@.len() implies playing_at(
                n.playing@,
                (#[trigger] s2.roster@[k])@,
                s2.id@,
            ) by {
                let q = s2.roster@[k]@;
                assert(playing_at(o.playing@, q, s2.id@));
                if roster_has(sess.roster@, q) {
                    assert(playing_at(o.playing@, q, sess.id@));
                    let a = choose|a: int|
                        0 <= a < o.playing@.len() && o.playing@[a].player@ == q
                            && o.playing@[a].game@ == s2.id@;
                    let b = choose|b: int|
                        0 <= b < o.playing@.len() && o.playing@[b].player@ == q
                            && o.playing@[b].game@ == sess.id@;
                    if a != b {
                        if a < b {
                            assert(o.playing@[a].player@ != o.playing@[b].player@);
                        } else {
                            assert(o.playing@[b].player@ != o.playing@[a].player@);
                        }
                    }
                    assert(s2.id@ == sess.id@);
                }
            }
            assert(!ended_has(n.ended@, s2.id@)) by {
                if ended_has(n.ended@, s2.id@) {
                    assert(ended_has(o.ended@, s2.id@) || s2.id@ == sess.id@);
                    assert(!ended_has(o.ended@, s2.id@));
                }
            }
        }
    }
    assert(n.open_index_ok()) by {
        assert forall|i: int| 0 <= i < n.game_open@.len() implies session_with_status(
            n.sessions@,
            (#[trigger] n.game_open@[i])@,
            GameStatus::Open,
        ) by {
            assert(o.open_index_ok());
            assert(session_with_status(o.sessions@, o.game_open@[i]@, GameStatus::Open));
            if o.game_open@[i]@ == sess.id@ {
                assert(sess.status == GameStatus::Open);
            }
        }
    }
    assert(n.start_index_ok()) by {
        assert forall|i: int| 0 <= i < n.game_start@.len() implies {
            &&& session_with_status(n.sessions@, (#[trigger] n.game_start@[i])@, GameStatus::Start)
            &&& boards_has(n.boards@, n.game_start@[i]@)
            &&& turns_has(n.turns@, n.game_start@[i]@)
        } by {
            let g = n.game_start@[i]@;
            assert(ids_has(n.game_start@, g));
            assert(ids_has(o.game_start@, g) && g != sess.id@);
            let a = choose|a: int| 0 <= a < o.game_start@.len() && o.game_start@[a]@ == g;
            assert(o.start_index_ok());
            assert(session_with_status(o.sessions@, o.game_start@[a]@, GameStatus::Start));
            assert(boards_has(o.boards@, o.game_start@[a]@));
            assert(turns_has(o.turns@, o.game_start@[a]@));
        }
    }
    assert(n.hosting_ok()) by {
        assert forall|i: int| 0 <= i < n.hosting@.len() implies session_of_host(
            n.sessions@,
            (#[trigger] n.hosting@[i]).game@,
            n.hosting@[i].host@,
        ) by {
            let e = n.hosting@[i];
            assert(hosting_at(n.hosting@, e.host@, e.game@));
            assert(hosting_at(o.hosting@, e.host@, e.game@) && e.host@ != sess.host@);
            let a = choose|a: int|
                0 <= a < o.hosting@.len() && o.hosting@[a].host@ == e.host@ && o.hosting@[a].game@
                    == e.game@;
            assert(o.hosting_ok());
            assert(session_of_host(o.sessions@, o.hosting@[a].game@, o.hosting@[a].host@));
            if e.game@ == sess.id@ {
                assert(e.host@ == sess.host@);
            }
        }
    }
    assert(n.playing_ok()) by {
        assert forall|i: int| 0 <= i < n.playing@.len() implies session_with_member(
            n.sessions@,
            (#[trigger] n.playing@[i]).game@,
            n.playing@[i].player@,
        ) by {
            let e = n.playing@[i];
            assert(playing_at(n.playing@, e.player@, e.game@));
            assert(playing_at(o.playing@, e.player@, e.game@) && !roster_has(
                sess.roster@,
                e.player@,
            ));
            let a = choose|a: int|
                0 <= a < o.playing@.len() && o.playing@[a].player@ == e.player@
                    && o.playing@[a].game@ == e.game@;
            assert(o.playing_ok());
            assert(session_with_member(o.sessions@, o.playing@[a].game@, o.playing@[a].player@));
            if e.game@ == sess.id@ {
                assert(roster_has(sess.roster@, e.player@));
            }
        }
    }
    assert(n.boards_ok()) by {
        assert forall|i: int| 0 <= i < n.boards@.len() implies {
            &&& crate::board::board_wf((#[trigger] n.boards@[i]).cells@)
            &&& session_with_status(n.sessions@, n.boards@[i].game@, GameStatus::Start)
        } by {
            let i2: int = if i < biv {
                i
            } else {
                i + 1
            };
            assert(o.boards_ok());
            assert(n.boards@[i] == o.boards@[i2]);
            assert(crate::board::board_wf(o.boards@[i2].cells@));
            assert(session_with_status(o.sessions@, o.boards@[i2].game@, GameStatus::Start));
            assert(o.boards@[i2].game@ != sess.id@) by {
                if i2 < biv {
                    assert(o.boards@[i2].game@ != o.boards@[biv].game@);
                } else {
                    assert(o.boards@[biv].game@ != o.boards@[i2].game@);
                }
            }
        }
    }
    assert(n.turns_ok()) by {
        assert forall|i: int| 0 <= i < n.turns@.len() implies started_session_with_member(
            n.sessions@,
            (#[trigger] n.turns@[i]).game@,
            n.turns@[i].holder@,
        ) by {
            let i2: int = if i < tiv {
                i
            } else {
                i + 1
            };
            assert(o.turns_ok());
            assert(n.turns@[i] == o.turns@[i2]);
            assert(started_session_with_member(
                o.sessions@,
                o.turns@[i2].game@,
                o.turns@[i2].holder@,
            ));
            assert(o.turns@[i2].game@ != sess.id@) by {
                if i2 < tiv {
                    assert(o.turns@[i2].game@ != o.turns@[tiv].game@);
                } else {
                    assert(o.turns@[tiv].game@ != o.turns@[i2].game@);
                }
            }
        }
    }
}

/// Well-formedness reads only the listed parts: a store that keeps them
/// (the ledger may change as long as its accounts stay unique) stays
/// well-formed.
pub(crate) proof fn lemma_wf_frame(a: GameStore, b: GameStore)
    requires
        a.wf(),
        1 <= b.max_player <= 127,
        b.sessions@ == a.sessions@,
        b.game_open@ == a.game_open@,
        b.game_start@ == a.game_start@,
        b.hosting@ == a.hosting@,
        b.playing@ == a.playing@,
        b.boards@ == a.boards@,
        b.turns@ == a.turns@,
        b.ended@ == a.ended@,
        ledger_unique(b.ledger@),
    ensures
        b.wf(),
{
    assert(b.sessions_ok()) by {
        assert(a.sessions_ok());
    }
    assert(b.open_index_ok()) by {
        assert(a.open_index_ok());
    }
    assert(b.start_index_ok()) by {
        assert(a.start_index_ok());
    }
    assert(b.hosting_ok()) by {
        assert(a.hosting_ok());
    }
    assert(b.playing_ok()) by {
        assert(a.playing_ok());
    }
    assert(b.boards_ok()) by {
        assert(a.boards_ok());
    }
    assert(b.turns_ok()) by {
        assert(a.turns_ok());
    }
}

/// Removing the hosting entry at index `i` drops exactly its host.
pub(crate) proof fn lemma_hosting_remove_at(s: Seq<HostEntry>, i: int)
    requires
        hosting_unique(s),
        0 <= i < s.len(),
    ensures
        hosting_unique(s.remove(i)),
        forall|w: Seq<u8>| #[trigger] hosting_has(s.remove(i), w) <==> (hosting_has(s, w) && w
            != s[i].host@),
        forall|w: Seq<u8>, g: Seq<u8>| #[trigger] hosting_at(s.remove(i), w, g) <==> (hosting_at(
            s,
            w,
            g,
        ) && w != s[i].host@),
{
    let t = s.remove(i);
    assert(forall|j: int| 0 <= j < i ==> t[j] == s[j]);
    assert(forall|j: int| i <= j < t.len() ==> t[j] == s[j + 1]);
    assert forall|a: int, b: int| 0 <= a < b < t.len() implies t[a].host@ != t[b].host@ by {
        let a2: int = if a < i {
            a
        } else {
            a + 1
        };
        let b2: int = if b < i {
            b
        } else {
            b + 1
        };
        assert(s[a2].host@ != s[b2].host@);
    }
    assert forall|w: Seq<u8>| #[trigger] hosting_has(t, w) implies (hosting_has(s, w) && w
        != s[i].host@) by {
        let j = choose|j: int| 0 <= j < t.len() && t[j].host@ == w;
        let j2: int = if j < i {
            j
        } else {
            j + 1
        };
        assert(s[j2].host@ == w);
        if j2 < i {
            assert(s[j2].host@ != s[i].host@);
        } else {
            assert(s[i].host@ != s[j2].host@);
        }
    }
    assert forall|w: Seq<u8>| hosting_has(s, w) && w != s[i].host@ implies hosting_has(t, w) by {
        let j = choose|j: int| 0 <= j < s.len() && s[j].host@ == w;
        assert(j != i);
        if j < i {
            assert(t[j].host@ == w);
        } else {
            assert(t[j - 1].host@ == w);
        }
    }
    assert forall|w: Seq<u8>, g: Seq<u8>| #[trigger] hosting_at(t, w, g) implies (hosting_at(
        s,
        w,
        g,
    ) && w != s[i].host@) by {
        let j = choose|j: int| 0 <= j < t.len() && t[j].host@ == w && t[j].game@ == g;
        let j2: int = if j < i {
            j
        } else {
            j + 1
        };
        assert(s[j2].host@ == w && s[j2].game@ == g);
        if j2 < i {
            assert(s[j2].host@ != s[i].host@);
        } else {
            assert(s[i].host@ != s[j2].host@);
        }
    }
    assert forall|w: Seq<u8>, g: Seq<u8>| hosting_at(s, w, g) && w != s[i].host@ implies
        hosting_at(t, w, g) by {
        let j = choose|j: int| 0 <= j < s.len() && s[j].host@ == w && s[j].game@ == g;
        assert(j != i);
        if j < i {
            assert(t[j].host@ == w && t[j].game@ == g);
        } else {
            assert(t[j - 1].host@ == w && t[j - 1].game@ == g);
        }
    }
}

// Ledger lemmas: with unique accounts, the balance reads through lookups,
// in-place updates, and appended records.

pub(crate) proof fn lemma_balance_at(s: Seq<BalanceEntry>, i: int)
    requires
        ledger_unique(s),
        0 <= i < s.len(),
    ensures
        balance_of(s, s[i].account@) == s[i].amount,
{
    assert(ledger_has(s, s[i].account@));
    let j = choose|j: int| 0 <= j < s.len() && s[j].account@ == s[i].account@;
    if j != i {
        if j < i {
            assert(s[j].account@ != s[i].account@);
        } else {
            assert(s[i].account@ != s[j].account@);
        }
    }
}

pub(crate) proof fn lemma_balance_update(s: Seq<BalanceEntry>, i: int, e: BalanceEntry)
    requires
        ledger_unique(s),
        0 <= i < s.len(),
        e.account@ == s[i].account@,
    ensures
        ledger_unique(s.update(i, e)),
        balance_of(s.update(i, e), e.account@) == e.amount,
        forall|q: Seq<u8>| q != e.account@ ==> balance_of(s.update(i, e), q) == balance_of(s, q),
        forall|q: Seq<u8>| #[trigger] ledger_has(s.update(i, e), q) <==> ledger_has(s, q),
{
    let t = s.update(i, e);
    assert forall|q: Seq<u8>| #[trigger] ledger_has(t, q) implies ledger_has(s, q) by {
        let k = choose|k: int| 0 <= k < t.len() && t[k].account@ == q;
        if k == i {
            assert(s[i].account@ == q);
        } else {
            assert(s[k].account@ == q);
        }
    }
    assert forall|q: Seq<u8>| #[trigger] ledger_has(s, q) implies ledger_has(t, q) by {
        let k = choose|k: int| 0 <= k < s.len() && s[k].account@ == q;
        if k == i {
            assert(t[i].account@ == q);
        } else {
            assert(t[k].account@ == q);
        }
    }
    lemma_balance_at(t, i);
    assert forall|q: Seq<u8>| q != e.account@ implies balance_of(t, q) == balance_of(s, q) by {
        if ledger_has(s, q) {
            let k = choose|k: int| 0 <= k < s.len() && s[k].account@ == q;
            assert(k != i);
            assert(t[k].account@ == q);
            lemma_balance_at(s, k);
            lemma_balance_at(t, k);
        }
    }
}

pub(crate) proof fn lemma_balance_push(s: Seq<BalanceEntry>, e: BalanceEntry)
    requires
        ledger_unique(s),
        !ledger_has(s, e.account@),
    ensures
        ledger_unique(s.push(e)),
        balance_of(s.push(e), e.account@) == e.amount,
        forall|q: Seq<u8>| q != e.account@ ==> balance_of(s.push(e), q) == balance_of(s, q),
        forall|q: Seq<u8>| #[trigger] ledger_has(s.push(e), q) <==> (ledger_has(s, q) || q
            == e.account@),
{
    let t = s.push(e);
    assert(forall|k: int| 0 <= k < s.len() ==> t[k] == s[k]);
    assert(t[s.len() as int] == e);
    assert forall|q: Seq<u8>| #[trigger] ledger_has(t, q) implies (ledger_has(s, q) || q
        == e.account@) by {
        let k = choose|k: int| 0 <= k < t.len() && t[k].account@ == q;
        if k < s.len() {
            assert(s[k].account@ == q);
        }
    }
    assert(ledger_unique(t));
    lemma_balance_at(t, s.len() as int);
    assert forall|q: Seq<u8>| q != e.account@ implies balance_of(t, q) == balance_of(s, q) by {
        if ledger_has(s, q) {
            let k = choose|k: int| 0 <= k < s.len() && s[k].account@ == q;
            assert(t[k].account@ == q);
            lemma_balance_at(s, k);
            lemma_balance_at(t, k);
        }
    }
}


} // verus!
