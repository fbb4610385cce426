//! The session registry and its indices: one store object owns every session,
//! the open/started listings, the hosting and playing lookups, the per-game
//! boards and turn records, the ended-game archive, and the ledger the stakes
//! are escrowed against.

use vstd::prelude::*;
use crate::{AccountId, GameId, bytes32_eq};
use crate::board;
use crate::types::{GameError, GameStatus, MoveOutcome};
use crate::assoc::{
    lemma_balance_at, lemma_balance_push, lemma_balance_update, lemma_boards_push,
    lemma_boards_remove_at, lemma_boards_update_at, lemma_ended_push, lemma_hosting_push,
    lemma_hosting_remove_at, lemma_ids_push, lemma_ids_swap_remove, lemma_play_settlement_wf,
    lemma_playing_push, lemma_roster_push, lemma_session_lookup, lemma_sessions_push,
    lemma_sessions_remove_at, lemma_sessions_update, lemma_turns_push, lemma_turns_remove_at,
    lemma_turns_update_at, lemma_wf_frame,
};

verus! {

/// One hosted game, from open to start; an ended session leaves this table.
pub struct Session {
    pub id: GameId,
    pub host: AccountId,
    pub ticket: u64,
    pub roster: Vec<AccountId>,
    pub status: GameStatus,
}

/// Immutable archive record of a completed session.
pub struct EndedGame {
    pub id: GameId,
    pub host: AccountId,
    pub ticket: u64,
    pub board: Vec<i8>,
    pub winner: AccountId,
}

/// "Who is hosting": at most one session per host identity.
#[derive(Clone, Copy)]
pub struct HostEntry {
    pub host: AccountId,
    pub game: GameId,
}

/// "Who is playing": at most one session per player identity.
#[derive(Clone, Copy)]
pub struct PlayEntry {
    pub player: AccountId,
    pub game: GameId,
}

/// The grid of an in-progress session.
pub struct BoardEntry {
    pub game: GameId,
    pub cells: Vec<i8>,
}

/// The identity that must move next in an in-progress session.
#[derive(Clone, Copy)]
pub struct TurnEntry {
    pub game: GameId,
    pub holder: AccountId,
}

/// One account's available balance.
#[derive(Clone, Copy)]
pub struct BalanceEntry {
    pub account: AccountId,
    pub amount: u64,
}

// Membership of the association lists, keyed by the byte view of the key.

pub open spec fn sessions_has(s: Seq<Session>, id: Seq<u8>) -> bool {
    exists|i: int| 0 <= i < s.len() && s[i].id@ == id
}

pub open spec fn ids_has(s: Seq<GameId>, id: Seq<u8>) -> bool {
    exists|i: int| 0 <= i < s.len() && s[i]@ == id
}

pub open spec fn hosting_has(s: Seq<HostEntry>, who: Seq<u8>) -> bool {
    exists|i: int| 0 <= i < s.len() && s[i].host@ == who
}

pub open spec fn hosting_at(s: Seq<HostEntry>, who: Seq<u8>, game: Seq<u8>) -> bool {
    exists|i: int| 0 <= i < s.len() && s[i].host@ == who && s[i].game@ == game
}

pub open spec fn playing_has(s: Seq<PlayEntry>, who: Seq<u8>) -> bool {
    exists|i: int| 0 <= i < s.len() && s[i].player@ == who
}

pub open spec fn playing_at(s: Seq<PlayEntry>, who: Seq<u8>, game: Seq<u8>) -> bool {
    exists|i: int| 0 <= i < s.len() && s[i].player@ == who && s[i].game@ == game
}

pub open spec fn boards_has(s: Seq<BoardEntry>, game: Seq<u8>) -> bool {
    exists|i: int| 0 <= i < s.len() && s[i].game@ == game
}

pub open spec fn turns_has(s: Seq<TurnEntry>, game: Seq<u8>) -> bool {
    exists|i: int| 0 <= i < s.len() && s[i].game@ == game
}

pub open spec fn turns_at(s: Seq<TurnEntry>, game: Seq<u8>, who: Seq<u8>) -> bool {
    exists|i: int| 0 <= i < s.len() && s[i].game@ == game && s[i].holder@ == who
}

pub open spec fn ledger_has(s: Seq<BalanceEntry>, who: Seq<u8>) -> bool {
    exists|i: int| 0 <= i < s.len() && s[i].account@ == who
}

pub open spec fn ended_has(s: Seq<EndedGame>, id: Seq<u8>) -> bool {
    exists|i: int| 0 <= i < s.len() && s[i].id@ == id
}

pub open spec fn roster_has(r: Seq<AccountId>, who: Seq<u8>) -> bool {
    exists|i: int| 0 <= i < r.len() && r[i]@ == who
}

// Key uniqueness of each association list.

pub open spec fn sessions_unique(s: Seq<Session>) -> bool {
    forall|i: int, j: int| 0 <= i < j < s.len() ==> s[i].id@ != s[j].id@
}

pub open spec fn ids_unique(s: Seq<GameId>) -> bool {
    forall|i: int, j: int| 0 <= i < j < s.len() ==> s[i]@ != s[j]@
}

pub open spec fn hosting_unique(s: Seq<HostEntry>) -> bool {
    forall|i: int, j: int| 0 <= i < j < s.len() ==> s[i].host@ != s[j].host@
}

pub open spec fn playing_unique(s: Seq<PlayEntry>) -> bool {
    forall|i: int, j: int| 0 <= i < j < s.len() ==> s[i].player@ != s[j].player@
}

pub open spec fn boards_unique(s: Seq<BoardEntry>) -> bool {
    forall|i: int, j: int| 0 <= i < j < s.len() ==> s[i].game@ != s[j].game@
}

pub open spec fn turns_unique(s: Seq<TurnEntry>) -> bool {
    forall|i: int, j: int| 0 <= i < j < s.len() ==> s[i].game@ != s[j].game@
}

pub open spec fn ledger_unique(s: Seq<BalanceEntry>) -> bool {
    forall|i: int, j: int| 0 <= i < j < s.len() ==> s[i].account@ != s[j].account@
}

pub open spec fn ended_unique(s: Seq<EndedGame>) -> bool {
    forall|i: int, j: int| 0 <= i < j < s.len() ==> s[i].id@ != s[j].id@
}

/// A session with the given identifier and lifecycle state is on record.
pub open spec fn session_with_status(s: Seq<Session>, id: Seq<u8>, st: GameStatus) -> bool {
    exists|j: int| 0 <= j < s.len() && s[j].id@ == id && s[j].status == st
}

/// A session with the given identifier and host is on record.
pub open spec fn session_of_host(s: Seq<Session>, id: Seq<u8>, who: Seq<u8>) -> bool {
    exists|j: int| 0 <= j < s.len() && s[j].id@ == id && s[j].host@ == who
}

/// A session with the given identifier holds the player on its roster.
pub open spec fn session_with_member(s: Seq<Session>, id: Seq<u8>, who: Seq<u8>) -> bool {
    exists|j: int| 0 <= j < s.len() && s[j].id@ == id && roster_has(s[j].roster@, who)
}

/// A started session with the given identifier holds the player on its
/// roster.
pub open spec fn started_session_with_member(s: Seq<Session>, id: Seq<u8>, who: Seq<u8>) -> bool {
    exists|j: int|
        0 <= j < s.len() && s[j].id@ == id && s[j].status == GameStatus::Start && roster_has(
            s[j].roster@,
            who,
        )
}

/// Structural soundness of one session record: the roster is free of
/// duplicates and fits the board's mark domain, and the state is active.
pub open spec fn session_ok(s: Session) -> bool {
    &&& s.roster@.len() <= 127
    &&& (forall|i: int, j: int| 0 <= i < j < s.roster@.len() ==> s.roster@[i]@ != s.roster@[j]@)
    &&& (s.status == GameStatus::Open || s.status == GameStatus::Start)
}

/// The balance of an account: the recorded amount, or zero without a record.
pub open spec fn balance_of(s: Seq<BalanceEntry>, who: Seq<u8>) -> u64 {
    if ledger_has(s, who) {
        let i = choose|i: int| 0 <= i < s.len() && s[i].account@ == who;
        s[i].amount
    } else {
        0
    }
}

/// Addition on balances that sticks at the top of the range.
pub open spec fn sat_add_u64(a: u64, b: u64) -> u64 {
    if a + b > u64::MAX {
        u64::MAX
    } else {
        (a + b) as u64
    }
}

/// The prize: the pooled stakes minus the fixed one-percent settlement fee,
/// rounded down.
pub open spec fn reward_amount(ticket: u64, players: nat) -> int {
    (ticket * players * 99) / 100
}

/// Best-effort payout: the winner's balance grows by the reward when a
/// record exists and the sum fits; otherwise every balance stays put. No
/// other account moves either way.
pub open spec fn paid_out(
    oldl: Seq<BalanceEntry>,
    newl: Seq<BalanceEntry>,
    who: Seq<u8>,
    reward: int,
) -> bool {
    &&& (forall|q: Seq<u8>|
        q != who ==> balance_of(newl, q) == balance_of(oldl, q))
    &&& (forall|q: Seq<u8>| #[trigger] ledger_has(newl, q) <==> ledger_has(oldl, q))
    &&& balance_of(newl, who) as int == if ledger_has(oldl, who) && balance_of(oldl, who) + reward
        <= u64::MAX {
        balance_of(oldl, who) + reward
    } else {
        balance_of(oldl, who) as int
    }
}

/// The situation a move is judged in: the caller plays session `si`, whose
/// board is entry `bi`, holds the turn, and sits at roster slot `ri`.
pub open spec fn move_setting(o: GameStore, caller: AccountId, si: int, bi: int, ri: int) -> bool {
    &&& 0 <= si < o.sessions@.len()
    &&& playing_at(o.playing@, caller@, o.sessions@[si].id@)
    &&& 0 <= bi < o.boards@.len()
    &&& o.boards@[bi].game@ == o.sessions@[si].id@
    &&& turns_at(o.turns@, o.sessions@[si].id@, caller@)
    &&& 0 <= ri < o.sessions@[si].roster@.len()
    &&& o.sessions@[si].roster@[ri]@ == caller@
}

/// After an accepted move that did not win: the mark is on the board, the
/// turn passed to the next roster entry, and nothing else moved.
pub open spec fn continued_state(
    o: GameStore,
    n: GameStore,
    caller: AccountId,
    x: int,
    y: int,
    si: int,
    bi: int,
    ri: int,
) -> bool {
    let cells2 = o.boards@[bi].cells@.update(x * 15 + y, ri as i8);
    let nlen = o.sessions@[si].roster@.len() as int;
    &&& n.boards@.len() == o.boards@.len()
    &&& (forall|j: int| 0 <= j < o.boards@.len() && j != bi ==> n.boards@[j] == o.boards@[j])
    &&& n.boards@[bi].game == o.boards@[bi].game
    &&& n.boards@[bi].cells@ == cells2
    &&& (exists|ti: int|
        0 <= ti < o.turns@.len() && (#[trigger] o.turns@[ti]).game@ == o.sessions@[si].id@
            && n.turns@ == o.turns@.update(
            ti,
            TurnEntry {
                game: o.turns@[ti].game,
                holder: o.sessions@[si].roster@[(ri + 1) % nlen],
            },
        ))
    &&& n.sessions == o.sessions
    &&& n.game_open == o.game_open
    &&& n.game_start == o.game_start
    &&& n.hosting == o.hosting
    &&& n.playing == o.playing
    &&& n.ended == o.ended
    &&& n.ledger == o.ledger
    &&& n.max_player == o.max_player
    &&& n.max_open_game == o.max_open_game
    &&& n.max_ended_game == o.max_ended_game
    &&& n.block_number == o.block_number
}

/// After a winning move: the session and its board, turn, hosting and
/// playing index entries are gone, the reward is paid best-effort, and the
/// game is archived exactly once — unless the archive is full, which must
/// not roll the rest back.
pub open spec fn settled_state(
    o: GameStore,
    n: GameStore,
    caller: AccountId,
    x: int,
    y: int,
    si: int,
    bi: int,
    ri: int,
    archived: bool,
) -> bool {
    let sess = o.sessions@[si];
    let cells2 = o.boards@[bi].cells@.update(x * 15 + y, ri as i8);
    &&& n.sessions@ == o.sessions@.remove(si)
    &&& (forall|g: Seq<u8>| #[trigger] ids_has(n.game_start@, g) <==> (ids_has(o.game_start@, g)
        && g != sess.id@))
    &&& n.game_open == o.game_open
    &&& (forall|q: Seq<u8>| #[trigger] playing_has(n.playing@, q) <==> (playing_has(o.playing@, q)
        && !roster_has(sess.roster@, q)))
    &&& (forall|q: Seq<u8>, g: Seq<u8>| #[trigger] playing_at(n.playing@, q, g) <==> (playing_at(
        o.playing@,
        q,
        g,
    ) && !roster_has(sess.roster@, q)))
    &&& (forall|w: Seq<u8>| #[trigger] hosting_has(n.hosting@, w) <==> (hosting_has(o.hosting@, w)
        && w != sess.host@))
    &&& (forall|g: Seq<u8>| #[trigger] boards_has(n.boards@, g) <==> (boards_has(o.boards@, g) && g
        != sess.id@))
    &&& (forall|g: Seq<u8>| #[trigger] turns_has(n.turns@, g) <==> (turns_has(o.turns@, g) && g
        != sess.id@))
    &&& paid_out(o.ledger@, n.ledger@, caller@, reward_amount(sess.ticket, sess.roster@.len()))
    &&& (if archived {
        &&& o.ended@.len() < o.max_ended_game
        &&& n.ended@.len() == o.ended@.len() + 1
        &&& (forall|j: int| 0 <= j < o.ended@.len() ==> n.ended@[j] == o.ended@[j])
        &&& n.ended@.last().id == sess.id
        &&& n.ended@.last().host == sess.host
        &&& n.ended@.last().ticket == sess.ticket
        &&& n.ended@.last().winner == caller
        &&& n.ended@.last().board@ == cells2
    } else {
        &&& o.ended@.len() >= o.max_ended_game
        &&& n.ended == o.ended
    })
    &&& n.max_player == o.max_player
    &&& n.max_open_game == o.max_open_game
    &&& n.max_ended_game == o.max_ended_game
    &&& n.block_number == o.block_number
}

/// The whole authoritative state, threaded through every operation.
pub struct GameStore {
    /// Configured roster size; 2 for standard play.
    pub max_player: u8,
    /// Capacity of the open-session index.
    pub max_open_game: usize,
    /// Capacity of the ended-game archive.
    pub max_ended_game: usize,
    /// The logical clock mixed into minted identifiers.
    pub block_number: u64,
    /// Every active (open or started) session.
    pub sessions: Vec<Session>,
    /// Identifiers of sessions awaiting players.
    pub game_open: Vec<GameId>,
    /// Identifiers of sessions being played.
    pub game_start: Vec<GameId>,
    /// Host identity to session identifier.
    pub hosting: Vec<HostEntry>,
    /// Player identity to session identifier.
    pub playing: Vec<PlayEntry>,
    /// Boards of started sessions.
    pub boards: Vec<BoardEntry>,
    /// Turn records of started sessions.
    pub turns: Vec<TurnEntry>,
    /// Append-only archive of completed sessions.
    pub ended: Vec<EndedGame>,
    /// Account balances the stakes are escrowed against.
    pub ledger: Vec<BalanceEntry>,
}

impl GameStore {
    /// Every session is structurally sound, indexed by its host, listed under
    /// its lifecycle state, has each roster member in the playing index, and
    /// is absent from the archive.
    pub open spec fn sessions_ok(self) -> bool {
        forall|i: int| 0 <= i < self.sessions@.len() ==> {
            &&& session_ok(#[trigger] self.sessions@[i])
            &&& hosting_at(self.hosting@, self.sessions@[i].host@, self.sessions@[i].id@)
            &&& (self.sessions@[i].status == GameStatus::Open ==> ids_has(
                self.game_open@,
                self.sessions@[i].id@,
            ))
            &&& (self.sessions@[i].status == GameStatus::Start ==> ids_has(
                self.game_start@,
                self.sessions@[i].id@,
            ))
            &&& (forall|k: int| 0 <= k < self.sessions@[i].roster@.len() ==> playing_at(
                self.playing@,
                (#[trigger] self.sessions@[i].roster@[k])@,
                self.sessions@[i].id@,
            ))
            &&& !ended_has(self.ended@, self.sessions@[i].id@)
        }
    }

    /// Every identifier in the open index belongs to an open session.
    pub open spec fn open_index_ok(self) -> bool {
        forall|i: int| 0 <= i < self.game_open@.len() ==> session_with_status(
            self.sessions@,
            (#[trigger] self.game_open@[i])@,
            GameStatus::Open,
        )
    }

    /// Every identifier in the started index belongs to a started session
    /// with a board and a turn record.
    pub open spec fn start_index_ok(self) -> bool {
        forall|i: int| 0 <= i < self.game_start@.len() ==> {
            &&& session_with_status(
                self.sessions@,
                (#[trigger] self.game_start@[i])@,
                GameStatus::Start,
            )
            &&& boards_has(self.boards@, self.game_start@[i]@)
            &&& turns_has(self.turns@, self.game_start@[i]@)
        }
    }

    /// Every hosting entry points at a recorded session of that host.
    pub open spec fn hosting_ok(self) -> bool {
        forall|i: int| 0 <= i < self.hosting@.len() ==> session_of_host(
            self.sessions@,
            (#[trigger] self.hosting@[i]).game@,
            self.hosting@[i].host@,
        )
    }

    /// Every playing entry points at a recorded session whose roster holds
    /// the player.
    pub open spec fn playing_ok(self) -> bool {
        forall|i: int| 0 <= i < self.playing@.len() ==> session_with_member(
            self.sessions@,
            (#[trigger] self.playing@[i]).game@,
            self.playing@[i].player@,
        )
    }

    /// Every board belongs to a started session and spans the whole grid.
    pub open spec fn boards_ok(self) -> bool {
        forall|i: int| 0 <= i < self.boards@.len() ==> {
            &&& board::board_wf((#[trigger] self.boards@[i]).cells@)
            &&& session_with_status(self.sessions@, self.boards@[i].game@, GameStatus::Start)
        }
    }

    /// Every turn record belongs to a started session and names a roster
    /// member of that session.
    pub open spec fn turns_ok(self) -> bool {
        forall|i: int| 0 <= i < self.turns@.len() ==> started_session_with_member(
            self.sessions@,
            (#[trigger] self.turns@[i]).game@,
            self.turns@[i].holder@,
        )
    }

    /// Well-formedness: what `new` establishes and every operation preserves.
    pub open spec fn wf(self) -> bool {
        &&& 1 <= self.max_player <= 127
        &&& sessions_unique(self.sessions@)
        &&& ids_unique(self.game_open@)
        &&& ids_unique(self.game_start@)
        &&& hosting_unique(self.hosting@)
        &&& playing_unique(self.playing@)
        &&& boards_unique(self.boards@)
        &&& turns_unique(self.turns@)
        &&& ledger_unique(self.ledger@)
        &&& ended_unique(self.ended@)
        &&& self.sessions_ok()
        &&& self.open_index_ok()
        &&& self.start_index_ok()
        &&& self.hosting_ok()
        &&& self.playing_ok()
        &&& self.boards_ok()
        &&& self.turns_ok()
    }

    /// An empty store with the standard configuration: two players per
    /// session, ten open slots, a large archive, the clock at zero.
    pub fn new() -> (s: Self)
        ensures
            s.wf(),
            s.max_player == 2,
            s.max_open_game == 10,
            s.max_ended_game == 1000000000,
            s.block_number == 0,
            s.sessions@.len() == 0,
            s.game_open@.len() == 0,
            s.game_start@.len() == 0,
            s.hosting@.len() == 0,
            s.playing@.len() == 0,
            s.boards@.len() == 0,
            s.turns@.len() == 0,
            s.ended@.len() == 0,
            s.ledger@.len() == 0,
    {
        GameStore {
            max_player: 2,
            max_open_game: 10,
            max_ended_game: 1000000000,
            block_number: 0,
            sessions: Vec::new(),
            game_open: Vec::new(),
            game_start: Vec::new(),
            hosting: Vec::new(),
            playing: Vec::new(),
            boards: Vec::new(),
            turns: Vec::new(),
            ended: Vec::new(),
            ledger: Vec::new(),
        }
    }

    /// The configured max player count.
    pub fn max_gomoku_player(&self) -> (r: u8)
        ensures
            r == self.max_player,
    {
        self.max_player
    }

    /// Reconfigures the roster size. The board marks player-indices as `i8`,
    /// so the count must lie in `1..=127`.
    pub fn set_max_player(&mut self, max: u8) -> (r: Result<(), GameError>)
        requires
            old(self).wf(),
        ensures
            final(self).wf(),
            1 <= max <= 127 ==> r == Ok::<(), GameError>(()) && *final(self) == (GameStore {
                max_player: max,
                ..*old(self)
            }),
            !(1 <= max <= 127) ==> r == Err::<(), GameError>(GameError::InvalidMaxPlayer)
                && *final(self) == *old(self),
    {
        if max >= 1 && max <= 127 {
            self.max_player = max;
            proof {
                lemma_wf_frame(*old(self), *self);
            }
            Ok(())
        } else {
            Err(GameError::InvalidMaxPlayer)
        }
    }

    /// Whether the identity is free to host: it has no entry in the hosting
    /// index.
    pub fn is_host_available(&self, host: &AccountId) -> (r: Result<bool, GameError>)
        ensures
            !hosting_has(self.hosting@, host@) ==> r == Ok::<bool, GameError>(true),
            hosting_has(self.hosting@, host@) ==> r == Err::<bool, GameError>(
                GameError::HostAlreadyHosting,
            ),
    {
        match find_host_idx(&self.hosting, host) {
            Some(_) => Err(GameError::HostAlreadyHosting),
            None => Ok(true),
        }
    }

    /// Whether the identity is free to play: it has no entry in the playing
    /// index.
    pub fn is_player_available(&self, player: &AccountId) -> (r: Result<bool, GameError>)
        ensures
            !playing_has(self.playing@, player@) ==> r == Ok::<bool, GameError>(true),
            playing_has(self.playing@, player@) ==> r == Err::<bool, GameError>(
                GameError::PlayerAlreadyPlaying,
            ),
    {
        match find_play_idx(&self.playing, player) {
            Some(_) => Err(GameError::PlayerAlreadyPlaying),
            None => Ok(true),
        }
    }

    /// Whether a freshly minted identifier is unused: it names no active
    /// session and no archived game, so it is never reused.
    pub fn is_id_available(&self, id: &GameId) -> (r: Result<bool, GameError>)
        ensures
            !sessions_has(self.sessions@, id@) && !ended_has(self.ended@, id@) ==> r == Ok::<
                bool,
                GameError,
            >(true),
            sessions_has(self.sessions@, id@) || ended_has(self.ended@, id@) ==> r == Err::<
                bool,
                GameError,
            >(GameError::IdAlreadyUsed),
    {
        if find_session_idx(&self.sessions, id).is_some() {
            return Err(GameError::IdAlreadyUsed);
        }
        if find_ended_idx(&self.ended, id).is_some() {
            return Err(GameError::IdAlreadyUsed);
        }
        Ok(true)
    }

    /// Opens a session: mints an identifier from the entropy and the current
    /// block, records the session as `Open`, lists it in the open index, and
    /// marks the host as hosting. No stake moves yet; the stake is collected
    /// when a player joins.
    pub fn open_game(&mut self, host: AccountId, ticket: u64, seed: [u8; 32]) -> (r: Result<
        GameId,
        GameError,
    >)
        requires
            old(self).wf(),
        ensures
            final(self).wf(),
            ({
                let idv = crate::ids::blake2b_256_of(
                    crate::ids::id_payload(seed@, old(self).block_number),
                );
                match r {
                    Ok(id) => {
                        &&& id@ == idv
                        &&& !hosting_has(old(self).hosting@, host@)
                        &&& old(self).game_open@.len() < old(self).max_open_game
                        &&& !sessions_has(old(self).sessions@, idv)
                        &&& !ended_has(old(self).ended@, idv)
                        &&& final(self).sessions@.len() == old(self).sessions@.len() + 1
                        &&& (forall|j: int|
                            0 <= j < old(self).sessions@.len()
                                ==> final(self).sessions@[j] == old(self).sessions@[j])
                        &&& final(self).sessions@.last().id == id
                        &&& final(self).sessions@.last().host == host
                        &&& final(self).sessions@.last().ticket == ticket
                        &&& final(self).sessions@.last().roster@.len() == 0
                        &&& final(self).sessions@.last().status == GameStatus::Open
                        &&& final(self).game_open@ == old(self).game_open@.push(id)
                        &&& final(self).hosting@ == old(self).hosting@.push(
                            HostEntry { host, game: id },
                        )
                        &&& final(self).game_start == old(self).game_start
                        &&& final(self).playing == old(self).playing
                        &&& final(self).boards == old(self).boards
                        &&& final(self).turns == old(self).turns
                        &&& final(self).ended == old(self).ended
                        &&& final(self).ledger == old(self).ledger
                        &&& final(self).max_player == old(self).max_player
                        &&& final(self).max_open_game == old(self).max_open_game
                        &&& final(self).max_ended_game == old(self).max_ended_game
                        &&& final(self).block_number == old(self).block_number
                    },
                    Err(e) => {
                        &&& *final(self) == *old(self)
                        &&& if hosting_has(old(self).hosting@, host@) {
                            e == GameError::HostAlreadyHosting
                        } else if old(self).game_open@.len() >= old(self).max_open_game {
                            e == GameError::OpenSlotsExceeded
                        } else {
                            (sessions_has(old(self).sessions@, idv) || ended_has(
                                old(self).ended@,
                                idv,
                            )) && e == GameError::IdAlreadyUsed
                        }
                    },
                }
            }),
    {
        if find_host_idx(&self.hosting, &host).is_some() {
            return Err(GameError::HostAlreadyHosting);
        }
        if self.game_open.len() >= self.max_open_game {
            return Err(GameError::OpenSlotsExceeded);
        }
        let id = crate::ids::gen_id(&seed, self.block_number);
        if find_session_idx(&self.sessions, &id).is_some() {
            return Err(GameError::IdAlreadyUsed);
        }
        if find_ended_idx(&self.ended, &id).is_some() {
            return Err(GameError::IdAlreadyUsed);
        }
        let roster: Vec<AccountId> = Vec::new();
        let session = Session { id, host, ticket, roster, status: GameStatus::Open };
        let ghost gsess = session;
        let ghost o = *old(self);
        self.sessions.push(session);
        self.game_open.push(id);
        self.hosting.push(HostEntry { host, game: id });
        proof {
            let n = *self;
            let idv = id@;
            lemma_sessions_push(o.sessions@, gsess);
            lemma_ids_push(o.game_open@, id);
            lemma_hosting_push(o.hosting@, HostEntry { host, game: id });
            assert(!ids_has(o.game_open@, idv)) by {
                if ids_has(o.game_open@, idv) {
                    let i = choose|i: int|
                        0 <= i < o.game_open@.len() && o.game_open@[i]@ == idv;
                    assert(session_with_status(o.sessions@, idv, GameStatus::Open));
                    let j = choose|j: int|
                        0 <= j < o.sessions@.len() && o.sessions@[j].id@ == idv
                            && o.sessions@[j].status == GameStatus::Open;
                    assert(sessions_has(o.sessions@, idv));
                }
            }
            assert(sessions_unique(n.sessions@)) by {
                assert forall|i: int, j: int| 0 <= i < j < n.sessions@.len() implies
                    n.sessions@[i].id@ != n.sessions@[j].id@ by {
                    if j < o.sessions@.len() {
                        assert(o.sessions@[i].id@ != o.sessions@[j].id@);
                    } else {
                        assert(n.sessions@[j] == gsess);
                        assert(n.sessions@[i] == o.sessions@[i]);
                        if o.sessions@[i].id@ == idv {
                            assert(sessions_has(o.sessions@, idv));
                        }
                    }
                }
            }
            assert(ids_unique(n.game_open@)) by {
                assert forall|i: int, j: int| 0 <= i < j < n.game_open@.len() implies
                    n.game_open@[i]@ != n.game_open@[j]@ by {
                    if j < o.game_open@.len() {
                        assert(o.game_open@[i]@ != o.game_open@[j]@);
                    } else {
                        assert(n.game_open@[i] == o.game_open@[i]);
                        if o.game_open@[i]@ == idv {
                            assert(ids_has(o.game_open@, idv));
                        }
                    }
                }
            }
            assert(hosting_unique(n.hosting@)) by {
                assert forall|i: int, j: int| 0 <= i < j < n.hosting@.len() implies
                    n.hosting@[i].host@ != n.hosting@[j].host@ by {
                    if j < o.hosting@.len() {
                        assert(o.hosting@[i].host@ != o.hosting@[j].host@);
                    } else {
                        assert(n.hosting@[i] == o.hosting@[i]);
                        if o.hosting@[i].host@ == host@ {
                            assert(hosting_has(o.hosting@, host@));
                        }
                    }
                }
            }
            assert(n.sessions_ok()) by {
                assert forall|i: int| 0 <= i < n.sessions@.len() implies {
                    &&& session_ok(#[trigger] n.sessions@[i])
                    &&& hosting_at(n.hosting@, n.sessions@[i].host@, n.sessions@[i].id@)
                    &&& (n.sessions@[i].status == GameStatus::Open ==> ids_has(
                        n.game_open@,
                        n.sessions@[i].id@,
                    ))
                    &&& (n.sessions@[i].status == GameStatus::Start ==> ids_has(
                        n.game_start@,
                        n.sessions@[i].id@,
                    ))
                    &&& (forall|k: int| 0 <= k < n.sessions@[i].roster@.len() ==> playing_at(
                        n.playing@,
                        (#[trigger] n.sessions@[i].roster@[k])@,
                        n.sessions@[i].id@,
                    ))
                    &&& !ended_has(n.ended@, n.sessions@[i].id@)
                } by {
                    if i < o.sessions@.len() {
                        assert(o.sessions_ok());
                        assert(n.sessions@[i] == o.sessions@[i]);
                        assert(session_ok(o.sessions@[i]));
                        assert(hosting_at(o.hosting@, o.sessions@[i].host@, o.sessions@[i].id@));
                        assert(o.sessions@[i].status == GameStatus::Open ==> ids_has(
                            o.game_open@,
                            o.sessions@[i].id@,
                        ));
                    } else {
                        assert(n.sessions@[i] == gsess);
                    }
                }
            }
            assert(n.open_index_ok()) by {
                assert forall|i: int| 0 <= i < n.game_open@.len() implies session_with_status(
                    n.sessions@,
                    (#[trigger] n.game_open@[i])@,
                    GameStatus::Open,
                ) by {
                    if i < o.game_open@.len() {
                        assert(o.open_index_ok());
                        assert(n.game_open@[i] == o.game_open@[i]);
                        assert(session_with_status(
                            o.sessions@,
                            o.game_open@[i]@,
                            GameStatus::Open,
                        ));
                    } else {
                        assert(n.game_open@[i] == id);
                    }
                }
            }
            assert(n.start_index_ok()) by {
                assert forall|i: int| 0 <= i < n.game_start@.len() implies {
                    &&& session_with_status(
                        n.sessions@,
                        (#[trigger] n.game_start@[i])@,
                        GameStatus::Start,
                    )
                    &&& boards_has(n.boards@, n.game_start@[i]@)
                    &&& turns_has(n.turns@, n.game_start@[i]@)
                } by {
                    assert(o.start_index_ok());
                    assert(session_with_status(
                        o.sessions@,
                        o.game_start@[i]@,
                        GameStatus::Start,
                    ));
                }
            }
            assert(n.hosting_ok()) by {
                assert forall|i: int| 0 <= i < n.hosting@.len() implies session_of_host(
                    n.sessions@,
                    (#[trigger] n.hosting@[i]).game@,
                    n.hosting@[i].host@,
                ) by {
                    if i < o.hosting@.len() {
                        assert(o.hosting_ok());
                        assert(n.hosting@[i] == o.hosting@[i]);
                        assert(session_of_host(
                            o.sessions@,
                            o.hosting@[i].game@,
                            o.hosting@[i].host@,
                        ));
                    } else {
                        assert(n.hosting@[i] == HostEntry { host, game: id });
                    }
                }
            }
            assert(n.playing_ok()) by {
                assert forall|i: int| 0 <= i < n.playing@.len() implies session_with_member(
                    n.sessions@,
                    (#[trigger] n.playing@[i]).game@,
                    n.playing@[i].player@,
                ) by {
                    assert(o.playing_ok());
                    assert(session_with_member(
                        o.sessions@,
                        o.playing@[i].game@,
                        o.playing@[i].player@,
                    ));
                }
            }
            assert(n.boards_ok()) by {
                assert forall|i: int| 0 <= i < n.boards@.len() implies {
                    &&& crate::board::board_wf((#[trigger] n.boards@[i]).cells@)
                    &&& session_with_status(n.sessions@, n.boards@[i].game@, GameStatus::Start)
                } by {
                    assert(o.boards_ok());
                    assert(crate::board::board_wf(o.boards@[i].cells@));
                    assert(session_with_status(o.sessions@, o.boards@[i].game@, GameStatus::Start));
                }
            }
            assert(n.turns_ok()) by {
                assert forall|i: int| 0 <= i < n.turns@.len() implies started_session_with_member(
                    n.sessions@,
                    (#[trigger] n.turns@[i]).game@,
                    n.turns@[i].holder@,
                ) by {
                    assert(o.turns_ok());
                    assert(started_session_with_member(
                        o.sessions@,
                        o.turns@[i].game@,
                        o.turns@[i].holder@,
                    ));
                }
            }
        }
        Ok(id)
    }

    /// Opens a session and joins it in the same atomic step: the caller
    /// becomes host and first roster member and pays the stake. Every check
    /// of both halves runs before any mutation, so a failure changes
    /// nothing.
    pub fn open_and_join(&mut self, caller: AccountId, ticket: u64, seed: [u8; 32]) -> (r: Result<
        GameId,
        GameError,
    >)
        requires
            old(self).wf(),
        ensures
            final(self).wf(),
            ({
                let idv = crate::ids::blake2b_256_of(
                    crate::ids::id_payload(seed@, old(self).block_number),
                );
                match r {
                    Ok(id) => {
                        &&& id@ == idv
                        &&& !hosting_has(old(self).hosting@, caller@)
                        &&& old(self).game_open@.len() < old(self).max_open_game
                        &&& !sessions_has(old(self).sessions@, idv)
                        &&& !ended_has(old(self).ended@, idv)
                        &&& !playing_has(old(self).playing@, caller@)
                        &&& ticket <= balance_of(old(self).ledger@, caller@)
                        &&& final(self).sessions@.len() == old(self).sessions@.len() + 1
                        &&& (forall|j: int|
                            0 <= j < old(self).sessions@.len()
                                ==> final(self).sessions@[j] == old(self).sessions@[j])
                        &&& final(self).sessions@.last().id == id
                        &&& final(self).sessions@.last().host == caller
                        &&& final(self).sessions@.last().ticket == ticket
                        &&& final(self).sessions@.last().status == GameStatus::Open
                        &&& final(self).sessions@.last().roster@.len() == 1
                        &&& final(self).sessions@.last().roster@[0] == caller
                        &&& final(self).game_open@ == old(self).game_open@.push(id)
                        &&& final(self).hosting@ == old(self).hosting@.push(
                            HostEntry { host: caller, game: id },
                        )
                        &&& final(self).playing@ == old(self).playing@.push(
                            PlayEntry { player: caller, game: id },
                        )
                        &&& balance_of(final(self).ledger@, caller@) == balance_of(
                            old(self).ledger@,
                            caller@,
                        ) - ticket
                        &&& (forall|q: Seq<u8>|
                            q != caller@ ==> balance_of(final(self).ledger@, q) == balance_of(
                                old(self).ledger@,
                                q,
                            ))
                        &&& (forall|q: Seq<u8>| #[trigger] ledger_has(final(self).ledger@, q)
                            <==> ledger_has(old(self).ledger@, q))
                        &&& final(self).game_start == old(self).game_start
                        &&& final(self).boards == old(self).boards
                        &&& final(self).turns == old(self).turns
                        &&& final(self).ended == old(self).ended
                        &&& final(self).max_player == old(self).max_player
                        &&& final(self).max_open_game == old(self).max_open_game
                        &&& final(self).max_ended_game == old(self).max_ended_game
                        &&& final(self).block_number == old(self).block_number
                    },
                    Err(e) => {
                        &&& *final(self) == *old(self)
                        &&& if hosting_has(old(self).hosting@, caller@) {
                            e == GameError::HostAlreadyHosting
                        } else if old(self).game_open@.len() >= old(self).max_open_game {
                            e == GameError::OpenSlotsExceeded
                        } else if sessions_has(old(self).sessions@, idv) || ended_has(
                            old(self).ended@,
                            idv,
                        ) {
                            e == GameError::IdAlreadyUsed
                        } else if playing_has(old(self).playing@, caller@) {
                            e == GameError::PlayerAlreadyPlaying
                        } else {
                            e == GameError::InsufficientFunds && balance_of(
                                old(self).ledger@,
                                caller@,
                            ) < ticket
                        }
                    },
                }
            }),
    {
        let ghost o = *old(self);
        if find_host_idx(&self.hosting, &caller).is_some() {
            return Err(GameError::HostAlreadyHosting);
        }
        if self.game_open.len() >= self.max_open_game {
            return Err(GameError::OpenSlotsExceeded);
        }
        let probe = crate::ids::gen_id(&seed, self.block_number);
        if find_session_idx(&self.sessions, &probe).is_some() {
            return Err(GameError::IdAlreadyUsed);
        }
        if find_ended_idx(&self.ended, &probe).is_some() {
            return Err(GameError::IdAlreadyUsed);
        }
        if find_play_idx(&self.playing, &caller).is_some() {
            return Err(GameError::PlayerAlreadyPlaying);
        }
        if self.free_balance(&caller) < ticket {
            return Err(GameError::InsufficientFunds);
        }
        let id = match self.open_game(caller, ticket, seed) {
            Ok(id) => id,
            Err(_) => {
                proof {
                    assert(false);
                }
                return Err(GameError::IdAlreadyUsed);
            },
        };
        let ghost m = *self;
        match self.join(caller, id) {
            Ok(_) => {
                proof {
                    let n = *self;
                    let idv = crate::ids::blake2b_256_of(
                        crate::ids::id_payload(seed@, o.block_number),
                    );
                    let si = choose|si: int|
                        {
                            &&& 0 <= si < m.sessions@.len()
                            &&& (#[trigger] m.sessions@[si]).id@ == id@
                            &&& m.sessions@[si].status == GameStatus::Open
                            &&& !playing_has(m.playing@, caller@)
                            &&& m.sessions@[si].roster@.len() < m.max_player
                            &&& m.sessions@[si].ticket <= balance_of(m.ledger@, caller@)
                            &&& n.sessions@.len() == m.sessions@.len()
                            &&& (forall|j: int|
                                0 <= j < m.sessions@.len() && j != si ==> n.sessions@[j]
                                    == m.sessions@[j])
                            &&& n.sessions@[si].id == m.sessions@[si].id
                            &&& n.sessions@[si].host == m.sessions@[si].host
                            &&& n.sessions@[si].ticket == m.sessions@[si].ticket
                            &&& n.sessions@[si].status == m.sessions@[si].status
                            &&& n.sessions@[si].roster@ == m.sessions@[si].roster@.push(caller)
                            &&& n.playing@ == m.playing@.push(PlayEntry { player: caller, game: id })
                            &&& balance_of(n.ledger@, caller@) == balance_of(m.ledger@, caller@)
                                - m.sessions@[si].ticket
                            &&& (forall|q: Seq<u8>|
                                q != caller@ ==> balance_of(n.ledger@, q) == balance_of(
                                    m.ledger@,
                                    q,
                                ))
                            &&& (forall|q: Seq<u8>| #[trigger] ledger_has(n.ledger@, q)
                                <==> ledger_has(m.ledger@, q))
                        };
                    assert(si == o.sessions@.len() as int) by {
                        if si < o.sessions@.len() {
                            assert(m.sessions@[si] == o.sessions@[si]);
                            assert(sessions_has(o.sessions@, idv));
                        }
                    }
                    assert(n.sessions@.last().roster@ == Seq::<AccountId>::empty().push(caller))
                        by {
                        assert(m.sessions@[si].roster@.len() == 0);
                        assert(m.sessions@[si].roster@ =~= Seq::<AccountId>::empty());
                    }
                    assert(n.sessions@.last().roster@.len() == 1);
                    assert(n.sessions@.last().roster@[0] == caller);
                    assert(n.game_open@ == o.game_open@.push(id));
                    assert(n.playing@ == o.playing@.push(PlayEntry { player: caller, game: id }));
                    assert(balance_of(n.ledger@, caller@) == balance_of(o.ledger@, caller@)
                        - ticket);
                }
                Ok(id)
            },
            Err(_) => {
                proof {
                    let idv = crate::ids::blake2b_256_of(
                        crate::ids::id_payload(seed@, o.block_number),
                    );
                    assert(sessions_has(m.sessions@, id@)) by {
                        assert(m.sessions@.last().id == id);
                    }
                    assert(session_with_status(m.sessions@, id@, GameStatus::Open)) by {
                        assert(m.sessions@.last().id == id);
                        assert(m.sessions@.last().status == GameStatus::Open);
                    }
                    assert(!playing_has(m.playing@, caller@));
                    assert forall|sj: int|
                        0 <= sj < m.sessions@.len() && (#[trigger] m.sessions@[sj]).id@ == id@
                            implies m.sessions@[sj].roster@.len() < m.max_player by {
                        if sj < o.sessions@.len() {
                            assert(m.sessions@[sj] == o.sessions@[sj]);
                            assert(sessions_has(o.sessions@, idv));
                        } else {
                            assert(m.sessions@[sj].roster@.len() == 0);
                            assert(m.max_player >= 1);
                        }
                    }
                    assert forall|sj: int|
                        0 <= sj < m.sessions@.len() && (#[trigger] m.sessions@[sj]).id@ == id@
                            implies !(balance_of(m.ledger@, caller@) < m.sessions@[sj].ticket) by {
                        if sj < o.sessions@.len() {
                            assert(m.sessions@[sj] == o.sessions@[sj]);
                            assert(sessions_has(o.sessions@, idv));
                        } else {
                            assert(m.sessions@[sj].ticket == ticket);
                        }
                    }
                    assert(false);
                }
                Err(GameError::SessionNotFound)
            },
        }
    }

    /// Joins an open session: appends the player to the roster, records the
    /// playing index entry, and escrows the session's stake from the
    /// player's balance. All checks precede every mutation, so a failed join
    /// changes nothing.
    pub fn join(&mut self, player: AccountId, game_id: GameId) -> (r: Result<(), GameError>)
        requires
            old(self).wf(),
        ensures
            final(self).wf(),
            match r {
                Ok(_) => exists|si: int|
                    {
                        &&& 0 <= si < old(self).sessions@.len()
                        &&& (#[trigger] old(self).sessions@[si]).id@ == game_id@
                        &&& old(self).sessions@[si].status == GameStatus::Open
                        &&& !playing_has(old(self).playing@, player@)
                        &&& old(self).sessions@[si].roster@.len() < old(self).max_player
                        &&& old(self).sessions@[si].ticket <= balance_of(
                            old(self).ledger@,
                            player@,
                        )
                        &&& final(self).sessions@.len() == old(self).sessions@.len()
                        &&& (forall|j: int|
                            0 <= j < old(self).sessions@.len() && j != si
                                ==> final(self).sessions@[j] == old(self).sessions@[j])
                        &&& final(self).sessions@[si].id == old(self).sessions@[si].id
                        &&& final(self).sessions@[si].host == old(self).sessions@[si].host
                        &&& final(self).sessions@[si].ticket == old(self).sessions@[si].ticket
                        &&& final(self).sessions@[si].status == old(self).sessions@[si].status
                        &&& final(self).sessions@[si].roster@ == old(
                            self,
                        ).sessions@[si].roster@.push(player)
                        &&& final(self).playing@ == old(self).playing@.push(
                            PlayEntry { player, game: game_id },
                        )
                        &&& balance_of(final(self).ledger@, player@) == balance_of(
                            old(self).ledger@,
                            player@,
                        ) - old(self).sessions@[si].ticket
                        &&& (forall|q: Seq<u8>|
                            q != player@ ==> balance_of(final(self).ledger@, q) == balance_of(
                                old(self).ledger@,
                                q,
                            ))
                        &&& (forall|q: Seq<u8>| #[trigger] ledger_has(final(self).ledger@, q)
                            <==> ledger_has(old(self).ledger@, q))
                        &&& final(self).game_open == old(self).game_open
                        &&& final(self).game_start == old(self).game_start
                        &&& final(self).hosting == old(self).hosting
                        &&& final(self).boards == old(self).boards
                        &&& final(self).turns == old(self).turns
                        &&& final(self).ended == old(self).ended
                        &&& final(self).max_player == old(self).max_player
                        &&& final(self).max_open_game == old(self).max_open_game
                        &&& final(self).max_ended_game == old(self).max_ended_game
                        &&& final(self).block_number == old(self).block_number
                    },
                Err(e) => {
                    &&& *final(self) == *old(self)
                    &&& if !sessions_has(old(self).sessions@, game_id@) {
                        e == GameError::SessionNotFound
                    } else if !session_with_status(
                        old(self).sessions@,
                        game_id@,
                        GameStatus::Open,
                    ) {
                        e == GameError::SessionNotOpen
                    } else if playing_has(old(self).playing@, player@) {
                        e == GameError::PlayerAlreadyPlaying
                    } else if exists|si: int|
                        0 <= si < old(self).sessions@.len() && (#[trigger] old(
                            self,
                        ).sessions@[si]).id@ == game_id@ && old(self).sessions@[si].roster@.len()
                            >= old(self).max_player {
                        e == GameError::RosterFull
                    } else {
                        &&& e == GameError::InsufficientFunds
                        &&& exists|si: int|
                            0 <= si < old(self).sessions@.len() && (#[trigger] old(
                                self,
                            ).sessions@[si]).id@ == game_id@ && balance_of(
                                old(self).ledger@,
                                player@,
                            ) < old(self).sessions@[si].ticket
                    }
                },
            },
    {
        let ghost o = *old(self);
        let si = match find_session_idx(&self.sessions, &game_id) {
            None => {
                return Err(GameError::SessionNotFound);
            },
            Some(si) => si,
        };
        proof {
            lemma_session_lookup(o.sessions@, si as int);
        }
        if self.sessions[si].status != GameStatus::Open {
            proof {
                if session_with_status(o.sessions@, game_id@, GameStatus::Open) {
                    assert(o.sessions@[si as int].status == GameStatus::Open);
                }
            }
            return Err(GameError::SessionNotOpen);
        }
        if find_play_idx(&self.playing, &player).is_some() {
            return Err(GameError::PlayerAlreadyPlaying);
        }
        if self.sessions[si].roster.len() >= self.max_player as usize {
            return Err(GameError::RosterFull);
        }
        proof {
            assert forall|sj: int|
                0 <= sj < o.sessions@.len() && (#[trigger] o.sessions@[sj]).id@ == game_id@
                    implies o.sessions@[sj].roster@.len() < o.max_player by {
                if sj != si as int {
                    if sj < si as int {
                        assert(o.sessions@[sj].id@ != o.sessions@[si as int].id@);
                    } else {
                        assert(o.sessions@[si as int].id@ != o.sessions@[sj].id@);
                    }
                }
            }
        }
        let ticket = self.sessions[si].ticket;
        if ticket > 0 {
            let li = match find_ledger_idx(&self.ledger, &player) {
                None => {
                    return Err(GameError::InsufficientFunds);
                },
                Some(li) => li,
            };
            proof {
                lemma_balance_at(o.ledger@, li as int);
            }
            let held = self.ledger[li].amount;
            if held < ticket {
                return Err(GameError::InsufficientFunds);
            }
            let entry = BalanceEntry { account: self.ledger[li].account, amount: held - ticket };
            proof {
                lemma_balance_update(o.ledger@, li as int, entry);
            }
            self.ledger.set(li, entry);
        }
        let mut sess = self.sessions.remove(si);
        sess.roster.push(player);
        let ghost gsess = sess;
        self.sessions.insert(si, sess);
        self.playing.push(PlayEntry { player, game: game_id });
        proof {
            let n = *self;
            let siv = si as int;
            assert(n.sessions@ =~= o.sessions@.update(siv, gsess));
            lemma_sessions_update(o.sessions@, siv, gsess);
            lemma_playing_push(o.playing@, PlayEntry { player, game: game_id });
            lemma_roster_push(o.sessions@[siv].roster@, player);
            assert(playing_unique(n.playing@)) by {
                assert forall|i: int, j: int| 0 <= i < j < n.playing@.len() implies
                    n.playing@[i].player@ != n.playing@[j].player@ by {
                    if j < o.playing@.len() {
                        assert(o.playing@[i].player@ != o.playing@[j].player@);
                    } else {
                        assert(n.playing@[i] == o.playing@[i]);
                        if o.playing@[i].player@ == player@ {
                            assert(playing_has(o.playing@, player@));
                        }
                    }
                }
            }
            assert(!roster_has(o.sessions@[siv].roster@, player@)) by {
                if roster_has(o.sessions@[siv].roster@, player@) {
                    assert(o.sessions_ok());
                    let k = choose|k: int|
                        0 <= k < o.sessions@[siv].roster@.len() && o.sessions@[siv].roster@[k]@
                            == player@;
                    assert(playing_at(o.playing@, o.sessions@[siv].roster@[k]@, o.sessions@[siv].id@));
                    let pi = choose|pi: int|
                        0 <= pi < o.playing@.len() && o.playing@[pi].player@ == player@
                            && o.playing@[pi].game@ == o.sessions@[siv].id@;
                    assert(playing_has(o.playing@, player@));
                }
            }
            assert(session_ok(gsess)) by {
                assert forall|a: int, b: int| 0 <= a < b < gsess.roster@.len() implies
                    gsess.roster@[a]@ != gsess.roster@[b]@ by {
                    if b < o.sessions@[siv].roster@.len() {
                        assert(o.sessions@[siv].roster@[a]@ != o.sessions@[siv].roster@[b]@);
                    } else {
                        assert(gsess.roster@[b]@ == player@);
                        assert(gsess.roster@[a] == o.sessions@[siv].roster@[a]);
                        if o.sessions@[siv].roster@[a]@ == player@ {
                            assert(roster_has(o.sessions@[siv].roster@, player@));
                        }
                    }
                }
            }
            assert(n.sessions_ok()) by {
                assert forall|i: int| 0 <= i < n.sessions@.len() implies {
                    &&& session_ok(#[trigger] n.sessions@[i])
                    &&& hosting_at(n.hosting@, n.sessions@[i].host@, n.sessions@[i].id@)
                    &&& (n.sessions@[i].status == GameStatus::Open ==> ids_has(
                        n.game_open@,
                        n.sessions@[i].id@,
                    ))
                    &&& (n.sessions@[i].status == GameStatus::Start ==> ids_has(
                        n.game_start@,
                        n.sessions@[i].id@,
                    ))
                    &&& (forall|k: int| 0 <= k < n.sessions@[i].roster@.len() ==> playing_at(
                        n.playing@,
                        (#[trigger] n.sessions@[i].roster@[k])@,
                        n.sessions@[i].id@,
                    ))
                    &&& !ended_has(n.ended@, n.sessions@[i].id@)
                } by {
                    assert(o.sessions_ok());
                    if i != siv {
                        assert(n.sessions@[i] == o.sessions@[i]);
                        assert forall|k: int| 0 <= k < n.sessions@[i].roster@.len() implies
                            playing_at(
                                n.playing@,
                                (#[trigger] n.sessions@[i].roster@[k])@,
                                n.sessions@[i].id@,
                            ) by {
                            assert(playing_at(
                                o.playing@,
                                o.sessions@[i].roster@[k]@,
                                o.sessions@[i].id@,
                            ));
                        }
                    } else {
                        assert(n.sessions@[i] == gsess);
                        assert forall|k: int| 0 <= k < gsess.roster@.len() implies playing_at(
                            n.playing@,
                            (#[trigger] gsess.roster@[k])@,
                            gsess.id@,
                        ) by {
                            if k < o.sessions@[siv].roster@.len() {
                                assert(gsess.roster@[k] == o.sessions@[siv].roster@[k]);
                                assert(playing_at(
                                    o.playing@,
                                    o.sessions@[siv].roster@[k]@,
                                    o.sessions@[siv].id@,
                                ));
                            } else {
                                assert(gsess.roster@[k]@ == player@);
                                assert(gsess.id@ == game_id@);
                            }
                        }
                    }
                }
            }
            assert(n.open_index_ok()) by {
                assert forall|i: int| 0 <= i < n.game_open@.len() implies session_with_status(
                    n.sessions@,
                    (#[trigger] n.game_open@[i])@,
                    GameStatus::Open,
                ) by {
                    assert(o.open_index_ok());
                    assert(session_with_status(o.sessions@, o.game_open@[i]@, GameStatus::Open));
                }
            }
            assert(n.start_index_ok()) by {
                assert forall|i: int| 0 <= i < n.game_start@.len() implies {
                    &&& session_with_status(
                        n.sessions@,
                        (#[trigger] n.game_start@[i])@,
                        GameStatus::Start,
                    )
                    &&& boards_has(n.boards@, n.game_start@[i]@)
                    &&& turns_has(n.turns@, n.game_start@[i]@)
                } by {
                    assert(o.start_index_ok());
                    assert(session_with_status(o.sessions@, o.game_start@[i]@, GameStatus::Start));
                    if o.game_start@[i]@ == game_id@ {
                        assert(o.sessions@[siv].status == GameStatus::Start);
                    }
                }
            }
            assert(n.hosting_ok()) by {
                assert forall|i: int| 0 <= i < n.hosting@.len() implies session_of_host(
                    n.sessions@,
                    (#[trigger] n.hosting@[i]).game@,
                    n.hosting@[i].host@,
                ) by {
                    assert(o.hosting_ok());
                    assert(session_of_host(o.sessions@, o.hosting@[i].game@, o.hosting@[i].host@));
                    if o.hosting@[i].game@ == game_id@ {
                        assert(o.hosting@[i].host@ == o.sessions@[siv].host@);
                    }
                }
            }
            assert(n.playing_ok()) by {
                assert forall|i: int| 0 <= i < n.playing@.len() implies session_with_member(
                    n.sessions@,
                    (#[trigger] n.playing@[i]).game@,
                    n.playing@[i].player@,
                ) by {
                    if i < o.playing@.len() {
                        assert(o.playing_ok());
                        assert(n.playing@[i] == o.playing@[i]);
                        assert(session_with_member(
                            o.sessions@,
                            o.playing@[i].game@,
                            o.playing@[i].player@,
                        ));
                        if o.playing@[i].game@ == game_id@ {
                            assert(roster_has(o.sessions@[siv].roster@, o.playing@[i].player@));
                            assert(roster_has(gsess.roster@, o.playing@[i].player@));
                        }
                    } else {
                        assert(n.playing@[i] == PlayEntry { player, game: game_id });
                        assert(roster_has(gsess.roster@, player@));
                    }
                }
            }
            assert(n.boards_ok()) by {
                assert forall|i: int| 0 <= i < n.boards@.len() implies {
                    &&& crate::board::board_wf((#[trigger] n.boards@[i]).cells@)
                    &&& session_with_status(n.sessions@, n.boards@[i].game@, GameStatus::Start)
                } by {
                    assert(o.boards_ok());
                    assert(crate::board::board_wf(o.boards@[i].cells@));
                    assert(session_with_status(o.sessions@, o.boards@[i].game@, GameStatus::Start));
                    if o.boards@[i].game@ == game_id@ {
                        assert(o.sessions@[siv].status == GameStatus::Start);
                    }
                }
            }
            assert(n.turns_ok()) by {
                assert forall|i: int| 0 <= i < n.turns@.len() implies started_session_with_member(
                    n.sessions@,
                    (#[trigger] n.turns@[i]).game@,
                    n.turns@[i].holder@,
                ) by {
                    assert(o.turns_ok());
                    assert(started_session_with_member(
                        o.sessions@,
                        o.turns@[i].game@,
                        o.turns@[i].holder@,
                    ));
                    if o.turns@[i].game@ == game_id@ {
                        assert(o.sessions@[siv].status == GameStatus::Start);
                    }
                }
            }
        }
        Ok(())
    }

    /// Starts the session the caller plays in, once the roster is full:
    /// moves the identifier from the open index to the started index (the
    /// open index uses swap-remove, so its order is not preserved),
    /// initialises an empty board, and gives the first turn to the caller.
    pub fn start(&mut self, caller: AccountId) -> (r: Result<(), GameError>)
        requires
            old(self).wf(),
        ensures
            final(self).wf(),
            match r {
                Ok(_) => exists|si: int|
                    {
                        &&& 0 <= si < old(self).sessions@.len()
                        &&& playing_at(
                            old(self).playing@,
                            caller@,
                            (#[trigger] old(self).sessions@[si]).id@,
                        )
                        &&& old(self).sessions@[si].roster@.len() == old(self).max_player
                        &&& old(self).sessions@[si].status == GameStatus::Open
                        &&& final(self).sessions@.len() == old(self).sessions@.len()
                        &&& (forall|j: int|
                            0 <= j < old(self).sessions@.len() && j != si
                                ==> final(self).sessions@[j] == old(self).sessions@[j])
                        &&& final(self).sessions@[si].id == old(self).sessions@[si].id
                        &&& final(self).sessions@[si].host == old(self).sessions@[si].host
                        &&& final(self).sessions@[si].ticket == old(self).sessions@[si].ticket
                        &&& final(self).sessions@[si].roster@ == old(self).sessions@[si].roster@
                        &&& final(self).sessions@[si].status == GameStatus::Start
                        &&& (exists|oi: int|
                            0 <= oi < old(self).game_open@.len()
                                && (#[trigger] old(self).game_open@[oi])@
                                == old(self).sessions@[si].id@
                                && final(self).game_open@
                                == old(self).game_open@.update(
                                oi,
                                old(self).game_open@.last(),
                            ).drop_last())
                        &&& final(self).game_start@ == old(self).game_start@.push(
                            old(self).sessions@[si].id,
                        )
                        &&& final(self).boards@.len() == old(self).boards@.len() + 1
                        &&& (forall|j: int|
                            0 <= j < old(self).boards@.len()
                                ==> final(self).boards@[j] == old(self).boards@[j])
                        &&& final(self).boards@.last().game == old(self).sessions@[si].id
                        &&& final(self).boards@.last().cells@.len() == 225
                        &&& (forall|c: int|
                            0 <= c < 225 ==> final(self).boards@.last().cells@[c] == -1)
                        &&& final(self).turns@ == old(self).turns@.push(
                            TurnEntry { game: old(self).sessions@[si].id, holder: caller },
                        )
                        &&& final(self).hosting == old(self).hosting
                        &&& final(self).playing == old(self).playing
                        &&& final(self).ended == old(self).ended
                        &&& final(self).ledger == old(self).ledger
                        &&& final(self).max_player == old(self).max_player
                        &&& final(self).max_open_game == old(self).max_open_game
                        &&& final(self).max_ended_game == old(self).max_ended_game
                        &&& final(self).block_number == old(self).block_number
                    },
                Err(e) => {
                    &&& *final(self) == *old(self)
                    &&& if !playing_has(old(self).playing@, caller@) {
                        e == GameError::CallerNotPlaying
                    } else if exists|si: int|
                        0 <= si < old(self).sessions@.len() && playing_at(
                            old(self).playing@,
                            caller@,
                            (#[trigger] old(self).sessions@[si]).id@,
                        ) && old(self).sessions@[si].roster@.len() != old(self).max_player {
                        e == GameError::NotEnoughPlayers
                    } else {
                        &&& e == GameError::SessionNotFound
                        &&& exists|si: int|
                            0 <= si < old(self).sessions@.len() && playing_at(
                                old(self).playing@,
                                caller@,
                                (#[trigger] old(self).sessions@[si]).id@,
                            ) && old(self).sessions@[si].status != GameStatus::Open
                    }
                },
            },
    {
        let ghost o = *old(self);
        let pi = match find_play_idx(&self.playing, &caller) {
            None => {
                return Err(GameError::CallerNotPlaying);
            },
            Some(pi) => pi,
        };
        let target: GameId = self.playing[pi].game;
        proof {
            assert(o.playing_ok());
            assert(session_with_member(o.sessions@, o.playing@[pi as int].game@, caller@));
        }
        let si = match find_session_idx(&self.sessions, &target) {
            None => {
                proof {
                    let j = choose|j: int|
                        0 <= j < o.sessions@.len() && o.sessions@[j].id@ == target@ && roster_has(
                            o.sessions@[j].roster@,
                            caller@,
                        );
                    assert(sessions_has(o.sessions@, target@));
                }
                return Err(GameError::SessionNotFound);
            },
            Some(si) => si,
        };
        let game_id: GameId = self.sessions[si].id;
        proof {
            lemma_session_lookup(o.sessions@, si as int);
            assert(playing_at(o.playing@, caller@, o.sessions@[si as int].id@));
        }
        if self.sessions[si].roster.len() != self.max_player as usize {
            return Err(GameError::NotEnoughPlayers);
        }
        proof {
            assert forall|sj: int|
                0 <= sj < o.sessions@.len() && playing_at(
                    o.playing@,
                    caller@,
                    (#[trigger] o.sessions@[sj]).id@,
                ) implies o.sessions@[sj].roster@.len() == o.max_player by {
                if sj != si as int {
                    let a = choose|a: int|
                        0 <= a < o.playing@.len() && o.playing@[a].player@ == caller@
                            && o.playing@[a].game@ == o.sessions@[sj].id@;
                    let b = choose|b: int|
                        0 <= b < o.playing@.len() && o.playing@[b].player@ == caller@
                            && o.playing@[b].game@ == o.sessions@[si as int].id@;
                    if a != b {
                        if a < b {
                            assert(o.playing@[a].player@ != o.playing@[b].player@);
                        } else {
                            assert(o.playing@[b].player@ != o.playing@[a].player@);
                        }
                    }
                    assert(o.sessions@[sj].id@ == o.sessions@[si as int].id@);
                    if sj < si as int {
                        assert(o.sessions@[sj].id@ != o.sessions@[si as int].id@);
                    } else {
                        assert(o.sessions@[si as int].id@ != o.sessions@[sj].id@);
                    }
                }
            }
        }
        let oi = match find_id_idx(&self.game_open, &game_id) {
            None => {
                proof {
                    assert(o.sessions_ok());
                    if o.sessions@[si as int].status == GameStatus::Open {
                        assert(ids_has(o.game_open@, o.sessions@[si as int].id@));
                    }
                }
                return Err(GameError::SessionNotFound);
            },
            Some(oi) => oi,
        };
        proof {
            assert(o.open_index_ok());
            assert(session_with_status(o.sessions@, o.game_open@[oi as int]@, GameStatus::Open));
            assert(o.sessions@[si as int].status == GameStatus::Open);
        }
        self.game_open.swap_remove(oi);
        self.game_start.push(game_id);
        let mut sess = self.sessions.remove(si);
        sess.status = GameStatus::Start;
        let ghost gsess = sess;
        self.sessions.insert(si, sess);
        let mut cells: Vec<i8> = Vec::new();
        let mut c: usize = 0;
        while c < crate::board::CELL_COUNT
            invariant
                c <= 225,
                cells@.len() == c,
                forall|m: int| 0 <= m < c ==> cells@[m] == -1,
            decreases 225 - c,
        {
            cells.push(crate::board::EMPTY_CELL);
            c = c + 1;
        }
        let board_entry = BoardEntry { game: game_id, cells };
        let ghost gboard = board_entry;
        self.boards.push(board_entry);
        self.turns.push(TurnEntry { game: game_id, holder: caller });
        proof {
            let n = *self;
            let siv = si as int;
            let gid = o.sessions@[siv].id;
            assert(gid@ == game_id@);
            assert(n.sessions@ =~= o.sessions@.update(siv, gsess));
            lemma_sessions_update(o.sessions@, siv, gsess);
            lemma_ids_swap_remove(o.game_open@, oi as int);
            lemma_ids_push(o.game_start@, game_id);
            lemma_boards_push(o.boards@, gboard);
            lemma_turns_push(o.turns@, TurnEntry { game: game_id, holder: caller });
            assert(!ids_has(o.game_start@, game_id@)) by {
                if ids_has(o.game_start@, game_id@) {
                    assert(o.start_index_ok());
                    let a = choose|a: int|
                        0 <= a < o.game_start@.len() && o.game_start@[a]@ == game_id@;
                    assert(session_with_status(o.sessions@, game_id@, GameStatus::Start));
                }
            }
            assert(!boards_has(o.boards@, game_id@)) by {
                if boards_has(o.boards@, game_id@) {
                    assert(o.boards_ok());
                    let a = choose|a: int| 0 <= a < o.boards@.len() && o.boards@[a].game@ == game_id@;
                    assert(session_with_status(o.sessions@, game_id@, GameStatus::Start));
                }
            }
            assert(!turns_has(o.turns@, game_id@)) by {
                if turns_has(o.turns@, game_id@) {
                    assert(o.turns_ok());
                    let a = choose|a: int| 0 <= a < o.turns@.len() && o.turns@[a].game@ == game_id@;
                    assert(started_session_with_member(
                        o.sessions@,
                        game_id@,
                        o.turns@[a].holder@,
                    ));
                    let b = choose|b: int|
                        0 <= b < o.sessions@.len() && o.sessions@[b].id@ == game_id@
                            && o.sessions@[b].status == GameStatus::Start && roster_has(
                            o.sessions@[b].roster@,
                            o.turns@[a].holder@,
                        );
                    assert(session_with_status(o.sessions@, game_id@, GameStatus::Start));
                }
            }
            assert(ids_unique(n.game_start@)) by {
                assert forall|a: int, b: int| 0 <= a < b < n.game_start@.len() implies
                    n.game_start@[a]@ != n.game_start@[b]@ by {
                    if b < o.game_start@.len() {
                        assert(o.game_start@[a]@ != o.game_start@[b]@);
                    } else {
                        assert(n.game_start@[a] == o.game_start@[a]);
                        if o.game_start@[a]@ == game_id@ {
                            assert(ids_has(o.game_start@, game_id@));
                        }
                    }
                }
            }
            assert(boards_unique(n.boards@)) by {
                assert forall|a: int, b: int| 0 <= a < b < n.boards@.len() implies
                    n.boards@[a].game@ != n.boards@[b].game@ by {
                    if b < o.boards@.len() {
                        assert(o.boards@[a].game@ != o.boards@[b].game@);
                    } else {
                        assert(n.boards@[a] == o.boards@[a]);
                        if o.boards@[a].game@ == game_id@ {
                            assert(boards_has(o.boards@, game_id@));
                        }
                    }
                }
            }
            assert(turns_unique(n.turns@)) by {
                assert forall|a: int, b: int| 0 <= a < b < n.turns@.len() implies
                    n.turns@[a].game@ != n.turns@[b].game@ by {
                    if b < o.turns@.len() {
                        assert(o.turns@[a].game@ != o.turns@[b].game@);
                    } else {
                        assert(n.turns@[a] == o.turns@[a]);
                        if o.turns@[a].game@ == game_id@ {
                            assert(turns_has(o.turns@, game_id@));
                        }
                    }
                }
            }
            assert(roster_has(gsess.roster@, caller@)) by {
                assert(o.playing_ok());
                assert(session_with_member(o.sessions@, game_id@, caller@));
                assert(roster_has(o.sessions@[siv].roster@, caller@));
            }
            assert(n.sessions_ok()) by {
                assert forall|i: int| 0 <= i < n.sessions@.len() implies {
                    &&& session_ok(#[trigger] n.sessions@[i])
                    &&& hosting_at(n.hosting@, n.sessions@[i].host@, n.sessions@[i].id@)
                    &&& (n.sessions@[i].status == GameStatus::Open ==> ids_has(
                        n.game_open@,
                        n.sessions@[i].id@,
                    ))
                    &&& (n.sessions@[i].status == GameStatus::Start ==> ids_has(
                        n.game_start@,
                        n.sessions@[i].id@,
                    ))
                    &&& (forall|k: int| 0 <= k < n.sessions@[i].roster@.len() ==> playing_at(
                        n.playing@,
                        (#[trigger] n.sessions@[i].roster@[k])@,
                        n.sessions@[i].id@,
                    ))
                    &&& !ended_has(n.ended@, n.sessions@[i].id@)
                } by {
                    assert(o.sessions_ok());
                    if i != siv {
                        assert(n.sessions@[i] == o.sessions@[i]);
                        if o.sessions@[i].status == GameStatus::Open {
                            assert(o.sessions@[i].id@ != game_id@) by {
                                if i < siv {
                                    assert(o.sessions@[i].id@ != o.sessions@[siv].id@);
                                } else {
                                    assert(o.sessions@[siv].id@ != o.sessions@[i].id@);
                                }
                            }
                            assert(ids_has(n.game_open@, o.sessions@[i].id@));
                        }
                    } else {
                        assert(n.sessions@[i] == gsess);
                        assert(session_ok(gsess));
                        assert(ids_has(n.game_start@, gsess.id@));
                    }
                }
            }
            assert(n.open_index_ok()) by {
                assert forall|i: int| 0 <= i < n.game_open@.len() implies session_with_status(
                    n.sessions@,
                    (#[trigger] n.game_open@[i])@,
                    GameStatus::Open,
                ) by {
                    assert(o.open_index_ok());
                    assert(ids_has(n.game_open@, n.game_open@[i]@));
                    assert(ids_has(o.game_open@, n.game_open@[i]@) && n.game_open@[i]@ != game_id@);
                    let a = choose|a: int|
                        0 <= a < o.game_open@.len() && o.game_open@[a]@ == n.game_open@[i]@;
                    assert(session_with_status(
                        o.sessions@,
                        o.game_open@[a]@,
                        GameStatus::Open,
                    ));
                }
            }
            assert(n.start_index_ok()) by {
                assert forall|i: int| 0 <= i < n.game_start@.len() implies {
                    &&& session_with_status(
                        n.sessions@,
                        (#[trigger] n.game_start@[i])@,
                        GameStatus::Start,
                    )
                    &&& boards_has(n.boards@, n.game_start@[i]@)
                    &&& turns_has(n.turns@, n.game_start@[i]@)
                } by {
                    if i < o.game_start@.len() {
                        assert(o.start_index_ok());
                        assert(n.game_start@[i] == o.game_start@[i]);
                        assert(session_with_status(
                            o.sessions@,
                            o.game_start@[i]@,
                            GameStatus::Start,
                        ));
                        assert(o.game_start@[i]@ != game_id@) by {
                            if o.game_start@[i]@ == game_id@ {
                                assert(ids_has(o.game_start@, game_id@));
                            }
                        }
                        assert(boards_has(o.boards@, o.game_start@[i]@));
                        assert(turns_has(o.turns@, o.game_start@[i]@));
                    } else {
                        assert(n.game_start@[i]@ == game_id@);
                        assert(gsess.id@ == game_id@ && gsess.status == GameStatus::Start);
                    }
                }
            }
            assert(n.hosting_ok()) by {
                assert forall|i: int| 0 <= i < n.hosting@.len() implies session_of_host(
                    n.sessions@,
                    (#[trigger] n.hosting@[i]).game@,
                    n.hosting@[i].host@,
                ) by {
                    assert(o.hosting_ok());
                    assert(session_of_host(o.sessions@, o.hosting@[i].game@, o.hosting@[i].host@));
                    if o.hosting@[i].game@ == game_id@ {
                        assert(o.hosting@[i].host@ == o.sessions@[siv].host@);
                    }
                }
            }
            assert(n.playing_ok()) by {
                assert forall|i: int| 0 <= i < n.playing@.len() implies session_with_member(
                    n.sessions@,
                    (#[trigger] n.playing@[i]).game@,
                    n.playing@[i].player@,
                ) by {
                    assert(o.playing_ok());
                    assert(session_with_member(
                        o.sessions@,
                        o.playing@[i].game@,
                        o.playing@[i].player@,
                    ));
                    if o.playing@[i].game@ == game_id@ {
                        assert(roster_has(o.sessions@[siv].roster@, o.playing@[i].player@));
                    }
                }
            }
            assert(n.boards_ok()) by {
                assert forall|i: int| 0 <= i < n.boards@.len() implies {
                    &&& crate::board::board_wf((#[trigger] n.boards@[i]).cells@)
                    &&& session_with_status(n.sessions@, n.boards@[i].game@, GameStatus::Start)
                } by {
                    if i < o.boards@.len() {
                        assert(o.boards_ok());
                        assert(n.boards@[i] == o.boards@[i]);
                        assert(crate::board::board_wf(o.boards@[i].cells@));
                        assert(session_with_status(
                            o.sessions@,
                            o.boards@[i].game@,
                            GameStatus::Start,
                        ));
                        assert(o.boards@[i].game@ != game_id@) by {
                            if o.boards@[i].game@ == game_id@ {
                                assert(boards_has(o.boards@, game_id@));
                            }
                        }
                    } else {
                        assert(n.boards@[i] == gboard);
                        assert(gboard.game@ == game_id@);
                        assert(gsess.id@ == game_id@ && gsess.status == GameStatus::Start);
                    }
                }
            }
            assert(n.turns_ok()) by {
                assert forall|i: int| 0 <= i < n.turns@.len() implies started_session_with_member(
                    n.sessions@,
                    (#[trigger] n.turns@[i]).game@,
                    n.turns@[i].holder@,
                ) by {
                    if i < o.turns@.len() {
                        assert(o.turns_ok());
                        assert(n.turns@[i] == o.turns@[i]);
                        assert(started_session_with_member(
                            o.sessions@,
                            o.turns@[i].game@,
                            o.turns@[i].holder@,
                        ));
                        assert(o.turns@[i].game@ != game_id@) by {
                            if o.turns@[i].game@ == game_id@ {
                                assert(turns_has(o.turns@, game_id@));
                            }
                        }
                    } else {
                        assert(n.turns@[i] == TurnEntry { game: game_id, holder: caller });
                        assert(gsess.status == GameStatus::Start && roster_has(
                            gsess.roster@,
                            caller@,
                        ));
                    }
                }
            }
            assert(game_id == o.sessions@[siv].id);
            assert(playing_at(o.playing@, caller@, o.sessions@[siv].id@));
            assert(o.sessions@[siv].roster@.len() == o.max_player);
            assert(o.sessions@[siv].status == GameStatus::Open);
            assert(n.sessions@.len() == o.sessions@.len());
            assert(n.sessions@[siv].status == GameStatus::Start);
            assert(n.sessions@[siv].roster@ == o.sessions@[siv].roster@);
            assert(o.game_open@[oi as int]@ == o.sessions@[siv].id@);
            assert(n.game_open@ == o.game_open@.update(
                oi as int,
                o.game_open@.last(),
            ).drop_last());
            assert(n.game_start@ == o.game_start@.push(o.sessions@[siv].id));
            assert(n.boards@.len() == o.boards@.len() + 1);
            assert(n.boards@.last().game == o.sessions@[siv].id);
            assert(n.boards@.last().cells@.len() == 225);
            assert(forall|cc: int| 0 <= cc < 225 ==> n.boards@.last().cells@[cc] == -1);
            assert(n.turns@ == o.turns@.push(
                TurnEntry { game: o.sessions@[siv].id, holder: caller },
            ));
        }
        Ok(())
    }

    /// Applies a move for the caller at `(x, y)`. The checks run in order —
    /// active session, active board, coordinates, turn, cell — and a failed
    /// check changes nothing. An accepted move writes the caller's
    /// player-index; five or more in a row on any axis wins and settles the
    /// game, otherwise the turn passes to the next roster entry.
    pub fn play(&mut self, caller: AccountId, x: usize, y: usize) -> (r: Result<
        MoveOutcome,
        GameError,
    >)
        requires
            old(self).wf(),
        ensures
            final(self).wf(),
            match r {
                Ok(MoveOutcome::Continued) => exists|si: int, bi: int, ri: int|
                    {
                        &&& #[trigger] move_setting(*old(self), caller, si, bi, ri)
                        &&& x < 15 && y < 15
                        &&& crate::board::cell_at(old(self).boards@[bi].cells@, x as int, y as int)
                            == -1
                        &&& !crate::board::wins_at(
                            old(self).boards@[bi].cells@.update(x as int * 15 + y as int, ri as i8),
                            ri as i8,
                            x as int,
                            y as int,
                        )
                        &&& continued_state(
                            *old(self),
                            *final(self),
                            caller,
                            x as int,
                            y as int,
                            si,
                            bi,
                            ri,
                        )
                    },
                Ok(MoveOutcome::Won) => exists|si: int, bi: int, ri: int|
                    {
                        &&& #[trigger] move_setting(*old(self), caller, si, bi, ri)
                        &&& x < 15 && y < 15
                        &&& crate::board::cell_at(old(self).boards@[bi].cells@, x as int, y as int)
                            == -1
                        &&& crate::board::wins_at(
                            old(self).boards@[bi].cells@.update(x as int * 15 + y as int, ri as i8),
                            ri as i8,
                            x as int,
                            y as int,
                        )
                        &&& settled_state(
                            *old(self),
                            *final(self),
                            caller,
                            x as int,
                            y as int,
                            si,
                            bi,
                            ri,
                            true,
                        )
                    },
                Err(e) => {
                    if !playing_has(old(self).playing@, caller@) {
                        e == GameError::PlayerNotPlaying && *final(self) == *old(self)
                    } else if exists|si: int|
                        0 <= si < old(self).sessions@.len() && playing_at(
                            old(self).playing@,
                            caller@,
                            (#[trigger] old(self).sessions@[si]).id@,
                        ) && !boards_has(old(self).boards@, old(self).sessions@[si].id@) {
                        e == GameError::NoActiveGame && *final(self) == *old(self)
                    } else if x >= 15 || y >= 15 {
                        e == GameError::CoordinateOutOfRange && *final(self) == *old(self)
                    } else if exists|si: int|
                        0 <= si < old(self).sessions@.len() && playing_at(
                            old(self).playing@,
                            caller@,
                            (#[trigger] old(self).sessions@[si]).id@,
                        ) && !turns_at(old(self).turns@, old(self).sessions@[si].id@, caller@) {
                        e == GameError::NotYourTurn && *final(self) == *old(self)
                    } else if exists|si: int, bi: int|
                        0 <= si < old(self).sessions@.len() && playing_at(
                            old(self).playing@,
                            caller@,
                            (#[trigger] old(self).sessions@[si]).id@,
                        ) && 0 <= bi < old(self).boards@.len() && (#[trigger] old(
                            self,
                        ).boards@[bi]).game@ == old(self).sessions@[si].id@ && crate::board::cell_at(
                            old(self).boards@[bi].cells@,
                            x as int,
                            y as int,
                        ) != -1 {
                        e == GameError::CellOccupied && *final(self) == *old(self)
                    } else {
                        &&& e == GameError::ArchiveFull
                        &&& exists|si: int, bi: int, ri: int|
                            {
                                &&& #[trigger] move_setting(*old(self), caller, si, bi, ri)
                                &&& crate::board::cell_at(
                                    old(self).boards@[bi].cells@,
                                    x as int,
                                    y as int,
                                ) == -1
                                &&& crate::board::wins_at(
                                    old(self).boards@[bi].cells@.update(
                                        x as int * 15 + y as int,
                                        ri as i8,
                                    ),
                                    ri as i8,
                                    x as int,
                                    y as int,
                                )
                                &&& settled_state(
                                    *old(self),
                                    *final(self),
                                    caller,
                                    x as int,
                                    y as int,
                                    si,
                                    bi,
                                    ri,
                                    false,
                                )
                            }
                    }
                },
            },
    {
        let ghost o = *old(self);
        let pi = match find_play_idx(&self.playing, &caller) {
            None => {
                return Err(GameError::PlayerNotPlaying);
            },
            Some(pi) => pi,
        };
        let target: GameId = self.playing[pi].game;
        proof {
            assert(o.playing_ok());
            assert(session_with_member(o.sessions@, o.playing@[pi as int].game@, caller@));
        }
        let si = match find_session_idx(&self.sessions, &target) {
            None => {
                proof {
                    let j = choose|j: int|
                        0 <= j < o.sessions@.len() && o.sessions@[j].id@ == target@ && roster_has(
                            o.sessions@[j].roster@,
                            caller@,
                        );
                    assert(sessions_has(o.sessions@, target@));
                    assert(false);
                }
                return Err(GameError::PlayerNotPlaying);
            },
            Some(si) => si,
        };
        let ghost siv = si as int;
        let game_id: GameId = self.sessions[si].id;
        proof {
            lemma_session_lookup(o.sessions@, siv);
            assert(playing_at(o.playing@, caller@, o.sessions@[siv].id@));
            assert forall|sj: int|
                0 <= sj < o.sessions@.len() && playing_at(
                    o.playing@,
                    caller@,
                    (#[trigger] o.sessions@[sj]).id@,
                ) implies sj == siv by {
                let a = choose|a: int|
                    0 <= a < o.playing@.len() && o.playing@[a].player@ == caller@
                        && o.playing@[a].game@ == o.sessions@[sj].id@;
                if a != pi as int {
                    if a < pi as int {
                        assert(o.playing@[a].player@ != o.playing@[pi as int].player@);
                    } else {
                        assert(o.playing@[pi as int].player@ != o.playing@[a].player@);
                    }
                }
                assert(o.sessions@[sj].id@ == target@);
                if sj != siv {
                    if sj < siv {
                        assert(o.sessions@[sj].id@ != o.sessions@[siv].id@);
                    } else {
                        assert(o.sessions@[siv].id@ != o.sessions@[sj].id@);
                    }
                }
            }
        }
        let bi = match find_board_idx(&self.boards, &game_id) {
            None => {
                return Err(GameError::NoActiveGame);
            },
            Some(bi) => bi,
        };
        let ghost biv = bi as int;
        proof {
            assert(o.boards_ok());
            assert(crate::board::board_wf(o.boards@[biv].cells@));
            assert(session_with_status(o.sessions@, o.boards@[biv].game@, GameStatus::Start));
            assert(o.sessions@[siv].status == GameStatus::Start);
            assert forall|sj: int|
                0 <= sj < o.sessions@.len() && playing_at(
                    o.playing@,
                    caller@,
                    (#[trigger] o.sessions@[sj]).id@,
                ) implies boards_has(o.boards@, o.sessions@[sj].id@) by {
                assert(sj == siv);
            }
        }
        if x >= crate::board::BOARD_SIZE || y >= crate::board::BOARD_SIZE {
            return Err(GameError::CoordinateOutOfRange);
        }
        let ti = match find_turn_idx(&self.turns, &game_id) {
            None => {
                proof {
                    assert(o.sessions_ok());
                    assert(ids_has(o.game_start@, o.sessions@[siv].id@));
                    assert(o.start_index_ok());
                    let a = choose|a: int|
                        0 <= a < o.game_start@.len() && o.game_start@[a]@ == o.sessions@[siv].id@;
                    assert(turns_has(o.turns@, o.game_start@[a]@));
                    assert(false);
                }
                return Err(GameError::NoActiveGame);
            },
            Some(ti) => ti,
        };
        let ghost tiv = ti as int;
        if !bytes32_eq(&self.turns[ti].holder, &caller) {
            proof {
                if turns_at(o.turns@, o.sessions@[siv].id@, caller@) {
                    let a = choose|a: int|
                        0 <= a < o.turns@.len() && o.turns@[a].game@ == o.sessions@[siv].id@
                            && o.turns@[a].holder@ == caller@;
                    if a != tiv {
                        if a < tiv {
                            assert(o.turns@[a].game@ != o.turns@[tiv].game@);
                        } else {
                            assert(o.turns@[tiv].game@ != o.turns@[a].game@);
                        }
                    }
                    assert(false);
                }
            }
            return Err(GameError::NotYourTurn);
        }
        proof {
            assert(turns_at(o.turns@, o.sessions@[siv].id@, caller@));
            assert forall|sj: int|
                0 <= sj < o.sessions@.len() && playing_at(
                    o.playing@,
                    caller@,
                    (#[trigger] o.sessions@[sj]).id@,
                ) implies turns_at(o.turns@, o.sessions@[sj].id@, caller@) by {
                assert(sj == siv);
            }
        }
        let ri = match find_roster_idx(&self.sessions[si].roster, &caller) {
            None => {
                proof {
                    assert(roster_has(o.sessions@[siv].roster@, caller@));
                    assert(false);
                }
                return Err(GameError::PlayerNotPlaying);
            },
            Some(ri) => ri,
        };
        let ghost riv = ri as int;
        proof {
            assert(o.sessions_ok());
            assert(session_ok(o.sessions@[siv]));
        }
        let mark: i8 = ri as i8;
        let cell_idx: usize = x * 15 + y;
        let cur: i8 = self.boards[bi].cells[cell_idx];
        if cur != crate::board::EMPTY_CELL {
            proof {
                assert(crate::board::cell_at(o.boards@[biv].cells@, x as int, y as int) != -1);
            }
            return Err(GameError::CellOccupied);
        }
        proof {
            assert(crate::board::cell_at(o.boards@[biv].cells@, x as int, y as int) == -1);
            assert forall|sj: int, bj: int|
                0 <= sj < o.sessions@.len() && playing_at(
                    o.playing@,
                    caller@,
                    (#[trigger] o.sessions@[sj]).id@,
                ) && 0 <= bj < o.boards@.len() && (#[trigger] o.boards@[bj]).game@
                    == o.sessions@[sj].id@ implies crate::board::cell_at(
                    o.boards@[bj].cells@,
                    x as int,
                    y as int,
                ) == -1 by {
                assert(sj == siv);
                if bj != biv {
                    if bj < biv {
                        assert(o.boards@[bj].game@ != o.boards@[biv].game@);
                    } else {
                        assert(o.boards@[biv].game@ != o.boards@[bj].game@);
                    }
                }
            }
            assert(move_setting(o, caller, siv, biv, riv));
        }
        let mut entry = self.boards.remove(bi);
        entry.cells.set(cell_idx, mark);
        let won = crate::board::wins_on_board(&entry.cells, mark, x, y);
        let ghost cells2 = entry.cells@;
        proof {
            assert(cells2 == o.boards@[biv].cells@.update(x as int * 15 + y as int, riv as i8));
        }
        if !won {
            let roster_len = self.sessions[si].roster.len();
            let next: AccountId = self.sessions[si].roster[(ri + 1) % roster_len];
            let tgame: GameId = self.turns[ti].game;
            let ghost gentry = entry;
            self.boards.insert(bi, entry);
            let new_turn = TurnEntry { game: tgame, holder: next };
            proof {
                lemma_turns_update_at(o.turns@, tiv, new_turn);
                lemma_boards_update_at(o.boards@, biv, gentry);
                assert(self.boards@ =~= o.boards@.update(biv, gentry));
            }
            self.turns.set(ti, new_turn);
            proof {
                let n = *self;
                assert(n.turns@ == o.turns@.update(tiv, new_turn));
                assert(started_session_with_member(o.sessions@, o.sessions@[siv].id@, next@)) by {
                    assert(roster_has(o.sessions@[siv].roster@, next@));
                }
                assert(n.sessions_ok()) by {
                    assert(o.sessions_ok());
                }
                assert(n.open_index_ok()) by {
                    assert(o.open_index_ok());
                }
                assert(n.start_index_ok()) by {
                    assert forall|i: int| 0 <= i < n.game_start@.len() implies {
                        &&& session_with_status(
                            n.sessions@,
                            (#[trigger] n.game_start@[i])@,
                            GameStatus::Start,
                        )
                        &&& boards_has(n.boards@, n.game_start@[i]@)
                        &&& turns_has(n.turns@, n.game_start@[i]@)
                    } by {
                        assert(o.start_index_ok());
                        assert(session_with_status(
                            o.sessions@,
                            o.game_start@[i]@,
                            GameStatus::Start,
                        ));
                        assert(boards_has(o.boards@, o.game_start@[i]@));
                        assert(turns_has(o.turns@, o.game_start@[i]@));
                    }
                }
                assert(n.hosting_ok()) by {
                    assert(o.hosting_ok());
                }
                assert(n.playing_ok()) by {
                    assert(o.playing_ok());
                }
                assert(n.boards_ok()) by {
                    assert forall|i: int| 0 <= i < n.boards@.len() implies {
                        &&& crate::board::board_wf((#[trigger] n.boards@[i]).cells@)
                        &&& session_with_status(n.sessions@, n.boards@[i].game@, GameStatus::Start)
                    } by {
                        assert(o.boards_ok());
                        if i != biv {
                            assert(n.boards@[i] == o.boards@[i]);
                            assert(crate::board::board_wf(o.boards@[i].cells@));
                            assert(session_with_status(
                                o.sessions@,
                                o.boards@[i].game@,
                                GameStatus::Start,
                            ));
                        } else {
                            assert(n.boards@[i] == gentry);
                            assert(gentry.game == o.boards@[biv].game);
                            assert(session_with_status(
                                o.sessions@,
                                o.boards@[biv].game@,
                                GameStatus::Start,
                            ));
                        }
                    }
                }
                assert(n.turns_ok()) by {
                    assert forall|i: int| 0 <= i < n.turns@.len() implies
                        started_session_with_member(
                            n.sessions@,
                            (#[trigger] n.turns@[i]).game@,
                            n.turns@[i].holder@,
                        ) by {
                        assert(o.turns_ok());
                        if i != tiv {
                            assert(n.turns@[i] == o.turns@[i]);
                            assert(started_session_with_member(
                                o.sessions@,
                                o.turns@[i].game@,
                                o.turns@[i].holder@,
                            ));
                        } else {
                            assert(n.turns@[i] == new_turn);
                            assert(new_turn.game@ == o.sessions@[siv].id@);
                        }
                    }
                }
                assert(continued_state(o, n, caller, x as int, y as int, siv, biv, riv));
            }
            return Ok(MoveOutcome::Continued);
        }
        let sess = self.sessions.remove(si);
        let gi = match find_id_idx(&self.game_start, &sess.id) {
            None => {
                proof {
                    assert(o.sessions_ok());
                    assert(ids_has(o.game_start@, o.sessions@[siv].id@));
                    assert(false);
                }
                return Err(GameError::NoActiveGame);
            },
            Some(gi) => gi,
        };
        proof {
            lemma_sessions_remove_at(o.sessions@, siv);
            lemma_ids_swap_remove(o.game_start@, gi as int);
            assert(o.game_start@[gi as int]@ == o.sessions@[siv].id@);
            lemma_turns_remove_at(o.turns@, tiv);
            lemma_boards_remove_at(o.boards@, biv);
        }
        self.game_start.swap_remove(gi);
        self.turns.remove(ti);
        remove_roster_players(&mut self.playing, &sess.roster);
        remove_host_entry(&mut self.hosting, &sess.host);
        let players: u64 = sess.roster.len() as u64;
        proof {
            assert(session_ok(o.sessions@[siv]));
            assert(players <= 127);
            assert(sess.ticket as int * players as int <= u64::MAX as int * 127) by (nonlinear_arith)
                requires
                    players <= 127,
                    sess.ticket <= u64::MAX,
            ;
        }
        let total: u128 = sess.ticket as u128 * players as u128;
        let reward128: u128 = total * 99 / 100;
        let ghost reward = reward_amount(sess.ticket, sess.roster@.len());
        proof {
            assert(reward128 as int == reward);
        }
        match find_ledger_idx(&self.ledger, &caller) {
            Some(li) => {
                proof {
                    lemma_balance_at(o.ledger@, li as int);
                }
                let held: u64 = self.ledger[li].amount;
                if reward128 <= (u64::MAX - held) as u128 {
                    let e2 = BalanceEntry {
                        account: self.ledger[li].account,
                        amount: held + reward128 as u64,
                    };
                    proof {
                        lemma_balance_update(o.ledger@, li as int, e2);
                    }
                    self.ledger.set(li, e2);
                }
            },
            None => {
            },
        }
        proof {
            assert(paid_out(o.ledger@, self.ledger@, caller@, reward));
        }
        if self.ended.len() < self.max_ended_game {
            let record = EndedGame {
                id: sess.id,
                host: sess.host,
                ticket: sess.ticket,
                board: entry.cells,
                winner: caller,
            };
            let ghost grecord = record;
            proof {
                lemma_ended_push(self.ended@, grecord);
                assert(!ended_has(o.ended@, o.sessions@[siv].id@)) by {
                    assert(o.sessions_ok());
                }
            }
            self.ended.push(record);
            proof {
                let n = *self;
                assert(ended_unique(n.ended@)) by {
                    assert forall|a: int, b: int| 0 <= a < b < n.ended@.len() implies
                        n.ended@[a].id@ != n.ended@[b].id@ by {
                        if b < o.ended@.len() {
                            assert(o.ended@[a].id@ != o.ended@[b].id@);
                        } else {
                            assert(n.ended@[a] == o.ended@[a]);
                            if o.ended@[a].id@ == o.sessions@[siv].id@ {
                                assert(ended_has(o.ended@, o.sessions@[siv].id@));
                            }
                        }
                    }
                }
                lemma_play_settlement_wf(o, n, siv, biv, tiv, caller);
                assert(n.wf());
                assert(settled_state(o, n, caller, x as int, y as int, siv, biv, riv, true));
            }
            Ok(MoveOutcome::Won)
        } else {
            proof {
                let n = *self;
                lemma_play_settlement_wf(o, n, siv, biv, tiv, caller);
                assert(n.wf());
                assert(settled_state(o, n, caller, x as int, y as int, siv, biv, riv, false));
            }
            Err(GameError::ArchiveFull)
        }
    }

    /// The identifiers of sessions awaiting players.
    pub fn game_open(&self) -> (r: &Vec<GameId>)
        ensures
            r@ == self.game_open@,
    {
        &self.game_open
    }

    /// The identifiers of sessions being played.
    pub fn game_start(&self) -> (r: &Vec<GameId>)
        ensures
            r@ == self.game_start@,
    {
        &self.game_start
    }

    /// The session hosted by the given identity, if any.
    pub fn game_hosting(&self, who: &AccountId) -> (r: Option<GameId>)
        ensures
            match r {
                Some(g) => hosting_at(self.hosting@, who@, g@),
                None => !hosting_has(self.hosting@, who@),
            },
    {
        match find_host_idx(&self.hosting, who) {
            Some(i) => Some(self.hosting[i].game),
            None => None,
        }
    }

    /// The session the given identity plays in, if any.
    pub fn game_playing(&self, who: &AccountId) -> (r: Option<GameId>)
        ensures
            match r {
                Some(g) => playing_at(self.playing@, who@, g@),
                None => !playing_has(self.playing@, who@),
            },
    {
        match find_play_idx(&self.playing, who) {
            Some(i) => Some(self.playing[i].game),
            None => None,
        }
    }

    /// The archived record of a completed session.
    pub fn ended_game(&self, id: &GameId) -> (r: Option<&EndedGame>)
        ensures
            match r {
                Some(e) => exists|i: int|
                    0 <= i < self.ended@.len() && self.ended@[i] == *e && e.id@ == id@,
                None => !ended_has(self.ended@, id@),
            },
    {
        match find_ended_idx(&self.ended, id) {
            Some(i) => Some(&self.ended[i]),
            None => None,
        }
    }

    /// The identifiers of every archived game, in order of completion.
    pub fn get_ended_games(&self) -> (r: Vec<GameId>)
        ensures
            r@.len() == self.ended@.len(),
            forall|i: int| 0 <= i < r@.len() ==> r@[i] == self.ended@[i].id,
    {
        let mut out: Vec<GameId> = Vec::new();
        let mut i: usize = 0;
        while i < self.ended.len()
            invariant
                i <= self.ended@.len(),
                out@.len() == i,
                forall|j: int| 0 <= j < i ==> out@[j] == self.ended@[j].id,
            decreases self.ended@.len() - i,
        {
            out.push(self.ended[i].id);
            i = i + 1;
        }
        out
    }

    /// The identity that must move next, or `NoActiveGame` when the session
    /// never started or already ended.
    pub fn whose_turn(&self, game: &GameId) -> (r: Result<AccountId, GameError>)
        ensures
            match r {
                Ok(a) => turns_at(self.turns@, game@, a@),
                Err(e) => e == GameError::NoActiveGame && !turns_has(self.turns@, game@),
            },
    {
        match find_turn_idx(&self.turns, game) {
            Some(i) => Ok(self.turns[i].holder),
            None => Err(GameError::NoActiveGame),
        }
    }

    /// The available balance of an account; zero without a record.
    pub fn free_balance(&self, who: &AccountId) -> (r: u64)
        requires
            self.wf(),
        ensures
            r == balance_of(self.ledger@, who@),
    {
        match find_ledger_idx(&self.ledger, who) {
            Some(i) => {
                proof {
                    lemma_balance_at(self.ledger@, i as int);
                }
                self.ledger[i].amount
            },
            None => 0,
        }
    }

    /// Credits an account, creating the record if none exists; the balance
    /// sticks at the top of the range rather than overflowing.
    pub fn deposit_creating(&mut self, who: &AccountId, amount: u64)
        requires
            old(self).wf(),
        ensures
            final(self).wf(),
            balance_of(final(self).ledger@, who@) == sat_add_u64(
                balance_of(old(self).ledger@, who@),
                amount,
            ),
            forall|q: Seq<u8>| q != who@ ==> balance_of(final(self).ledger@, q) == balance_of(
                old(self).ledger@,
                q,
            ),
            forall|q: Seq<u8>| #[trigger] ledger_has(final(self).ledger@, q) <==> (ledger_has(
                old(self).ledger@,
                q,
            ) || q == who@),
            final(self).sessions == old(self).sessions,
            final(self).game_open == old(self).game_open,
            final(self).game_start == old(self).game_start,
            final(self).hosting == old(self).hosting,
            final(self).playing == old(self).playing,
            final(self).boards == old(self).boards,
            final(self).turns == old(self).turns,
            final(self).ended == old(self).ended,
            final(self).max_player == old(self).max_player,
            final(self).max_open_game == old(self).max_open_game,
            final(self).max_ended_game == old(self).max_ended_game,
            final(self).block_number == old(self).block_number,
    {
        match find_ledger_idx(&self.ledger, who) {
            Some(i) => {
                proof {
                    lemma_balance_at(self.ledger@, i as int);
                }
                let held: u64 = self.ledger[i].amount;
                let total: u128 = held as u128 + amount as u128;
                let capped: u64 = if total > u64::MAX as u128 {
                    u64::MAX
                } else {
                    total as u64
                };
                let entry = BalanceEntry { account: self.ledger[i].account, amount: capped };
                proof {
                    lemma_balance_update(self.ledger@, i as int, entry);
                }
                self.ledger.set(i, entry);
                proof {
                    lemma_wf_frame(*old(self), *self);
                }
            },
            None => {
                let entry = BalanceEntry { account: *who, amount };
                proof {
                    lemma_balance_push(self.ledger@, entry);
                }
                self.ledger.push(entry);
                proof {
                    lemma_wf_frame(*old(self), *self);
                }
            },
        }
    }
}

/// Advances the logical clock to block `n`; earlier blocks stay put.
pub fn run_to_block(store: &mut GameStore, n: u64)
    requires
        old(store).wf(),
    ensures
        final(store).wf(),
        final(store).block_number == if old(store).block_number >= n {
            old(store).block_number
        } else {
            n
        },
        final(store).sessions == old(store).sessions,
        final(store).game_open == old(store).game_open,
        final(store).game_start == old(store).game_start,
        final(store).hosting == old(store).hosting,
        final(store).playing == old(store).playing,
        final(store).boards == old(store).boards,
        final(store).turns == old(store).turns,
        final(store).ended == old(store).ended,
        final(store).ledger == old(store).ledger,
        final(store).max_player == old(store).max_player,
        final(store).max_open_game == old(store).max_open_game,
        final(store).max_ended_game == old(store).max_ended_game,
{
    if store.block_number < n {
        store.block_number = n;
        proof {
            lemma_wf_frame(*old(store), *store);
        }
    }
}

// Index finders over the association lists.

pub(crate) fn find_session_idx(v: &Vec<Session>, id: &GameId) -> (r: Option<usize>)
    ensures
        match r {
            Some(i) => i < v@.len() && v@[i as int].id@ == id@,
            None => !sessions_has(v@, id@),
        },
{
    let mut i: usize = 0;
    while i < v.len()
        invariant
            i <= v@.len(),
            forall|j: int| 0 <= j < i ==> v@[j].id@ != id@,
        decreases v@.len() - i,
    {
        if bytes32_eq(&v[i].id, id) {
            return Some(i);
        }
        i = i + 1;
    }
    None
}

pub(crate) fn find_id_idx(v: &Vec<GameId>, id: &GameId) -> (r: Option<usize>)
    ensures
        match r {
            Some(i) => i < v@.len() && v@[i as int]@ == id@,
            None => !ids_has(v@, id@),
        },
{
    let mut i: usize = 0;
    while i < v.len()
        invariant
            i <= v@.len(),
            forall|j: int| 0 <= j < i ==> v@[j]@ != id@,
        decreases v@.len() - i,
    {
        if bytes32_eq(&v[i], id) {
            return Some(i);
        }
        i = i + 1;
    }
    None
}

pub(crate) fn find_host_idx(v: &Vec<HostEntry>, who: &AccountId) -> (r: Option<usize>)
    ensures
        match r {
            Some(i) => i < v@.len() && v@[i as int].host@ == who@,
            None => !hosting_has(v@, who@),
        },
{
    let mut i: usize = 0;
    while i < v.len()
        invariant
            i <= v@.len(),
            forall|j: int| 0 <= j < i ==> v@[j].host@ != who@,
        decreases v@.len() - i,
    {
        if bytes32_eq(&v[i].host, who) {
            return Some(i);
        }
        i = i + 1;
    }
    None
}

pub(crate) fn find_play_idx(v: &Vec<PlayEntry>, who: &AccountId) -> (r: Option<usize>)
    ensures
        match r {
            Some(i) => i < v@.len() && v@[i as int].player@ == who@,
            None => !playing_has(v@, who@),
        },
{
    let mut i: usize = 0;
    while i < v.len()
        invariant
            i <= v@.len(),
            forall|j: int| 0 <= j < i ==> v@[j].player@ != who@,
        decreases v@.len() - i,
    {
        if bytes32_eq(&v[i].player, who) {
            return Some(i);
        }
        i = i + 1;
    }
    None
}

pub(crate) fn find_board_idx(v: &Vec<BoardEntry>, game: &GameId) -> (r: Option<usize>)
    ensures
        match r {
            Some(i) => i < v@.len() && v@[i as int].game@ == game@,
            None => !boards_has(v@, game@),
        },
{
    let mut i: usize = 0;
    while i < v.len()
        invariant
            i <= v@.len(),
            forall|j: int| 0 <= j < i ==> v@[j].game@ != game@,
        decreases v@.len() - i,
    {
        if bytes32_eq(&v[i].game, game) {
            return Some(i);
        }
        i = i + 1;
    }
    None
}

pub(crate) fn find_turn_idx(v: &Vec<TurnEntry>, game: &GameId) -> (r: Option<usize>)
    ensures
        match r {
            Some(i) => i < v@.len() && v@[i as int].game@ == game@,
            None => !turns_has(v@, game@),
        },
{
    let mut i: usize = 0;
    while i < v.len()
        invariant
            i <= v@.len(),
            forall|j: int| 0 <= j < i ==> v@[j].game@ != game@,
        decreases v@.len() - i,
    {
        if bytes32_eq(&v[i].game, game) {
            return Some(i);
        }
        i = i + 1;
    }
    None
}

pub(crate) fn find_ledger_idx(v: &Vec<BalanceEntry>, who: &AccountId) -> (r: Option<usize>)
    ensures
        match r {
            Some(i) => i < v@.len() && v@[i as int].account@ == who@,
            None => !ledger_has(v@, who@),
        },
{
    let mut i: usize = 0;
    while i < v.len()
        invariant
            i <= v@.len(),
            forall|j: int| 0 <= j < i ==> v@[j].account@ != who@,
        decreases v@.len() - i,
    {
        if bytes32_eq(&v[i].account, who) {
            return Some(i);
        }
        i = i + 1;
    }
    None
}

pub(crate) fn find_ended_idx(v: &Vec<EndedGame>, id: &GameId) -> (r: Option<usize>)
    ensures
        match r {
            Some(i) => i < v@.len() && v@[i as int].id@ == id@,
            None => !ended_has(v@, id@),
        },
{
    let mut i: usize = 0;
    while i < v.len()
        invariant
            i <= v@.len(),
            forall|j: int| 0 <= j < i ==> v@[j].id@ != id@,
        decreases v@.len() - i,
    {
        if bytes32_eq(&v[i].id, id) {
            return Some(i);
        }
        i = i + 1;
    }
    None
}

pub(crate) fn find_roster_idx(v: &Vec<AccountId>, who: &AccountId) -> (r: Option<usize>)
    ensures
        match r {
            Some(i) => i < v@.len() && v@[i as int]@ == who@,
            None => !roster_has(v@, who@),
        },
{
    let mut i: usize = 0;
    while i < v.len()
        invariant
            i <= v@.len(),
            forall|j: int| 0 <= j < i ==> v@[j]@ != who@,
        decreases v@.len() - i,
    {
        if bytes32_eq(&v[i], who) {
            return Some(i);
        }
        i = i + 1;
    }
    None
}

/// Unindexes a host: afterwards the hosting lookup answers for every other
/// identity as before and no longer for this one.
pub(crate) fn remove_host_entry(v: &mut Vec<HostEntry>, who: &AccountId)
    requires
        hosting_unique(old(v)@),
    ensures
        hosting_unique(final(v)@),
        forall|w: Seq<u8>| #[trigger] hosting_has(final(v)@, w) <==> (hosting_has(old(v)@, w) && w
            != who@),
        forall|w: Seq<u8>, g: Seq<u8>| #[trigger] hosting_at(final(v)@, w, g) <==> (hosting_at(
            old(v)@,
            w,
            g,
        ) && w != who@),
{
    match find_host_idx(v, who) {
        Some(i) => {
            proof {
                lemma_hosting_remove_at(v@, i as int);
            }
            v.remove(i);
        },
        None => {
        },
    }
}

/// Unindexes every roster member: afterwards the playing lookup answers for
/// every identity off the roster as before and for none on it.
pub(crate) fn remove_roster_players(v: &mut Vec<PlayEntry>, roster: &Vec<AccountId>)
    requires
        playing_unique(old(v)@),
    ensures
        playing_unique(final(v)@),
        forall|q: Seq<u8>| #[trigger] playing_has(final(v)@, q) <==> (playing_has(old(v)@, q)
            && !roster_has(roster@, q)),
        forall|q: Seq<u8>, g: Seq<u8>| #[trigger] playing_at(final(v)@, q, g) <==> (playing_at(
            old(v)@,
            q,
            g,
        ) && !roster_has(roster@, q)),
{
    let mut kept: Vec<PlayEntry> = Vec::new();
    let mut i: usize = 0;
    while i < v.len()
        invariant
            i <= v@.len(),
            v@ == old(v)@,
            playing_unique(v@),
            playing_unique(kept@),
            forall|q: Seq<u8>| #[trigger] playing_has(kept@, q) <==> (playing_has(
                v@.take(i as int),
                q,
            ) && !roster_has(roster@, q)),
            forall|q: Seq<u8>, g: Seq<u8>| #[trigger] playing_at(kept@, q, g) <==> (playing_at(
                v@.take(i as int),
                q,
                g,
            ) && !roster_has(roster@, q)),
        decreases v@.len() - i,
    {
        let e = v[i];
        proof {
            assert(v@.take(i as int + 1) =~= v@.take(i as int).push(v@[i as int]));
            lemma_playing_push(v@.take(i as int), v@[i as int]);
        }
        match find_roster_idx(roster, &e.player) {
            None => {
                proof {
                    lemma_playing_push(kept@, e);
                    assert(!playing_has(kept@, e.player@));
                    assert forall|a: int, b: int| 0 <= a < b < kept@.push(e).len() implies
                        kept@.push(e)[a].player@ != kept@.push(e)[b].player@ by {
                        if b < kept@.len() {
                            assert(kept@[a].player@ != kept@[b].player@);
                        } else {
                            assert(kept@.push(e)[a] == kept@[a]);
                            if kept@[a].player@ == e.player@ {
                                assert(playing_has(kept@, e.player@));
                            }
                        }
                    }
                }
                kept.push(e);
            },
            Some(_) => {
            },
        }
        i = i + 1;
    }
    proof {
        assert(v@.take(v@.len() as int) =~= v@);
    }
    *v = kept;
}

} // verus!
