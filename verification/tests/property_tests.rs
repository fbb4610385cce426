use gomoku::store::GameStore;
use gomoku::store::run_to_block;
use gomoku::check_winner;
use gomoku::gen_id;
use gomoku::types::{GameError, MoveOutcome};

fn acct(tag: u8) -> [u8; 32] {
    [tag; 32]
}

fn seed(tag: u8) -> [u8; 32] {
    [tag; 32]
}

/// A store with two funded players, a joined two-player session, started by
/// the joiner so the joiner moves first.
fn started_game(host: [u8; 32], joiner: [u8; 32]) -> (GameStore, [u8; 32]) {
    let mut store = GameStore::new();
    run_to_block(&mut store, 5);
    store.deposit_creating(&host, 1_000_000);
    store.deposit_creating(&joiner, 1_000_000);
    let game_id = store.open_and_join(host, 100, seed(0xA5)).unwrap();
    store.join(joiner, game_id).unwrap();
    store.start(joiner).unwrap();
    (store, game_id)
}

#[test]
fn minted_id_is_fresh_and_deterministic() {
    // The digest depends on the entropy and the block alone, and never
    // hands back its input unchanged.
    let id1 = gen_id(&seed(3), 10);
    let id2 = gen_id(&seed(3), 10);
    let id3 = gen_id(&seed(3), 11);
    let id4 = gen_id(&seed(4), 10);
    assert_eq!(id1, id2);
    assert_ne!(id1, id3);
    assert_ne!(id1, id4);
    assert_ne!(id1, seed(3));
    // Opening twice from the same entropy at the same block collides, and
    // the collision is detected, not assumed away.
    let mut store = GameStore::new();
    run_to_block(&mut store, 10);
    let first = store.open_game(acct(1), 10, seed(3));
    assert!(first.is_ok());
    assert_eq!(store.open_game(acct(2), 10, seed(3)).unwrap_err(), GameError::IdAlreadyUsed);
    // At another block the same entropy mints a fresh identifier.
    run_to_block(&mut store, 11);
    let second = store.open_game(acct(2), 10, seed(3));
    assert!(second.is_ok());
    assert_ne!(first.unwrap(), second.unwrap());
}

#[test]
fn host_cannot_host_twice() {
    let mut store = GameStore::new();
    assert!(store.open_game(acct(1), 10, seed(1)).is_ok());
    assert_eq!(
        store.is_host_available(&acct(1)).unwrap_err(),
        GameError::HostAlreadyHosting
    );
    assert_eq!(
        store.open_game(acct(1), 10, seed(2)).unwrap_err(),
        GameError::HostAlreadyHosting
    );
}

#[test]
fn open_index_is_bounded() {
    let mut store = GameStore::new();
    for tag in 1..=10u8 {
        run_to_block(&mut store, tag as u64);
        assert!(store.open_game(acct(tag), 10, seed(tag)).is_ok());
    }
    run_to_block(&mut store, 11);
    assert_eq!(
        store.open_game(acct(11), 10, seed(11)).unwrap_err(),
        GameError::OpenSlotsExceeded
    );
}

#[test]
fn join_checks_session_and_player() {
    let mut store = GameStore::new();
    store.deposit_creating(&acct(2), 1_000);
    store.deposit_creating(&acct(3), 1_000);
    // Unknown session.
    assert_eq!(
        store.join(acct(2), [0xFF; 32]).unwrap_err(),
        GameError::SessionNotFound
    );
    let game_id = store.open_game(acct(1), 100, seed(1)).unwrap();
    // Joining while already playing another session fails.
    store.deposit_creating(&acct(1), 1_000);
    store.join(acct(1), game_id).unwrap();
    run_to_block(&mut store, 2);
    let other = store.open_game(acct(9), 100, seed(2)).unwrap();
    assert_eq!(
        store.join(acct(1), other).unwrap_err(),
        GameError::PlayerAlreadyPlaying
    );
    // The roster is capacity-bounded at the configured max.
    store.join(acct(2), game_id).unwrap();
    assert_eq!(
        store.join(acct(3), game_id).unwrap_err(),
        GameError::RosterFull
    );
}

#[test]
fn join_charges_the_stake_or_fails() {
    let mut store = GameStore::new();
    let game_id = store.open_game(acct(1), 500, seed(1)).unwrap();
    // No balance record: nothing covers the stake.
    assert_eq!(
        store.join(acct(2), game_id).unwrap_err(),
        GameError::InsufficientFunds
    );
    store.deposit_creating(&acct(2), 499);
    assert_eq!(
        store.join(acct(2), game_id).unwrap_err(),
        GameError::InsufficientFunds
    );
    store.deposit_creating(&acct(2), 1);
    assert!(store.join(acct(2), game_id).is_ok());
    assert_eq!(store.free_balance(&acct(2)), 0);
}

#[test]
fn join_after_start_is_rejected() {
    let (mut store, game_id) = started_game(acct(1), acct(2));
    store.deposit_creating(&acct(3), 1_000_000);
    assert_eq!(
        store.join(acct(3), game_id).unwrap_err(),
        GameError::SessionNotOpen
    );
}

#[test]
fn start_requires_full_roster() {
    // `start` succeeds iff the roster holds exactly the configured max.
    let mut store = GameStore::new();
    store.deposit_creating(&acct(1), 1_000);
    let game_id = store.open_and_join(acct(1), 10, seed(1)).unwrap();
    assert_eq!(store.start(acct(1)).unwrap_err(), GameError::NotEnoughPlayers);
    store.deposit_creating(&acct(2), 1_000);
    store.join(acct(2), game_id).unwrap();
    assert!(store.start(acct(1)).is_ok());
}

#[test]
fn start_requires_a_playing_caller() {
    let mut store = GameStore::new();
    assert_eq!(store.start(acct(7)).unwrap_err(), GameError::CallerNotPlaying);
    // The host alone is not a player until it joins.
    assert!(store.open_game(acct(7), 10, seed(1)).is_ok());
    assert_eq!(store.start(acct(7)).unwrap_err(), GameError::CallerNotPlaying);
}

#[test]
fn turn_is_tracked_and_enforced() {
    let (mut store, game_id) = started_game(acct(1), acct(2));
    // The starter moves first.
    assert_eq!(store.whose_turn(&game_id).unwrap(), acct(2));
    // An out-of-turn move fails and moves nothing: the cell is still free
    // for the player whose turn it is.
    assert_eq!(store.play(acct(1), 8, 8).unwrap_err(), GameError::NotYourTurn);
    assert!(matches!(store.play(acct(2), 8, 8).unwrap(), MoveOutcome::Continued));
    assert_eq!(store.whose_turn(&game_id).unwrap(), acct(1));
    // A session without a board has no turn.
    assert_eq!(store.whose_turn(&[0xFF; 32]).unwrap_err(), GameError::NoActiveGame);
}

#[test]
fn occupied_cell_is_rejected() {
    let (mut store, _game_id) = started_game(acct(1), acct(2));
    assert!(store.play(acct(2), 7, 7).is_ok());
    assert_eq!(store.play(acct(1), 7, 7).unwrap_err(), GameError::CellOccupied);
    // The board is unchanged: the same cell is still the blocker, and the
    // mover may pick another.
    assert_eq!(store.play(acct(1), 7, 7).unwrap_err(), GameError::CellOccupied);
    assert!(store.play(acct(1), 0, 0).is_ok());
}

#[test]
fn out_of_range_coordinates_are_rejected() {
    let (mut store, _game_id) = started_game(acct(1), acct(2));
    // Whatever the turn, the board edge is enforced.
    assert_eq!(store.play(acct(2), 15, 0).unwrap_err(), GameError::CoordinateOutOfRange);
    assert_eq!(store.play(acct(2), 0, 15).unwrap_err(), GameError::CoordinateOutOfRange);
    assert_eq!(store.play(acct(1), 99, 99).unwrap_err(), GameError::CoordinateOutOfRange);
    // The failed attempts changed nothing; play goes on.
    assert!(store.play(acct(2), 14, 14).is_ok());
}

#[test]
fn play_without_a_session_or_board() {
    let mut store = GameStore::new();
    assert_eq!(store.play(acct(5), 1, 1).unwrap_err(), GameError::PlayerNotPlaying);
    // Joined but not started: no active board yet.
    store.deposit_creating(&acct(5), 1_000);
    assert!(store.open_and_join(acct(5), 10, seed(1)).is_ok());
    assert_eq!(store.play(acct(5), 1, 1).unwrap_err(), GameError::NoActiveGame);
}

#[test]
fn invalid_max_player_is_rejected() {
    let mut store = GameStore::new();
    assert_eq!(store.set_max_player(0).unwrap_err(), GameError::InvalidMaxPlayer);
    assert_eq!(store.set_max_player(128).unwrap_err(), GameError::InvalidMaxPlayer);
    assert!(store.set_max_player(2).is_ok());
    assert_eq!(store.max_gomoku_player(), 2);
}

#[test]
fn winning_settles_and_archives_once() {
    let (mut store, game_id) = started_game(acct(1), acct(2));
    let loser_stones: [(usize, usize); 4] = [(1, 1), (1, 2), (1, 3), (1, 4)];
    let winner_stones: [(usize, usize); 4] = [(5, 5), (5, 6), (5, 7), (5, 8)];
    for k in 0..4 {
        assert!(matches!(store.play(acct(2), winner_stones[k].0, winner_stones[k].1).unwrap(), MoveOutcome::Continued));
        assert!(matches!(store.play(acct(1), loser_stones[k].0, loser_stones[k].1).unwrap(), MoveOutcome::Continued));
    }
    let before = store.free_balance(&acct(2));
    assert!(matches!(store.play(acct(2), 5, 9).unwrap(), MoveOutcome::Won));
    // Two stakes of 100, minus the one-percent fee: floor(200 * 0.99).
    assert_eq!(store.free_balance(&acct(2)), before + 198);
    // The session left every active index.
    assert!(!store.game_start().contains(&game_id));
    assert!(!store.game_open().contains(&game_id));
    assert!(store.game_hosting(&acct(1)).is_none());
    assert!(store.game_playing(&acct(1)).is_none());
    assert!(store.game_playing(&acct(2)).is_none());
    // The archive holds the record exactly once, with the final board.
    let ended = store.get_ended_games();
    assert_eq!(ended.iter().filter(|g| **g == game_id).count(), 1);
    let record = store.ended_game(&game_id).unwrap();
    assert_eq!(record.winner, acct(2));
    assert_eq!(record.ticket, 100);
    assert_eq!(record.host, acct(1));
    assert_eq!(record.board.len(), 225);
    // Both identities are free again.
    assert!(store.is_host_available(&acct(1)).is_ok());
    assert!(store.is_player_available(&acct(2)).is_ok());
}

#[test]
fn full_archive_still_settles() {
    let (mut store, game_id) = started_game(acct(1), acct(2));
    store.max_ended_game = 0;
    for k in 0..4usize {
        assert!(store.play(acct(2), 5, 5 + k).is_ok());
        assert!(store.play(acct(1), 1, 1 + k).is_ok());
    }
    // The win is settled even though archiving fails: the indices are
    // cleaned and the reward paid, but no record is appended.
    let before = store.free_balance(&acct(2));
    assert_eq!(store.play(acct(2), 5, 9).unwrap_err(), GameError::ArchiveFull);
    assert_eq!(store.free_balance(&acct(2)), before + 198);
    assert!(!store.game_start().contains(&game_id));
    assert!(store.ended_game(&game_id).is_none());
    assert_eq!(store.get_ended_games().len(), 0);
}

#[test]
fn payout_near_the_top_of_the_range_is_best_effort() {
    let mut store = GameStore::new();
    store.deposit_creating(&acct(1), u64::MAX);
    store.deposit_creating(&acct(2), u64::MAX);
    let game_id = store.open_and_join(acct(1), 10_000, seed(2)).unwrap();
    store.join(acct(2), game_id).unwrap();
    store.start(acct(2)).unwrap();
    for k in 0..4usize {
        assert!(store.play(acct(2), 5, 5 + k).is_ok());
        assert!(store.play(acct(1), 1, 1 + k).is_ok());
    }
    // The winner's balance cannot take the reward without overflowing, so
    // the payout is skipped; the game still ends and is archived.
    let before = store.free_balance(&acct(2));
    assert!(matches!(store.play(acct(2), 5, 9).unwrap(), MoveOutcome::Won));
    assert_eq!(store.free_balance(&acct(2)), before);
    assert_eq!(store.ended_game(&game_id).unwrap().winner, acct(2));
}

#[test]
fn deposit_creating_saturates() {
    let mut store = GameStore::new();
    store.deposit_creating(&acct(1), u64::MAX - 5);
    store.deposit_creating(&acct(1), 100);
    assert_eq!(store.free_balance(&acct(1)), u64::MAX);
    assert_eq!(store.free_balance(&acct(2)), 0);
}

#[test]
fn check_winner_rejects_bad_coordinates() {
    let game_map = [[-1i8; 15]; 15];
    assert_eq!(check_winner(game_map, 1, 15, 0).unwrap_err(), GameError::CoordinateOutOfRange);
    assert_eq!(check_winner(game_map, 1, 0, 15).unwrap_err(), GameError::CoordinateOutOfRange);
}
