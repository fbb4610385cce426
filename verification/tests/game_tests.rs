use gomoku::store::GameStore;
use gomoku::store::run_to_block;
use gomoku::check_winner;
use gomoku::types::GameError;

const ALICE: [u8; 32] = [1u8; 32];
const BOB: [u8; 32] = [2u8; 32];
const SEED: [u8; 32] = [9u8; 32];

#[test]
fn host_game_should_available() {
    let mut store = GameStore::new();
    store.deposit_creating(&ALICE, 100_000_000);
    assert!(store.is_host_available(&ALICE).is_ok());
}

#[test]
fn open_new_game_should_works() {
    let mut store = GameStore::new();
    run_to_block(&mut store, 10);
    store.deposit_creating(&ALICE, 100_000_000);
    assert!(store.is_host_available(&ALICE).is_ok());
    assert!(store.open_game(ALICE, 10u64, SEED).is_ok());
}

#[test]
fn test_winner_should_works() {
    {
        let mut game_map = [[-1i8; 15]; 15];
        let player_index: i8 = 1;
        let x: usize = 7;
        let y: usize = 7;
        let is_winner = check_winner(game_map, player_index, x, y).unwrap();
        assert_eq!(is_winner, false, "should not win");

        game_map[6][7] = player_index;
        game_map[8][7] = player_index;
        let is_winner = check_winner(game_map, player_index, x, y).unwrap();
        assert_eq!(is_winner, false, "should not win");

        game_map[5][7] = player_index;
        game_map[9][7] = player_index;
        let is_winner = check_winner(game_map, player_index, x, y).unwrap();
        assert_eq!(is_winner, true, "should win");

        game_map[4][7] = player_index;
        game_map[10][7] = player_index;
        let is_winner = check_winner(game_map, player_index, x, y).unwrap();
        assert_eq!(is_winner, true, "should win");
    }

    {
        let mut game_map = [[-1i8; 15]; 15];
        let player_index: i8 = 1;
        let x: usize = 7;
        let y: usize = 7;
        let is_winner = check_winner(game_map, player_index, x, y).unwrap();
        assert_eq!(is_winner, false, "should not win");

        game_map[7][6] = player_index;
        game_map[7][8] = player_index;
        let is_winner = check_winner(game_map, player_index, x, y).unwrap();
        assert_eq!(is_winner, false, "should not win");

        game_map[7][5] = player_index;
        game_map[7][9] = player_index;
        let is_winner = check_winner(game_map, player_index, x, y).unwrap();
        assert_eq!(is_winner, true, "should win");

        game_map[7][4] = player_index;
        game_map[7][10] = player_index;
        let is_winner = check_winner(game_map, player_index, x, y).unwrap();
        assert_eq!(is_winner, true, "should win");
    }

    {
        let mut game_map = [[-1i8; 15]; 15];
        let player_index: i8 = 1;
        let x: usize = 7;
        let y: usize = 7;

        game_map[8][8] = player_index;
        game_map[6][6] = player_index;
        let is_winner = check_winner(game_map, player_index, x, y).unwrap();
        assert_eq!(is_winner, false, "should not win");

        game_map[9][9] = player_index;
        game_map[5][5] = player_index;
        let is_winner = check_winner(game_map, player_index, x, y).unwrap();
        assert_eq!(is_winner, true, "should win");

        game_map[10][10] = player_index;
        game_map[4][4] = player_index;
        let is_winner = check_winner(game_map, player_index, x, y).unwrap();
        assert_eq!(is_winner, true, "should win");
    }

    {
        let mut game_map = [[-1i8; 15]; 15];
        let player_index: i8 = 1;
        let x: usize = 7;
        let y: usize = 7;

        game_map[6][8] = player_index;
        game_map[8][6] = player_index;
        let is_winner = check_winner(game_map, player_index, x, y).unwrap();
        assert_eq!(is_winner, false, "should not win");

        game_map[5][9] = player_index;
        game_map[9][5] = player_index;
        let is_winner = check_winner(game_map, player_index, x, y).unwrap();
        assert_eq!(is_winner, true, "should win");

        game_map[4][10] = player_index;
        game_map[10][4] = player_index;
        let is_winner = check_winner(game_map, player_index, x, y).unwrap();
        assert_eq!(is_winner, true, "should win");
    }
}

#[test]
fn game_flow_should_works() {
    let mut store = GameStore::new();
    run_to_block(&mut store, 10);
    store.deposit_creating(&ALICE, 100_000_000);
    store.deposit_creating(&BOB, 100_000_000);
    let ticket: u64 = 10_000;

    let alice_before_balance = store.free_balance(&ALICE);
    let bob_before_balance = store.free_balance(&BOB);

    assert!(store.set_max_player(2u8).is_ok());

    // Max game player
    let max_gomoku_player = store.max_gomoku_player();
    assert_eq!(max_gomoku_player, 2, "Gomoku max player not correct");
    // OPEN AND JOIN GAME
    assert!(store.open_and_join(ALICE, ticket, SEED).is_ok());
    let game_open_ids = store.game_open();
    assert_eq!(game_open_ids.len(), 1, "game opened length not correct");
    let game_id: [u8; 32] = *game_open_ids.first().unwrap();
    // check storage after open game
    {
        let game_open = store.game_open();
        assert_eq!(game_open.contains(&game_id), true, "game_id should not on the GameOpen");

        let game_hosting = store.game_hosting(&ALICE).unwrap();
        assert_eq!(game_hosting, game_id, "Game hosting should exsit");
    }

    // JOIN GAME
    assert!(store.join(BOB, game_id).is_ok());

    let alice_after_balance = store.free_balance(&ALICE);
    let bob_after_balance = store.free_balance(&BOB);

    assert_eq!(alice_before_balance, alice_after_balance + ticket, "Alice balance not correct");
    assert_eq!(bob_before_balance, bob_after_balance + ticket, "Bob balance not correct");

    // START GAME
    assert!(store.start(BOB).is_ok());
    run_to_block(&mut store, 12);

    // check storage after start game
    {
        let game_open = store.game_open();
        assert_eq!(game_open.contains(&game_id), false, "game_id should not on the GameOpen");
        let game_start = store.game_start();
        assert_eq!(game_start.contains(&game_id), true, "game_id should on the GameStart");
    }

    // PLAY GAME
    {
        // turn 1
        assert_eq!(store.play(ALICE, 8, 8).unwrap_err(), GameError::NotYourTurn);
        assert!(store.play(BOB, 7, 7).is_ok());

        // turn 2
        assert_eq!(store.play(BOB, 8, 8).unwrap_err(), GameError::NotYourTurn);
        assert!(store.play(ALICE, 1, 1).is_ok());

        // turn 3
        assert!(store.play(BOB, 7, 6).is_ok());
        assert!(store.play(ALICE, 1, 2).is_ok());
        assert!(store.play(BOB, 7, 5).is_ok());
        assert!(store.play(ALICE, 1, 3).is_ok());
        assert!(store.play(BOB, 7, 4).is_ok());
        assert!(store.play(ALICE, 1, 4).is_ok());

        // BOB win this game
        {
            let bob_before_balance = store.free_balance(&BOB);
            assert!(store.play(BOB, 7, 3).is_ok());
            let bob_after_balance = store.free_balance(&BOB);

            let mut reward = ticket * 2;
            reward = (reward as f64 - (reward as f64 * 0.01)) as u64;
            assert_eq!(bob_after_balance - bob_before_balance, reward, "reward receipt not correct");
        }

        run_to_block(&mut store, 20);
        assert_eq!(store.play(ALICE, 1, 5).unwrap_err(), GameError::PlayerNotPlaying);
        assert_eq!(store.play(BOB, 1, 5).unwrap_err(), GameError::PlayerNotPlaying);

        // check storage
        {
            let ended_game = store.ended_game(&game_id).unwrap();
            assert_eq!(ended_game.winner, BOB, "winner not correct");

            let ended_games = store.get_ended_games();
            assert_eq!(ended_games.contains(&game_id), true, "ended_games must contain game_id");
        }
    }
}
