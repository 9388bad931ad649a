use wordcoop::game::CoopGame;
use wordcoop::game::CoopPlayer;
use wordcoop::game::Guesser;
use wordcoop::game::JoinResult;
use wordcoop::game::QuitResult;
use wordcoop::game::WordEntry;
use wordcoop::host::host_game;
use wordcoop::host::HostError;
use wordcoop::protocol::handle_disconnect;
use wordcoop::protocol::handle_message;
use wordcoop::protocol::handle_name_submission;
use wordcoop::protocol::join_messages;
use wordcoop::protocol::broadcast_targets;
use wordcoop::protocol::NameOutcome;

fn two_player_game() -> CoopGame<u32> {
    let mut game = host_game("cat dog bird", String::from("Alice"), 0u32).unwrap();
    match game.try_join(String::from("Bob"), 1u32) {
        JoinResult::Joined(n) => assert_eq!(n, 1),
        JoinResult::Taken(_) => panic!("Bob should join"),
    }
    game
}

fn word_state(game: &CoopGame<u32>, w: &str) -> Guesser {
    for e in game.words.iter() {
        if e.word == w {
            return e.state;
        }
    }
    panic!("word not found");
}

#[test]
fn host_seeds_the_game() {
    let game = host_game("cat dog_ bird", String::from("Alice"), 7u32).unwrap();
    assert_eq!(game.players.len(), 1);
    assert_eq!(game.players[0].name, "Alice");
    assert_eq!(game.players[0].send, Some(7u32));
    assert!(!game.players[0].gaveup);
    assert_eq!(game.words.len(), 3);
    assert_eq!(word_state(&game, "cat"), Guesser::NoOne);
    assert_eq!(word_state(&game, "dog"), Guesser::Player(0));
    assert_eq!(word_state(&game, "bird"), Guesser::NoOne);
}

#[test]
fn host_rejects_bad_word() {
    assert!(matches!(
        host_game("cat do bird", String::from("Alice"), 0u32),
        Err(HostError::BadWordList)
    ));
    assert!(matches!(
        host_game("", String::from("Alice"), 0u32),
        Err(HostError::BadWordList)
    ));
}

#[test]
fn host_later_duplicate_wins() {
    let game = host_game("cat cat_", String::from("Alice"), 0u32).unwrap();
    assert_eq!(game.words.len(), 1);
    assert_eq!(word_state(&game, "cat"), Guesser::Player(0));
}

#[test]
fn attempt_claims_once() {
    let mut game = two_player_game();
    assert!(game.attempt(1, String::from("cat")));
    assert_eq!(word_state(&game, "cat"), Guesser::Player(1));
    // a second attempt on an already-claimed word fails and changes nothing
    assert!(!game.attempt(0, String::from("cat")));
    assert_eq!(word_state(&game, "cat"), Guesser::Player(1));
}

#[test]
fn attempt_missing_word_fails() {
    let mut game = two_player_game();
    assert!(!game.attempt(0, String::from("fish")));
    assert_eq!(word_state(&game, "cat"), Guesser::NoOne);
    assert_eq!(word_state(&game, "dog"), Guesser::NoOne);
    assert_eq!(word_state(&game, "bird"), Guesser::NoOne);
    assert_eq!(game.words.len(), 3);
}

#[test]
fn quit_and_rejoin_recovers_slot() {
    let mut game = two_player_game();
    assert!(game.player_giveup(1) == false);
    assert!(game.players[1].gaveup);
    assert_eq!(game.player_quit(1), None);
    assert!(game.players[1].did_quit());
    assert!(!game.players[1].gaveup);
    match game.try_join(String::from("Bob"), 9u32) {
        JoinResult::Joined(n) => assert_eq!(n, 1),
        JoinResult::Taken(_) => panic!("rejoin should succeed"),
    }
    assert_eq!(game.players[1].send, Some(9u32));
    assert!(!game.players[1].gaveup);
    assert_eq!(game.players.len(), 2);
}

#[test]
fn connected_name_is_taken() {
    let mut game = two_player_game();
    match game.try_join(String::from("Bob"), 5u32) {
        JoinResult::Taken(s) => assert_eq!(s, 5u32),
        JoinResult::Joined(_) => panic!("name is held by a connected player"),
    }
    assert_eq!(game.players.len(), 2);
}

#[test]
fn all_giveup_forfeits_once() {
    let mut game = two_player_game();
    assert!(!game.player_giveup(0));
    assert_eq!(word_state(&game, "dog"), Guesser::NoOne);
    assert!(game.player_giveup(1));
    assert_eq!(word_state(&game, "cat"), Guesser::Gaveup);
    assert_eq!(word_state(&game, "dog"), Guesser::Gaveup);
    assert_eq!(word_state(&game, "bird"), Guesser::Gaveup);
    // a further give-up call reports the condition again but changes nothing
    assert!(game.player_giveup(0));
    assert_eq!(word_state(&game, "cat"), Guesser::Gaveup);
    assert_eq!(word_state(&game, "dog"), Guesser::Gaveup);
    assert_eq!(word_state(&game, "bird"), Guesser::Gaveup);
}

#[test]
fn ungiveup_clears_flag() {
    let mut game = two_player_game();
    assert!(!game.player_giveup(0));
    game.player_ungiveup(0);
    assert!(!game.players[0].gaveup);
    assert_eq!(word_state(&game, "cat"), Guesser::NoOne);
}

#[test]
fn all_quit_is_reported_without_forfeit() {
    let mut game = two_player_game();
    assert_eq!(game.player_quit(0), None);
    assert_eq!(game.player_quit(1), Some(QuitResult::AllQuit));
    // no word was forfeited on the all-quit path
    assert_eq!(word_state(&game, "cat"), Guesser::NoOne);
    assert_eq!(word_state(&game, "dog"), Guesser::NoOne);
    assert_eq!(word_state(&game, "bird"), Guesser::NoOne);
}

#[test]
fn quit_of_resigned_player_reports_allgiveup() {
    // Bob disconnects after giving up while Alice has also given up: the
    // quit reports the all-gave-up condition even though Bob himself is
    // now disconnected.
    let alice = CoopPlayer { name: String::from("Alice"), send: Some(0u32), gaveup: true };
    let bob = CoopPlayer { name: String::from("Bob"), send: Some(1u32), gaveup: true };
    let words = vec![WordEntry { word: String::from("cat"), state: Guesser::NoOne }];
    let mut game = CoopGame { players: vec![alice, bob], words };
    assert_eq!(game.player_quit(1), Some(QuitResult::AllGiveup));
    assert_eq!(word_state(&game, "cat"), Guesser::Gaveup);
}

#[test]
fn dispatch_full_round() {
    let mut game = two_player_game();

    // Bob claims cat; everyone else hears about it
    let out = handle_message(&mut game, 1, ":attempt cat");
    assert_eq!(out.len(), 1);
    assert_eq!(out[0].msg, ":attempt cat Bob");
    assert_eq!(out[0].except, Some(1));

    // Alice tries the same word: no transition, no broadcast
    let out = handle_message(&mut game, 0, ":attempt cat");
    assert_eq!(out.len(), 0);
    assert_eq!(word_state(&game, "cat"), Guesser::Player(1));

    // Alice gives up
    let out = handle_message(&mut game, 0, ":giveup");
    assert_eq!(out.len(), 1);
    assert_eq!(out[0].msg, ":giveup Alice");
    assert_eq!(out[0].except, Some(0));

    // Bob gives up too: the round ends and the notice goes to everyone
    let out = handle_message(&mut game, 1, ":giveup");
    assert_eq!(out.len(), 2);
    assert_eq!(out[0].msg, ":giveup Bob");
    assert_eq!(out[0].except, Some(1));
    assert_eq!(out[1].msg, ":allgiveup");
    assert_eq!(out[1].except, None);
    assert_eq!(word_state(&game, "dog"), Guesser::Gaveup);
    assert_eq!(word_state(&game, "bird"), Guesser::Gaveup);
    assert_eq!(word_state(&game, "cat"), Guesser::Player(1));
}

#[test]
fn dispatch_chat_and_noise() {
    let mut game = two_player_game();
    let out = handle_message(&mut game, 0, ":chat hello there");
    assert_eq!(out.len(), 1);
    assert_eq!(out[0].msg, ":chat Alice hello there");
    assert_eq!(out[0].except, Some(0));

    let out = handle_message(&mut game, 0, ":ungiveup");
    assert_eq!(out.len(), 1);
    assert_eq!(out[0].msg, ":ungiveup Alice");

    // unrecognized commands are ignored
    let out = handle_message(&mut game, 0, "gibberish");
    assert_eq!(out.len(), 0);
    let out = handle_message(&mut game, 0, ":attempt toolongword");
    assert_eq!(out.len(), 0);
    assert_eq!(word_state(&game, "cat"), Guesser::NoOne);
}

#[test]
fn disconnect_announces_and_detects_empty() {
    let mut game = two_player_game();
    let (out, empty) = handle_disconnect(&mut game, 1);
    assert!(!empty);
    assert_eq!(out.len(), 1);
    assert_eq!(out[0].msg, ":quit Bob");
    assert_eq!(out[0].except, Some(1));

    let (out, empty) = handle_disconnect(&mut game, 0);
    assert!(empty);
    assert_eq!(out.len(), 1);
    assert_eq!(out[0].msg, ":quit Alice");
}

#[test]
fn disconnect_can_end_the_round() {
    let mut game = two_player_game();
    assert_eq!(handle_message(&mut game, 0, ":giveup").len(), 1);
    assert_eq!(handle_message(&mut game, 1, ":attempt cat").len(), 1);
    // Bob leaves while Alice, the only one left, has given up
    let (out, empty) = handle_disconnect(&mut game, 1);
    assert!(!empty);
    assert_eq!(out.len(), 2);
    assert_eq!(out[0].msg, ":quit Bob");
    assert_eq!(out[1].msg, ":allgiveup");
    assert_eq!(word_state(&game, "dog"), Guesser::Gaveup);
    assert_eq!(word_state(&game, "cat"), Guesser::Player(1));
}

#[test]
fn name_submission_paths() {
    let mut game = two_player_game();
    assert!(matches!(
        handle_name_submission(&mut game, "not a name!", 5u32),
        NameOutcome::BadName(5)
    ));
    assert!(matches!(
        handle_name_submission(&mut game, "Bob", 5u32),
        NameOutcome::Taken(5)
    ));
    match handle_name_submission(&mut game, "Carol", 5u32) {
        NameOutcome::Joined(n) => assert_eq!(n, 2),
        _ => panic!("Carol should join"),
    }
    assert_eq!(game.players.len(), 3);
}

#[test]
fn join_snapshot_is_complete() {
    let mut game = two_player_game();
    assert!(game.attempt(0, String::from("cat")));
    assert_eq!(handle_message(&mut game, 1, ":giveup").len(), 1);
    let (_, empty) = handle_disconnect(&mut game, 1);
    assert!(!empty);
    // give one word the forfeited state directly for the snapshot
    for e in game.words.iter_mut() {
        if e.word == "bird" {
            e.state = Guesser::Gaveup;
        }
    }
    match game.try_join(String::from("Carol"), 2u32) {
        JoinResult::Joined(n) => {
            let (announce, msgs) = join_messages(&game, n);
            assert_eq!(announce.msg, ":join Carol");
            assert_eq!(announce.except, Some(n));
            assert_eq!(msgs.len(), 4);
            assert_eq!(msgs[0], "Alice Bob_ Carol");
            assert_eq!(msgs[1], "cat dog bird");
            assert_eq!(msgs[2], ":attempt cat Alice");
            assert_eq!(msgs[3], ":attempt bird _");
        }
        JoinResult::Taken(_) => panic!("Carol should join"),
    }
}

#[test]
fn join_snapshot_lists_giveups() {
    let mut game = two_player_game();
    assert_eq!(handle_message(&mut game, 0, ":giveup").len(), 1);
    let (_, msgs) = join_messages(&game, 1);
    assert_eq!(msgs.len(), 3);
    assert_eq!(msgs[0], "Alice Bob");
    assert_eq!(msgs[1], "cat dog bird");
    assert_eq!(msgs[2], ":giveup Alice");
}

#[test]
fn broadcast_skips_origin_and_quit() {
    let mut game = two_player_game();
    match game.try_join(String::from("Carol"), 2u32) {
        JoinResult::Joined(n) => assert_eq!(n, 2),
        JoinResult::Taken(_) => panic!(),
    }
    assert_eq!(game.player_quit(1), None);
    assert_eq!(broadcast_targets(&game, Some(0)), vec![2usize]);
    assert_eq!(broadcast_targets(&game, None), vec![0usize, 2usize]);
    assert_eq!(broadcast_targets(&game, Some(2)), vec![0usize]);
}

#[test]
fn fresh_player_state() {
    let p = CoopPlayer::new(String::from("Alice"), 3u32);
    assert_eq!(p.name, "Alice");
    assert_eq!(p.send, Some(3u32));
    assert!(!p.gaveup);
    assert!(!p.did_quit());
    let q: CoopPlayer<u32> = CoopPlayer { name: String::from("Bob"), send: None, gaveup: false };
    assert!(q.did_quit());
}

#[test]
fn words_iter_lists_in_order() {
    let game = two_player_game();
    assert_eq!(game.words_iter(), vec!["cat", "dog", "bird"]);
}
