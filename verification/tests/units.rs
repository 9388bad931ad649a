use wordcoop::grammar::check_code;
use wordcoop::grammar::check_name;
use wordcoop::grammar::check_word;
use wordcoop::grammar::split_spaces;
use wordcoop::grammar::str_eq;
use wordcoop::grammar::str_starts_with;
use wordcoop::host::parse_word_list;
use wordcoop::host::HostError;
use wordcoop::game::Guesser;
use wordcoop::protocol::parse_command;
use wordcoop::protocol::Command;
use wordcoop::registry::generate_gamename;
use wordcoop::registry::IdleGuard;
use wordcoop::registry::Registry;
use wordcoop::route::parse_url_action;
use wordcoop::route::UrlAction;

#[test]
fn word_grammar() {
    assert!(check_word("cat"));
    assert!(check_word("bridge"));
    assert!(!check_word("ab"));
    assert!(!check_word("toolong"));
    assert!(!check_word("Cat"));
    assert!(!check_word("c4t"));
    assert!(!check_word(""));
}

#[test]
fn name_grammar() {
    assert!(check_name("A"));
    assert!(check_name("Alice9"));
    assert!(check_name("abcdefghij"));
    assert!(!check_name(""));
    assert!(!check_name("abcdefghijk"));
    assert!(!check_name("has space"));
    assert!(!check_name("bad-char"));
}

#[test]
fn code_grammar() {
    assert!(check_code("abc12"));
    assert!(check_code("abcdefgh"));
    assert!(!check_code("abcd"));
    assert!(!check_code("abcdefghi"));
    assert!(!check_code("ABCDE"));
}

#[test]
fn string_helpers() {
    assert!(str_eq("abc", "abc"));
    assert!(!str_eq("abc", "abd"));
    assert!(!str_eq("abc", "ab"));
    assert!(str_starts_with("abcdef", "abc"));
    assert!(!str_starts_with("ab", "abc"));
    assert!(!str_starts_with("abcdef", "abd"));
}

#[test]
fn splitting_on_spaces() {
    assert_eq!(split_spaces("a b"), vec!["a", "b"]);
    assert_eq!(split_spaces("cat dog bird"), vec!["cat", "dog", "bird"]);
    assert_eq!(split_spaces("a  b"), vec!["a", "", "b"]);
    assert_eq!(split_spaces(""), vec![""]);
    assert_eq!(split_spaces(" a"), vec!["", "a"]);
}

#[test]
fn word_list_parsing() {
    let toks = vec![String::from("cat"), String::from("dog_")];
    let ws = parse_word_list(&toks).unwrap();
    assert_eq!(ws.len(), 2);
    assert_eq!(ws[0].word, "cat");
    assert_eq!(ws[0].state, Guesser::NoOne);
    assert_eq!(ws[1].word, "dog");
    assert_eq!(ws[1].state, Guesser::Player(0));

    let bad = vec![String::from("cat"), String::from("x_")];
    assert!(matches!(parse_word_list(&bad), Err(HostError::BadWordList)));
}

#[test]
fn word_list_validates_every_token() {
    // a malformed token rejects the payload wherever it stands, even at
    // the end of a long list of valid words
    let mut toks: Vec<String> = Vec::new();
    for _ in 0..75 {
        toks.push(String::from("cat"));
    }
    toks.push(String::from("!!"));
    assert!(matches!(parse_word_list(&toks), Err(HostError::BadWordList)));

    // a long all-valid list is registered in full
    let mut toks: Vec<String> = Vec::new();
    for i in 0..80u8 {
        let mut w = String::from("w");
        w.push((b'a' + i / 26) as char);
        w.push((b'a' + i % 26) as char);
        toks.push(w);
    }
    let ws = parse_word_list(&toks).unwrap();
    assert_eq!(ws.len(), 80);
}

#[test]
fn command_parsing() {
    assert!(matches!(parse_command(":giveup"), Command::GiveUp));
    assert!(matches!(parse_command(":ungiveup"), Command::UnGiveUp));
    match parse_command(":attempt cat") {
        Command::Attempt(w) => assert_eq!(w, "cat"),
        _ => panic!("should be an attempt"),
    }
    match parse_command(":chat hello world") {
        Command::Chat(t) => assert_eq!(t, "hello world"),
        _ => panic!("should be chat"),
    }
    assert!(matches!(parse_command(":attempt toolongword"), Command::Other));
    assert!(matches!(parse_command(":attempt"), Command::Other));
    assert!(matches!(parse_command("hello"), Command::Other));
    assert!(matches!(parse_command(""), Command::Other));
}

#[test]
fn url_routing() {
    match parse_url_action("/ws/hostcoop/Alice") {
        Some((true, UrlAction::Host(n))) => assert_eq!(n, "Alice"),
        _ => panic!("should host coop"),
    }
    match parse_url_action("/ws/hostcomp/Bob9") {
        Some((false, UrlAction::Host(n))) => assert_eq!(n, "Bob9"),
        _ => panic!("should host comp"),
    }
    match parse_url_action("/ws/join/cabc12") {
        Some((true, UrlAction::Join(c))) => assert_eq!(c, "abc12"),
        _ => panic!("should join coop"),
    }
    match parse_url_action("/ws/join/mzz999") {
        Some((false, UrlAction::Join(c))) => assert_eq!(c, "zz999"),
        _ => panic!("should join comp"),
    }
    assert!(parse_url_action("/ws/other").is_none());
    assert!(parse_url_action("/ws/hostcoop/").is_none());
    assert!(parse_url_action("/ws/hostcoop/a name").is_none());
    assert!(parse_url_action("/ws/join/cab").is_none());
    assert!(parse_url_action("").is_none());
}

#[test]
fn generated_codes_are_well_formed() {
    for _ in 0..20 {
        let code = generate_gamename();
        assert_eq!(code.len(), 5);
        assert!(check_code(&code));
    }
}

#[test]
fn registry_round_trip() {
    let mut reg: Registry<u32> = Registry::new();
    assert!(reg.insert_new(String::from("abc12"), 7));
    assert!(!reg.insert_new(String::from("abc12"), 8));
    assert_eq!(reg.lookup("abc12"), Some(&7));
    assert_eq!(reg.lookup("zzzzz"), None);
    reg.remove_code("abc12");
    assert_eq!(reg.lookup("abc12"), None);
}

#[test]
fn registry_allocates_fresh_codes() {
    let mut reg: Registry<u32> = Registry::new();
    let a = reg.allocate_code(1).unwrap();
    let b = reg.allocate_code(2).unwrap();
    assert!(check_code(&a));
    assert!(check_code(&b));
    assert_ne!(a, b);
    assert_eq!(reg.lookup(&a), Some(&1));
    assert_eq!(reg.lookup(&b), Some(&2));
}

#[test]
fn idle_guard_lifecycle() {
    let mut g = IdleGuard::new(1);
    assert!(!g.timer_should_delete());
    g.on_disconnect();
    // last connection gone: the deletion timer is armed
    assert!(g.timer_should_delete());
    // a connect before the timeout strictly cancels the pending deletion
    g.on_connect();
    assert!(!g.timer_should_delete());
    g.on_connect();
    g.on_disconnect();
    // still one connection left: no deletion pending
    assert!(!g.timer_should_delete());
    g.on_disconnect();
    assert!(g.timer_should_delete());
}
