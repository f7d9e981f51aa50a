use rustshooter::scores::{
    after_loading, check_win_condition, game_over_countdown, game_over_headline,
    game_over_winner, keys_of, kill_feed_message, low_bits, record_kills, resolve_server_addr,
    resolve_web_server_addr, ConnectionError, GameConfig, GameState, KillEvent, PlayerNames,
    PlayerProfile, Scores,
};
use std::collections::HashMap;

#[test]
fn defaults_of_round_state() {
    assert_eq!(GameState::default(), GameState::ConnectScreen);
    assert_eq!(after_loading(), GameState::Playing);
    assert!(ConnectionError::default().0.is_none());
    assert_eq!(GameConfig::default().kill_limit, 10);
    let s = Scores::default();
    assert!(s.kills.is_empty());
    assert!(s.deaths.is_empty());
}

#[test]
fn add_kill_then_get_kills_counts_up() {
    let mut s = Scores::default();
    assert_eq!(s.get_kills(7), 0);
    s.add_kill(7);
    s.add_kill(7);
    s.add_kill(9);
    assert_eq!(s.get_kills(7), 2);
    assert_eq!(s.get_kills(9), 1);
    assert_eq!(s.get_kills(8), 0);
    assert_eq!(s.get_deaths(7), 0);
    s.add_death(8);
    assert_eq!(s.get_deaths(8), 1);
    assert_eq!(s.get_kills(8), 0);
}

#[test]
fn record_kills_credits_killers_and_victims() {
    let mut s = Scores::default();
    let events = vec![
        KillEvent { killer_id: 1, victim_id: 2 },
        KillEvent { killer_id: 1, victim_id: 3 },
        KillEvent { killer_id: 2, victim_id: 1 },
    ];
    record_kills(&mut s, &events);
    assert_eq!(s.get_kills(1), 2);
    assert_eq!(s.get_kills(2), 1);
    assert_eq!(s.get_kills(3), 0);
    assert_eq!(s.get_deaths(1), 1);
    assert_eq!(s.get_deaths(2), 1);
    assert_eq!(s.get_deaths(3), 1);
    let mut k = s.kill_ids();
    k.sort();
    assert_eq!(k, vec![1, 2]);
    let mut d = s.death_ids();
    d.sort();
    assert_eq!(d, vec![1, 2, 3]);
    record_kills(&mut s, &vec![]);
    assert_eq!((s.get_kills(1), s.get_kills(2), s.get_deaths(3)), (2, 1, 1));
}

#[test]
fn win_condition_at_exactly_the_limit() {
    let mut s = Scores::default();
    let cfg = GameConfig { kill_limit: 3 };
    assert!(!check_win_condition(&s, &cfg));
    s.add_kill(4);
    s.add_kill(4);
    assert!(!check_win_condition(&s, &cfg));
    s.add_kill(4);
    assert!(check_win_condition(&s, &cfg));
    // The round stays won when more kills come in.
    record_kills(&mut s, &vec![KillEvent { killer_id: 5, victim_id: 4 }]);
    assert!(check_win_condition(&s, &cfg));
}

#[test]
fn winner_is_the_top_scorer() {
    let s = Scores::default();
    assert_eq!(game_over_winner(&s), (0, 0));
    let mut s = Scores::default();
    s.add_kill(10);
    s.add_kill(11);
    s.add_kill(11);
    assert_eq!(game_over_winner(&s), (11, 2));
}

#[test]
fn names_and_feed_names() {
    let mut names = PlayerNames::default();
    assert_eq!(names.name_of(3), None);
    names.register(3, "carol".to_string());
    assert_eq!(names.name_of(3), Some("carol".to_string()));
    assert_eq!(names.feed_name(3), "carol");
    assert_eq!(names.feed_name(0x1_0002), "2");
    assert_eq!(low_bits(0xABCD_1234), 0x1234);
    names.register(3, "caz".to_string());
    assert_eq!(names.feed_name(3), "caz");
}

#[test]
fn kill_feed_line() {
    let mut names = PlayerNames::default();
    names.register(1, "alice".to_string());
    let mut s = Scores::default();
    s.add_kill(1);
    s.add_kill(1);
    let line = kill_feed_message(&names, &s, KillEvent { killer_id: 1, victim_id: 65538 });
    assert_eq!(line, "alice eliminated 2 [2 kills]");
}

#[test]
fn game_over_texts() {
    let mut names = PlayerNames::default();
    names.register(5, "eve".to_string());
    let mut s = Scores::default();
    s.add_kill(5);
    let (id, text) = game_over_headline(&names, &s);
    assert_eq!(id, 5);
    assert_eq!(text, "eve wins with 1 kills!");
    let empty = Scores::default();
    let (id, text) = game_over_headline(&PlayerNames::default(), &empty);
    assert_eq!(id, 0);
    assert_eq!(text, "0 wins with 0 kills!");
    assert_eq!(game_over_countdown(5), "Returning to lobby in 5...");
    assert_eq!(game_over_countdown(0), "Returning to lobby in 0...");
}

#[test]
fn launch_addresses() {
    assert_eq!(resolve_server_addr(None), ("127.0.0.1:7777".to_string(), false));
    assert_eq!(
        resolve_server_addr(Some("192.168.1.10".to_string())),
        ("192.168.1.10".to_string(), true)
    );
    assert_eq!(resolve_server_addr(Some(String::new())), ("127.0.0.1:7777".to_string(), false));
    assert_eq!(resolve_web_server_addr(None), ("127.0.0.1:7778".to_string(), false));
    assert_eq!(
        resolve_web_server_addr(Some("  10.0.0.1:7778\n".to_string())),
        ("10.0.0.1:7778".to_string(), true)
    );
    assert_eq!(
        resolve_web_server_addr(Some(" \n ".to_string())),
        ("127.0.0.1:7778".to_string(), false)
    );
}

#[test]
fn profile_at_launch() {
    let p = PlayerProfile::new(("1.2.3.4:7777".to_string(), true), 42);
    assert_eq!(p.username, "");
    assert_eq!(p.server_addr, "1.2.3.4:7777");
    assert!(p.server_addr_locked);
    assert_eq!(p.client_id, 42);
}

#[test]
fn keys_of_lists_each_key_once() {
    let mut m: HashMap<u64, u8> = HashMap::new();
    m.insert(3, 1);
    m.insert(1, 2);
    m.insert(2, 3);
    let mut k = keys_of(&m);
    k.sort();
    assert_eq!(k, vec![1, 2, 3]);
}
