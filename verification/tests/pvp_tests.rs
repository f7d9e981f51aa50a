use rustshooter::pvp::RemotePlayerJoined;
use rustshooter::pvp::{
    is_remote_update, register_local_player, scoreboard_ids, scoreboard_text, to_kill_event,
    toggle_visibility, JoinDecision, RemoteKillEvent, RemotePlayers, Visibility, remote_moves,
    scoreboard_shown,
};
use rustshooter::protocol::RelayedPosMsg;
use rustshooter::scores::{PlayerNames, PlayerProfile, Scores};

#[test]
fn join_track_leave() {
    let mut remote = RemotePlayers::default();
    let mut names = PlayerNames::default();
    assert_eq!(remote.join_decision(1, 1), JoinDecision::OwnJoin);
    assert_eq!(remote.join_decision(1, 2), JoinDecision::Spawn);
    remote.track(&mut names, 2, 100, "bob".to_string());
    assert_eq!(remote.join_decision(1, 2), JoinDecision::AlreadyTracked);
    assert_eq!(remote.entity_of(2), Some(100));
    assert_eq!(names.name_of(2), Some("bob".to_string()));
    assert_eq!(remote.untrack(2), Some(100));
    assert_eq!(remote.untrack(2), None);
    assert_eq!(remote.entity_of(2), None);
    assert_eq!(remote.join_decision(1, 2), JoinDecision::Spawn);
}

#[test]
fn clearing_returns_every_entity() {
    let mut remote = RemotePlayers::default();
    let mut names = PlayerNames::default();
    remote.track(&mut names, 2, 100, "b".to_string());
    remote.track(&mut names, 3, 101, "c".to_string());
    remote.track(&mut names, 4, 102, "d".to_string());
    let mut ids = remote.ids();
    ids.sort();
    assert_eq!(ids, vec![2, 3, 4]);
    let mut es = remote.clear_all();
    es.sort();
    assert_eq!(es, vec![100, 101, 102]);
    assert!(remote.ids().is_empty());
    assert!(remote.clear_all().is_empty());
}

#[test]
fn local_player_name_and_events() {
    let mut names = PlayerNames::default();
    let p = PlayerProfile {
        username: "me".to_string(),
        server_addr: String::new(),
        server_addr_locked: false,
        client_id: 77,
    };
    register_local_player(&p, &mut names);
    assert_eq!(names.name_of(77), Some("me".to_string()));
    let k = to_kill_event(RemoteKillEvent { killer_id: 1, victim_id: 2 });
    assert_eq!((k.killer_id, k.victim_id), (1, 2));
    assert!(is_remote_update(1, 2));
    assert!(!is_remote_update(1, 1));
}

#[test]
fn scoreboard_toggle() {
    assert_eq!(toggle_visibility(Visibility::Hidden), Visibility::Visible);
    assert_eq!(toggle_visibility(Visibility::Visible), Visibility::Hidden);
    assert_eq!(toggle_visibility(Visibility::Inherited), Visibility::Hidden);
    assert_eq!(toggle_visibility(toggle_visibility(Visibility::Visible)), Visibility::Visible);
}

#[test]
fn scoreboard_order_most_kills_then_id() {
    let mut s = Scores::default();
    s.add_kill(5);
    s.add_kill(3);
    s.add_kill(3);
    s.add_death(9);
    s.add_kill(4);
    let mut remote = RemotePlayers::default();
    let mut names = PlayerNames::default();
    remote.track(&mut names, 8, 1000, "x".to_string());
    assert_eq!(scoreboard_ids(&s, &remote), vec![3, 4, 5, 8, 9]);
}

#[test]
fn scoreboard_rows() {
    let mut s = Scores::default();
    s.add_kill(1);
    s.add_kill(1);
    s.add_death(1);
    s.add_death(65538);
    let mut names = PlayerNames::default();
    names.register(1, "alice".to_string());
    let remote = RemotePlayers::default();
    let (ids, text) = scoreboard_text(&names, &s, &remote);
    assert_eq!(ids, vec![1, 65538]);
    let expected = format!(
        "{:<24} {:<5}{}\n{:<24} {:<5}{}\n",
        "alice", 2, 1, "Player 2", 0, 1
    );
    assert_eq!(text, expected);
    let (ids, text) = scoreboard_text(&names, &Scores::default(), &remote);
    assert!(ids.is_empty());
    assert_eq!(text, "");
}

#[test]
fn own_relayed_positions_are_dropped() {
    let msgs = vec![
        RelayedPosMsg { client_id: 1, pos: [1i32, 2, 3], yaw: 4i32 },
        RelayedPosMsg { client_id: 2, pos: [5, 6, 7], yaw: 8 },
        RelayedPosMsg { client_id: 1, pos: [0, 0, 0], yaw: 0 },
        RelayedPosMsg { client_id: 3, pos: [9, 9, 9], yaw: 1 },
    ];
    let out = remote_moves(1, &msgs);
    let v: Vec<_> = out.iter().map(|m| (m.client_id, m.pos, m.yaw)).collect();
    assert_eq!(v, vec![(2, [5, 6, 7], 8), (3, [9, 9, 9], 1)]);
    assert!(remote_moves(1, &Vec::<RelayedPosMsg<i32>>::new()).is_empty());
}

#[test]
fn scoreboard_is_rebuilt_only_when_shown() {
    assert!(!scoreboard_shown(&vec![]));
    assert!(!scoreboard_shown(&vec![Visibility::Hidden, Visibility::Hidden]));
    assert!(scoreboard_shown(&vec![Visibility::Hidden, Visibility::Inherited]));
    assert!(scoreboard_shown(&vec![Visibility::Visible]));
}

#[test]
fn a_batch_of_joins_spawns_each_new_player_once() {
    let local = 1;
    let mut remote = RemotePlayers::default();
    let mut names = PlayerNames::default();
    remote.track(&mut names, 5, 500, "old".to_string());
    let events = [(1u64, "me"), (2, "bob"), (2, "bobby"), (5, "again"), (3, "cy")];
    let mut next_entity = 1000;
    let mut spawned = Vec::new();
    for (id, name) in events {
        if remote.join_decision(local, id) == JoinDecision::Spawn {
            remote.track(&mut names, id, next_entity, name.to_string());
            spawned.push(id);
            next_entity += 1;
        }
    }
    assert_eq!(spawned, vec![2, 3]);
    assert_eq!(remote.entity_of(2), Some(1000));
    assert_eq!(remote.entity_of(3), Some(1001));
    assert_eq!(remote.entity_of(5), Some(500));
    assert_eq!(remote.entity_of(1), None);
    assert_eq!(names.name_of(2), Some("bob".to_string()));
    assert_eq!(names.name_of(5), Some("old".to_string()));
    assert_eq!(names.name_of(1), None);
}

#[test]
fn planned_spawns_for_a_batch_of_joins() {
    let mut remote = RemotePlayers::default();
    let mut names = PlayerNames::default();
    remote.track(&mut names, 5, 500, "old".to_string());
    let joins: Vec<RemotePlayerJoined<u8>> = [(1u64, "me"), (2, "bob"), (2, "bobby"), (5, "again"), (3, "cy")]
        .iter()
        .map(|(id, n)| RemotePlayerJoined { client_id: *id, username: n.to_string(), color: 0 })
        .collect();
    let picks = remote.plan_remote_spawns(1, &joins);
    assert_eq!(picks, vec![1, 4]);
    assert!(remote.plan_remote_spawns::<u8>(1, &vec![]).is_empty());
}
