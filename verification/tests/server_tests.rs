use rustshooter::protocol::{JoinMsg, PlayerLeaveMsg, PosUpdateMsg, PROTOCOL_ID, SERVER_PORT};
use rustshooter::scores::GameConfig;
use rustshooter::server::{
    broadcast_to, color_for_id, find_victim, handle_disconnect, handle_join_msg, kill_broadcast,
    relay_positions, JoinRequest, MapUrl, Outgoing, ServerPlayerInfo, ServerPorts,
};
use rustshooter::server_config::{
    check_tls_pair, config_path, config_source, game_config, parse_error_message,
    read_error_message, server_ports, startup_banner, ConfigSource, ServerConfig,
};

const PALETTE: [u32; 8] = [10, 11, 12, 13, 14, 15, 16, 17];

fn join(entity: u64, client_id: u64, name: &str) -> JoinRequest {
    JoinRequest { entity, msg: JoinMsg { client_id, username: name.to_string() } }
}

/// (recipient, announced client id, name, colour) of a join message, or
/// (recipient, 0, url, 0) of a map message.
fn describe(o: &Outgoing<u32>) -> (u64, u64, String, u32) {
    match o {
        Outgoing::Join { to, msg } => (*to, msg.client_id, msg.username.clone(), msg.color),
        Outgoing::MapAddress { to, url_msg } => (*to, 0, url_msg.url.clone(), 0),
    }
}

#[test]
fn protocol_constants() {
    assert_eq!(PROTOCOL_ID, 0xDEAD_BEEF_C0DE_0001);
    assert_eq!(SERVER_PORT, 7777);
}

#[test]
fn colours_cycle_through_the_palette() {
    assert_eq!(color_for_id(&PALETTE, 0), 10);
    assert_eq!(color_for_id(&PALETTE, 9), 11);
    assert_eq!(color_for_id(&PALETTE, u64::MAX), 17);
}

#[test]
fn a_join_is_announced_and_the_newcomer_learns_the_others() {
    let joins = vec![join(501, 3, "carol")];
    let existing = vec![(1, "alice".to_string()), (3, "carol".to_string())];
    let announce_to = vec![500, 501];
    let map_to = vec![501];
    let url = MapUrl(Some("https://example.com/m.tar.zst".to_string()));
    let plan = handle_join_msg(&joins, &existing, &announce_to, &map_to, &url, &PALETTE);
    assert_eq!(plan.records, vec![(501, 3, "carol".to_string())]);
    let sent: Vec<_> = plan.sends.iter().map(describe).collect();
    assert_eq!(
        sent,
        vec![
            (500, 3, "carol".to_string(), 13),
            (501, 3, "carol".to_string(), 13),
            (501, 1, "alice".to_string(), 11),
            (501, 0, "https://example.com/m.tar.zst".to_string(), 0),
        ]
    );
}

#[test]
fn without_a_map_no_address_is_sent() {
    let joins = vec![join(501, 3, "carol"), join(502, 4, "dan")];
    let plan = handle_join_msg(&joins, &vec![], &vec![501, 502], &vec![501, 502], &MapUrl::default(), &PALETTE);
    assert_eq!(plan.records.len(), 2);
    assert!(plan.sends.iter().all(|o| matches!(o, Outgoing::Join { .. })));
    assert_eq!(plan.sends.len(), 4);
}

#[test]
fn a_newcomer_that_cannot_listen_gets_nothing() {
    let joins = vec![join(600, 8, "zed")];
    let existing = vec![(1, "alice".to_string())];
    let url = MapUrl(Some("u".to_string()));
    let plan = handle_join_msg(&joins, &existing, &vec![500], &vec![], &url, &PALETTE);
    let sent: Vec<_> = plan.sends.iter().map(describe).collect();
    assert_eq!(sent, vec![(500, 8, "zed".to_string(), 10)]);
}

#[test]
fn broadcasts() {
    let to = vec![1, 2, 3];
    assert_eq!(broadcast_to(&to, 'x'), vec![(1, 'x'), (2, 'x'), (3, 'x')]);
    let left = handle_disconnect(Some(9), &to);
    assert_eq!(left.len(), 3);
    assert_eq!(left[2].0, 3);
    assert_eq!(left[2].1, PlayerLeaveMsg { client_id: 9 });
    assert!(handle_disconnect(None, &to).is_empty());
    let k = kill_broadcast(4, 5, &vec![7]);
    assert_eq!(k.len(), 1);
    assert_eq!((k[0].0, k[0].1.killer_id, k[0].1.victim_id), (7, 4, 5));
}

#[test]
fn positions_are_relayed_to_all_other_clients() {
    let updates = vec![
        (1u64, PosUpdateMsg { pos: [1i32, 2, 3], yaw: 9i32 }),
        (2u64, PosUpdateMsg { pos: [4, 5, 6], yaw: 8 }),
    ];
    let to = vec![(10u64, Some(1u64)), (20, Some(2)), (30, None)];
    let out = relay_positions(&updates, &to);
    let v: Vec<_> = out.iter().map(|(t, m)| (*t, m.client_id, m.pos, m.yaw)).collect();
    assert_eq!(
        v,
        vec![(20, 1, [1, 2, 3], 9), (30, 1, [1, 2, 3], 9), (10, 2, [4, 5, 6], 8), (30, 2, [4, 5, 6], 8)]
    );
}

#[test]
fn victims_are_found_by_client_id() {
    let players = vec![
        ServerPlayerInfo { client_id: 1, username: "a".to_string(), hp: 100u32 },
        ServerPlayerInfo { client_id: 2, username: "b".to_string(), hp: 50u32 },
        ServerPlayerInfo { client_id: 2, username: "c".to_string(), hp: 10u32 },
    ];
    assert_eq!(find_victim(&players, 2), Some(1));
    assert_eq!(find_victim(&players, 1), Some(0));
    assert_eq!(find_victim(&players, 3), None);
}

#[test]
fn config_defaults_and_sources() {
    let c = ServerConfig::default();
    assert_eq!((c.port, c.web_port, c.kill_limit), (7777, 7778, 20));
    assert!(c.map_url.is_none() && c.cert.is_none() && c.key.is_none());
    assert_eq!(config_path(&None), "server_config.toml");
    assert_eq!(config_path(&Some("/etc/x.toml".to_string())), "/etc/x.toml");
    match config_source(&None, true) {
        ConfigSource::File(p) => assert_eq!(p, "server_config.toml"),
        _ => panic!("expected the file"),
    }
    assert!(matches!(config_source(&None, false), ConfigSource::Defaults));
    match config_source(&Some("a.toml".to_string()), false) {
        ConfigSource::Fail(m) => assert_eq!(m, "ERROR: config file 'a.toml' not found."),
        _ => panic!("expected a failure"),
    }
    assert_eq!(
        read_error_message("a.toml", "denied"),
        "ERROR: could not read config file 'a.toml': denied"
    );
    assert_eq!(
        parse_error_message("a.toml", "bad key"),
        "ERROR: failed to parse config file 'a.toml': bad key"
    );
}

#[test]
fn certificate_and_key_go_together() {
    let mut c = ServerConfig::default();
    assert!(check_tls_pair(&c).is_ok());
    c.cert = Some("c.pem".to_string());
    assert_eq!(
        check_tls_pair(&c),
        Err("ERROR: 'cert' and 'key' must both be set or both be absent in the config.".to_string())
    );
    c.key = Some("k.pem".to_string());
    assert!(check_tls_pair(&c).is_ok());
    c.cert = None;
    assert!(check_tls_pair(&c).is_err());
}

#[test]
fn ports_limit_and_banner() {
    let mut c = ServerConfig::default();
    c.kill_limit = 5;
    c.port = 9000;
    let g: GameConfig = game_config(&c);
    assert_eq!(g.kill_limit, 5);
    let p = server_ports(&c);
    assert_eq!(p, ServerPorts { udp: 9000, web: 7778 });
    let lines = startup_banner(&p);
    assert_eq!(
        lines,
        vec![
            "===========================================",
            " RustShooter dedicated server is running  ",
            "===========================================",
            " UDP  (native clients)  : [::]:9000",
            " WebTransport (browser) : [::]:7778",
            "===========================================",
        ]
    );
}
