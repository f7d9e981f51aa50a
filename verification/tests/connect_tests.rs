use rustshooter::connect::{
    connection_timed_out, error_text, field_display, handle_cancel_button, handle_connect_button,
    handle_text_input, netcode_failed, resolve_failed, ConnectOutcome, FocusedField, InputField,
    handle_field_click, field_highlighted, FieldClick, address_field_shown,
    connecting_address_text,
    KeyEvent, TextKey,
};
use rustshooter::scores::{ConnectionError, GameState, PlayerProfile};

fn profile(name: &str, addr: &str) -> PlayerProfile {
    PlayerProfile {
        username: name.to_string(),
        server_addr: addr.to_string(),
        server_addr_locked: false,
        client_id: 9,
    }
}

fn ch(s: &str) -> KeyEvent {
    KeyEvent { pressed: true, key: TextKey::Character(s.to_string()) }
}

#[test]
fn typing_into_the_focused_field() {
    let mut p = profile("", "1.2");
    let events = vec![
        ch("b"),
        ch("o"),
        KeyEvent { pressed: false, key: TextKey::Character("x".to_string()) },
        ch("bb"),
        KeyEvent { pressed: true, key: TextKey::Backspace },
        KeyEvent { pressed: true, key: TextKey::Other },
    ];
    handle_text_input(&mut p, FocusedField(Some(InputField::Username)), &events);
    assert_eq!(p.username, "bob");
    assert_eq!(p.server_addr, "1.2");
    handle_text_input(&mut p, FocusedField(Some(InputField::ServerIp)), &vec![ch(".3")]);
    assert_eq!(p.server_addr, "1.2.3");
    assert_eq!(p.username, "bob");
    handle_text_input(&mut p, FocusedField(None), &vec![ch("z")]);
    assert_eq!(p.username, "bob");
    assert_eq!(p.server_addr, "1.2.3");
}

#[test]
fn backspace_on_empty_field_does_nothing() {
    let mut p = profile("", "");
    let events = vec![KeyEvent { pressed: true, key: TextKey::Backspace }];
    handle_text_input(&mut p, FocusedField(Some(InputField::Username)), &events);
    assert_eq!(p.username, "");
}

#[test]
fn field_shows_a_cursor_when_focused() {
    assert_eq!(field_display("abc", true), "abc|");
    assert_eq!(field_display("abc", false), "abc ");
    assert_eq!(FocusedField::default().0, None);
}

#[test]
fn connect_without_press_is_idle() {
    let mut p = profile("bob", "1.2.3.4");
    let mut e = ConnectionError(Some("old".to_string()));
    assert!(matches!(handle_connect_button(&mut p, &mut e, false, false), ConnectOutcome::Idle));
    assert_eq!(e.0, Some("old".to_string()));
}

#[test]
fn connect_requires_a_username() {
    let mut p = profile("   ", "1.2.3.4");
    let mut e = ConnectionError(None);
    match handle_connect_button(&mut p, &mut e, true, false) {
        ConnectOutcome::Rejected(m) => assert_eq!(m, "Username is required."),
        _ => panic!("expected a rejection"),
    }
    assert_eq!(p.username, "   ");
}

#[test]
fn connect_trims_and_adds_the_default_port() {
    let mut p = profile("  bob ", " 192.168.1.10 ");
    let mut e = ConnectionError(Some("Connection timed out.".to_string()));
    assert!(matches!(handle_connect_button(&mut p, &mut e, false, true), ConnectOutcome::Connect));
    assert_eq!(p.username, "bob");
    assert_eq!(p.server_addr, "192.168.1.10:7777");
    assert_eq!(e.0, None);

    let mut p = profile("bob", "192.168.1.10:9000");
    let mut e = ConnectionError(None);
    assert!(matches!(handle_connect_button(&mut p, &mut e, true, false), ConnectOutcome::Connect));
    assert_eq!(p.server_addr, "192.168.1.10:9000");

    let mut p = profile("bob", "   ");
    assert!(matches!(handle_connect_button(&mut p, &mut e, true, false), ConnectOutcome::Connect));
    assert_eq!(p.server_addr, ":7777");
}

#[test]
fn failed_attempts_leave_a_message() {
    let mut e = ConnectionError::default();
    assert_eq!(error_text(&e), "");
    assert_eq!(handle_cancel_button(&mut e), GameState::ConnectScreen);
    assert_eq!(error_text(&e), "Connection cancelled.");
    assert_eq!(connection_timed_out(&mut e), GameState::ConnectScreen);
    assert_eq!(error_text(&e), "Connection timed out.");
    assert_eq!(resolve_failed(&mut e, "nowhere:7777", "no such host"), GameState::ConnectScreen);
    assert_eq!(error_text(&e), "Cannot resolve 'nowhere:7777': no such host");
    assert_eq!(netcode_failed(&mut e, "bad key"), GameState::ConnectScreen);
    assert_eq!(error_text(&e), "Failed to create NetcodeClient: bad key");
}

#[test]
fn clicking_a_box_focuses_it() {
    let mut f = FocusedField::default();
    handle_field_click(&mut f, &vec![FieldClick { pressed: false, field: InputField::ServerIp }]);
    assert_eq!(f.0, None);
    handle_field_click(
        &mut f,
        &vec![
            FieldClick { pressed: true, field: InputField::Username },
            FieldClick { pressed: true, field: InputField::ServerIp },
            FieldClick { pressed: false, field: InputField::Username },
        ],
    );
    assert_eq!(f.0, Some(InputField::ServerIp));
    assert!(field_highlighted(f, InputField::ServerIp));
    assert!(!field_highlighted(f, InputField::Username));
    assert!(!field_highlighted(FocusedField(None), InputField::Username));
}

#[test]
fn locked_address_hides_the_field() {
    let mut p = profile("bob", "10.0.0.1:7777");
    assert!(address_field_shown(&p));
    assert_eq!(connecting_address_text(&p), "> 10.0.0.1:7777");
    p.server_addr_locked = true;
    assert!(!address_field_shown(&p));
}
