use rustshooter::scores::GameState;
use rustshooter::settings::{
    action_at_index, action_label, all_actions, default_keybinds, format_mouse_button,
    handle_back_button, handle_keybind_click, handle_keybind_input, handle_pause_settings_button,
    handle_reset_keybinds, handle_resume, handle_settings_escape_key, index_of_action, on_off,
    rebuild_input_map, BindCode, BindOutcome, GameSettings, KeyCode, KeyPress, KeybindClick,
    ListeningForBind, MouseButton, MousePress, PlayerAction, SettingsReturnState,
    format_keycode, handle_antialiasing_toggle, handle_fullscreen_toggle, is_listening_for,
    keybind_text, Msaa, WindowMode,
};

#[test]
fn actions_in_settings_order() {
    let all = all_actions();
    assert_eq!(
        all,
        vec![
            PlayerAction::MoveForward,
            PlayerAction::MoveBack,
            PlayerAction::MoveLeft,
            PlayerAction::MoveRight,
            PlayerAction::Jump,
            PlayerAction::Shoot,
            PlayerAction::Reload,
            PlayerAction::Pause,
            PlayerAction::Scoreboard,
        ]
    );
    for (i, a) in all.iter().enumerate() {
        assert_eq!(index_of_action(*a), i);
        assert_eq!(action_at_index(i), *a);
    }
    let labels: Vec<&str> = all.iter().map(action_label).collect();
    assert_eq!(
        labels,
        vec![
            "Move Forward", "Move Back", "Move Left", "Move Right", "Jump", "Shoot", "Reload",
            "Pause", "Scoreboard"
        ]
    );
}

#[test]
fn default_bindings_and_input_map() {
    let k = default_keybinds();
    assert_eq!(k.get(PlayerAction::MoveForward), Some(BindCode::Key(KeyCode::KeyW)));
    assert_eq!(k.get(PlayerAction::Shoot), Some(BindCode::Mouse(MouseButton::Left)));
    assert_eq!(k.get(PlayerAction::Scoreboard), Some(BindCode::Key(KeyCode::Tab)));
    let m = rebuild_input_map(&k);
    assert_eq!(m.len(), 9);
    assert_eq!(m[0], (PlayerAction::MoveForward, BindCode::Key(KeyCode::KeyW)));
    assert_eq!(m[4], (PlayerAction::Jump, BindCode::Key(KeyCode::Space)));
    assert_eq!(m[7], (PlayerAction::Pause, BindCode::Key(KeyCode::Escape)));
}

#[test]
fn rebinding_one_action_keeps_the_others() {
    let mut k = default_keybinds();
    k.insert(PlayerAction::Jump, BindCode::Key(KeyCode::ControlLeft));
    assert_eq!(k.get(PlayerAction::Jump), Some(BindCode::Key(KeyCode::ControlLeft)));
    assert_eq!(k.get(PlayerAction::MoveBack), Some(BindCode::Key(KeyCode::KeyS)));
    let m = rebuild_input_map(&k);
    assert_eq!(m.len(), 9);
    assert_eq!(m[4], (PlayerAction::Jump, BindCode::Key(KeyCode::ControlLeft)));
}

#[test]
fn unbound_actions_are_left_out_of_the_map() {
    let mut k = default_keybinds();
    k.binds[1] = None;
    let m = rebuild_input_map(&k);
    assert_eq!(m.len(), 8);
    assert_eq!(m[1].0, PlayerAction::MoveLeft);
}

#[test]
fn settings_defaults_and_labels() {
    let g = GameSettings::with_sensitivity(3u32);
    assert!(!g.fullscreen);
    assert!(g.antialiasing);
    assert_eq!(g.mouse_sensitivity, 3);
    assert_eq!(g.keybinds.get(PlayerAction::Reload), Some(BindCode::Key(KeyCode::KeyR)));
    assert_eq!(on_off(true), "ON");
    assert_eq!(on_off(false), "OFF");
    assert_eq!(format_mouse_button(MouseButton::Left), "LMB");
    assert_eq!(format_mouse_button(MouseButton::Right), "RMB");
    assert_eq!(format_mouse_button(MouseButton::Middle), "MMB");
    assert_eq!(format_mouse_button(MouseButton::Back), "Mouse4");
    assert_eq!(format_mouse_button(MouseButton::Forward), "Mouse5");
    assert_eq!(format_mouse_button(MouseButton::Other(9)), "Mouse?");
    assert_eq!(SettingsReturnState::default().0, GameState::Playing);
}

#[test]
fn clicking_a_rebind_button_starts_listening() {
    let clicks = vec![
        KeybindClick { pressed: false, action: PlayerAction::Jump },
        KeybindClick { pressed: true, action: PlayerAction::Reload },
        KeybindClick { pressed: false, action: PlayerAction::Pause },
    ];
    assert_eq!(
        handle_keybind_click(None, &clicks),
        Some(ListeningForBind { action: PlayerAction::Reload, ready: false })
    );
    let busy = Some(ListeningForBind { action: PlayerAction::Shoot, ready: true });
    assert_eq!(handle_keybind_click(busy, &clicks), busy);
    assert_eq!(handle_keybind_click(None, &vec![]), None);
}

#[test]
fn capturing_a_binding() {
    let mut k = default_keybinds();
    let mut l = ListeningForBind { action: PlayerAction::Jump, ready: false };
    let press_e = vec![KeyPress { pressed: true, is_escape: false, key: KeyCode::Other(69) }];
    // The first frame only arms the listener.
    assert_eq!(handle_keybind_input(&mut l, &mut k, &press_e, &vec![]), BindOutcome::Armed);
    assert!(l.ready);
    assert_eq!(k.get(PlayerAction::Jump), Some(BindCode::Key(KeyCode::Space)));
    assert_eq!(handle_keybind_input(&mut l, &mut k, &vec![], &vec![]), BindOutcome::Waiting);
    let out = handle_keybind_input(&mut l, &mut k, &press_e, &vec![]);
    assert_eq!(out, BindOutcome::Captured(BindCode::Key(KeyCode::Other(69))));
    assert_eq!(k.get(PlayerAction::Jump), Some(BindCode::Key(KeyCode::Other(69))));
}

#[test]
fn mouse_binding_and_escape() {
    let mut k = default_keybinds();
    let mut l = ListeningForBind { action: PlayerAction::Shoot, ready: true };
    let mice = vec![
        MousePress { pressed: false, button: MouseButton::Left },
        MousePress { pressed: true, button: MouseButton::Right },
    ];
    assert_eq!(
        handle_keybind_input(&mut l, &mut k, &vec![], &mice),
        BindOutcome::Captured(BindCode::Mouse(MouseButton::Right))
    );
    let esc = vec![KeyPress { pressed: true, is_escape: true, key: KeyCode::Escape }];
    let before = k;
    assert_eq!(handle_keybind_input(&mut l, &mut k, &esc, &mice), BindOutcome::Cancelled);
    assert_eq!(k.binds, before.binds);
}

#[test]
fn leaving_the_settings_screen() {
    let ret = SettingsReturnState(GameState::Paused);
    assert_eq!(handle_settings_escape_key(true, false, false, ret), Some(GameState::Paused));
    assert_eq!(handle_settings_escape_key(true, true, false, ret), None);
    assert_eq!(handle_settings_escape_key(true, false, true, ret), None);
    assert_eq!(handle_settings_escape_key(false, false, false, ret), None);
    let mut listening = Some(ListeningForBind { action: PlayerAction::Jump, ready: true });
    assert_eq!(handle_back_button(&mut listening, ret), GameState::Paused);
    assert_eq!(listening, None);
    assert_eq!(
        handle_pause_settings_button(),
        (SettingsReturnState(GameState::Paused), GameState::Settings)
    );
    assert_eq!(handle_resume(), GameState::Playing);
}

#[test]
fn resetting_restores_the_defaults() {
    let mut g = GameSettings::with_sensitivity(7u8);
    g.fullscreen = true;
    g.keybinds.insert(PlayerAction::MoveLeft, BindCode::Key(KeyCode::ArrowUp));
    let m = handle_reset_keybinds(&mut g);
    assert!(g.fullscreen);
    assert_eq!(g.keybinds.binds, default_keybinds().binds);
    assert_eq!(m, rebuild_input_map(&default_keybinds()));
}

#[test]
fn key_names_and_button_texts() {
    assert_eq!(format_keycode("KeyW"), "W");
    assert_eq!(format_keycode("Space"), "Space");
    assert_eq!(format_keycode("Key"), "");
    assert_eq!(format_keycode("Ke"), "Ke");
    assert_eq!(format_keycode("ArrowUp"), "ArrowUp");
    assert_eq!(keybind_text(true, Some(BindCode::Key(KeyCode::KeyW)), "KeyW"), "Press a key...");
    assert_eq!(keybind_text(false, Some(BindCode::Key(KeyCode::KeyW)), "KeyW"), "W");
    assert_eq!(keybind_text(false, Some(BindCode::Mouse(MouseButton::Back)), ""), "Mouse4");
    assert_eq!(keybind_text(false, None, ""), "\u{2014}");
    let l = Some(ListeningForBind { action: PlayerAction::Jump, ready: true });
    assert!(is_listening_for(l, PlayerAction::Jump));
    assert!(!is_listening_for(l, PlayerAction::Shoot));
    let fresh = Some(ListeningForBind { action: PlayerAction::Jump, ready: false });
    assert!(!is_listening_for(fresh, PlayerAction::Jump));
    assert!(!is_listening_for(None, PlayerAction::Jump));
}

#[test]
fn display_toggles() {
    let mut g = GameSettings::with_sensitivity(1u8);
    assert_eq!(handle_fullscreen_toggle(&mut g, &vec![]), None);
    assert!(!g.fullscreen);
    assert_eq!(handle_fullscreen_toggle(&mut g, &vec![false, true]), Some(WindowMode::Fullscreen));
    assert!(g.fullscreen);
    assert_eq!(handle_fullscreen_toggle(&mut g, &vec![true, true]), Some(WindowMode::Fullscreen));
    assert_eq!(handle_fullscreen_toggle(&mut g, &vec![true]), Some(WindowMode::Windowed));
    assert!(!g.fullscreen);
    assert!(g.antialiasing);
    assert_eq!(handle_antialiasing_toggle(&mut g, &vec![true]), Some(Msaa::Off));
    assert!(!g.antialiasing);
    assert_eq!(handle_antialiasing_toggle(&mut g, &vec![false]), None);
    assert_eq!(handle_antialiasing_toggle(&mut g, &vec![true, false]), Some(Msaa::Sample4));
    assert!(g.antialiasing);
}
