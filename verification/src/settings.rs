//! Gameplay actions, their key bindings, and the settings and pause menus:
//! rebinding a key, resetting the bindings, and where Back and Escape lead.
use vstd::prelude::*;
use crate::scores::GameState;
use crate::text::{string_from, string_of_range, to_chars};

verus! {

/// Gameplay actions that can be bound to keyboard or mouse inputs.
#[derive(Clone, Copy, Debug, PartialEq, Eq, Structural)]
pub enum PlayerAction {
    MoveForward,
    MoveBack,
    MoveLeft,
    MoveRight,
    Jump,
    Shoot,
    Reload,
    Pause,
    Scoreboard,
}

/// The position of an action in the settings list.
pub open spec fn action_index(a: PlayerAction) -> int {
    match a {
        PlayerAction::MoveForward => 0,
        PlayerAction::MoveBack => 1,
        PlayerAction::MoveLeft => 2,
        PlayerAction::MoveRight => 3,
        PlayerAction::Jump => 4,
        PlayerAction::Shoot => 5,
        PlayerAction::Reload => 6,
        PlayerAction::Pause => 7,
        PlayerAction::Scoreboard => 8,
    }
}

/// The action at position `i` of the settings list.
pub open spec fn action_at(i: int) -> PlayerAction {
    if i == 0 {
        PlayerAction::MoveForward
    } else if i == 1 {
        PlayerAction::MoveBack
    } else if i == 2 {
        PlayerAction::MoveLeft
    } else if i == 3 {
        PlayerAction::MoveRight
    } else if i == 4 {
        PlayerAction::Jump
    } else if i == 5 {
        PlayerAction::Shoot
    } else if i == 6 {
        PlayerAction::Reload
    } else if i == 7 {
        PlayerAction::Pause
    } else {
        PlayerAction::Scoreboard
    }
}

/// The position of `a` in the settings list.
pub fn index_of_action(a: PlayerAction) -> (i: usize)
    ensures
        i == action_index(a),
        i < 9,
        action_at(i as int) == a,
{
    match a {
        PlayerAction::MoveForward => 0,
        PlayerAction::MoveBack => 1,
        PlayerAction::MoveLeft => 2,
        PlayerAction::MoveRight => 3,
        PlayerAction::Jump => 4,
        PlayerAction::Shoot => 5,
        PlayerAction::Reload => 6,
        PlayerAction::Pause => 7,
        PlayerAction::Scoreboard => 8,
    }
}

/// The action at position `i` of the settings list.
pub fn action_at_index(i: usize) -> (a: PlayerAction)
    requires
        i < 9,
    ensures
        a == action_at(i as int),
        action_index(a) == i,
{
    if i == 0 {
        PlayerAction::MoveForward
    } else if i == 1 {
        PlayerAction::MoveBack
    } else if i == 2 {
        PlayerAction::MoveLeft
    } else if i == 3 {
        PlayerAction::MoveRight
    } else if i == 4 {
        PlayerAction::Jump
    } else if i == 5 {
        PlayerAction::Shoot
    } else if i == 6 {
        PlayerAction::Reload
    } else if i == 7 {
        PlayerAction::Pause
    } else {
        PlayerAction::Scoreboard
    }
}

/// Every action, in the fixed order of the settings screen.
pub fn all_actions() -> (v: Vec<PlayerAction>)
    ensures
        v@.len() == 9,
        forall|i: int| 0 <= i < 9 ==> #[trigger] v@[i] == action_at(i),
{
    let mut v: Vec<PlayerAction> = Vec::new();
    let mut i: usize = 0;
    while i < 9
        invariant
            i <= 9,
            v@.len() == i,
            forall|k: int| 0 <= k < i ==> #[trigger] v@[k] == action_at(k),
        decreases 9 - i,
    {
        v.push(action_at_index(i));
        i = i + 1;
    }
    v
}

/// The label of an action on the settings screen.
pub open spec fn label_of(a: PlayerAction) -> Seq<char> {
    match a {
        PlayerAction::MoveForward => "Move Forward"@,
        PlayerAction::MoveBack => "Move Back"@,
        PlayerAction::MoveLeft => "Move Left"@,
        PlayerAction::MoveRight => "Move Right"@,
        PlayerAction::Jump => "Jump"@,
        PlayerAction::Shoot => "Shoot"@,
        PlayerAction::Reload => "Reload"@,
        PlayerAction::Pause => "Pause"@,
        PlayerAction::Scoreboard => "Scoreboard"@,
    }
}

/// The label of an action on the settings screen.
pub fn action_label(action: &PlayerAction) -> (s: &'static str)
    ensures
        s@ == label_of(*action),
{
    match action {
        PlayerAction::MoveForward => "Move Forward",
        PlayerAction::MoveBack => "Move Back",
        PlayerAction::MoveLeft => "Move Left",
        PlayerAction::MoveRight => "Move Right",
        PlayerAction::Jump => "Jump",
        PlayerAction::Shoot => "Shoot",
        PlayerAction::Reload => "Reload",
        PlayerAction::Pause => "Pause",
        PlayerAction::Scoreboard => "Scoreboard",
    }
}

/// Keyboard keys. The keys that the game names are listed; every other
/// key is `Other` with the code the platform layer gives it.
#[derive(Clone, Copy, Debug, PartialEq, Eq, Structural)]
pub enum KeyCode {
    KeyW,
    KeyS,
    KeyA,
    KeyD,
    KeyR,
    Space,
    Escape,
    Tab,
    Enter,
    ArrowUp,
    ArrowDown,
    ControlLeft,
    Other(u32),
}

/// Mouse buttons.
#[derive(Clone, Copy, Debug, PartialEq, Eq, Structural)]
pub enum MouseButton {
    Left,
    Right,
    Middle,
    Back,
    Forward,
    Other(u16),
}

/// The short name of a mouse button on the settings screen.
pub open spec fn mouse_label(b: MouseButton) -> Seq<char> {
    match b {
        MouseButton::Left => "LMB"@,
        MouseButton::Right => "RMB"@,
        MouseButton::Middle => "MMB"@,
        MouseButton::Back => "Mouse4"@,
        MouseButton::Forward => "Mouse5"@,
        MouseButton::Other(_) => "Mouse?"@,
    }
}

/// The short name of a mouse button on the settings screen.
pub fn format_mouse_button(btn: MouseButton) -> (s: &'static str)
    ensures
        s@ == mouse_label(btn),
{
    match btn {
        MouseButton::Left => "LMB",
        MouseButton::Right => "RMB",
        MouseButton::Middle => "MMB",
        MouseButton::Back => "Mouse4",
        MouseButton::Forward => "Mouse5",
        MouseButton::Other(_) => "Mouse?",
    }
}

/// A single key or mouse-button binding.
#[derive(Clone, Copy, Debug, PartialEq, Eq, Structural)]
pub enum BindCode {
    Key(KeyCode),
    Mouse(MouseButton),
}

/// One binding (or none) per action, by settings-list position.
#[derive(Clone, Copy)]
pub struct Keybinds {
    pub binds: [Option<BindCode>; 9],
}

/// The default binding of an action.
pub open spec fn default_bind(a: PlayerAction) -> BindCode {
    match a {
        PlayerAction::MoveForward => BindCode::Key(KeyCode::KeyW),
        PlayerAction::MoveBack => BindCode::Key(KeyCode::KeyS),
        PlayerAction::MoveLeft => BindCode::Key(KeyCode::KeyA),
        PlayerAction::MoveRight => BindCode::Key(KeyCode::KeyD),
        PlayerAction::Jump => BindCode::Key(KeyCode::Space),
        PlayerAction::Shoot => BindCode::Mouse(MouseButton::Left),
        PlayerAction::Reload => BindCode::Key(KeyCode::KeyR),
        PlayerAction::Pause => BindCode::Key(KeyCode::Escape),
        PlayerAction::Scoreboard => BindCode::Key(KeyCode::Tab),
    }
}

impl Keybinds {
    /// The binding of `a`, if any.
    pub open spec fn bind_of(&self, a: PlayerAction) -> Option<BindCode> {
        self.binds@[action_index(a)]
    }

    /// The binding of `a`, if any.
    pub fn get(&self, a: PlayerAction) -> (b: Option<BindCode>)
        ensures
            b == self.bind_of(a),
    {
        self.binds[index_of_action(a)]
    }

    /// Binds `a` to `b`, replacing its previous binding.
    pub fn insert(&mut self, a: PlayerAction, b: BindCode)
        ensures
            final(self).bind_of(a) == Some(b),
            forall|x: PlayerAction| x != a ==> #[trigger] final(self).bind_of(x) == old(self).bind_of(x),
    {
        let i = index_of_action(a);
        self.binds[i] = Some(b);
        proof {
            assert forall|x: PlayerAction| x != a implies #[trigger] self.bind_of(x) == old(self).bind_of(
                x,
            ) by {
                assert(action_index(x) != action_index(a));
            }
        }
    }
}

/// The standard layout: W forward, S back, A left, D right, Space to jump,
/// the left mouse button to shoot, R to reload, Escape to pause, Tab for
/// the scoreboard.
pub open spec fn standard_layout(k: Keybinds) -> bool {
    &&& k.bind_of(PlayerAction::MoveForward) == Some(BindCode::Key(KeyCode::KeyW))
    &&& k.bind_of(PlayerAction::MoveBack) == Some(BindCode::Key(KeyCode::KeyS))
    &&& k.bind_of(PlayerAction::MoveLeft) == Some(BindCode::Key(KeyCode::KeyA))
    &&& k.bind_of(PlayerAction::MoveRight) == Some(BindCode::Key(KeyCode::KeyD))
    &&& k.bind_of(PlayerAction::Jump) == Some(BindCode::Key(KeyCode::Space))
    &&& k.bind_of(PlayerAction::Shoot) == Some(BindCode::Mouse(MouseButton::Left))
    &&& k.bind_of(PlayerAction::Reload) == Some(BindCode::Key(KeyCode::KeyR))
    &&& k.bind_of(PlayerAction::Pause) == Some(BindCode::Key(KeyCode::Escape))
    &&& k.bind_of(PlayerAction::Scoreboard) == Some(BindCode::Key(KeyCode::Tab))
}

/// The default bindings: WASD to move, Space to jump, left mouse button to
/// shoot, R to reload, Escape to pause, Tab for the scoreboard.
pub fn default_keybinds() -> (k: Keybinds)
    ensures
        forall|a: PlayerAction| #[trigger] k.bind_of(a) == Some(default_bind(a)),
        standard_layout(k),
{
    let k = Keybinds {
        binds: [
            Some(BindCode::Key(KeyCode::KeyW)),
            Some(BindCode::Key(KeyCode::KeyS)),
            Some(BindCode::Key(KeyCode::KeyA)),
            Some(BindCode::Key(KeyCode::KeyD)),
            Some(BindCode::Key(KeyCode::Space)),
            Some(BindCode::Mouse(MouseButton::Left)),
            Some(BindCode::Key(KeyCode::KeyR)),
            Some(BindCode::Key(KeyCode::Escape)),
            Some(BindCode::Key(KeyCode::Tab)),
        ],
    };
    assert forall|a: PlayerAction| #[trigger] k.bind_of(a) == Some(default_bind(a)) by {
        match a {
            PlayerAction::MoveForward => assert(k.binds@[0] == k.binds[0]),
            PlayerAction::MoveBack => assert(k.binds@[1] == k.binds[1]),
            PlayerAction::MoveLeft => assert(k.binds@[2] == k.binds[2]),
            PlayerAction::MoveRight => assert(k.binds@[3] == k.binds[3]),
            PlayerAction::Jump => assert(k.binds@[4] == k.binds[4]),
            PlayerAction::Shoot => assert(k.binds@[5] == k.binds[5]),
            PlayerAction::Reload => assert(k.binds@[6] == k.binds[6]),
            PlayerAction::Pause => assert(k.binds@[7] == k.binds[7]),
            PlayerAction::Scoreboard => assert(k.binds@[8] == k.binds[8]),
        }
    }
    k
}

/// The bound actions in settings-list order, with their bindings.
pub open spec fn input_map_from(k: Keybinds, upto: int) -> Seq<(PlayerAction, BindCode)>
    decreases upto,
{
    if upto <= 0 {
        Seq::empty()
    } else {
        let prev = input_map_from(k, upto - 1);
        match k.bind_of(action_at(upto - 1)) {
            Some(b) => prev.push((action_at(upto - 1), b)),
            None => prev,
        }
    }
}

/// The input map that the bindings give: every bound action with its
/// binding, in settings-list order.
pub fn rebuild_input_map(keybinds: &Keybinds) -> (m: Vec<(PlayerAction, BindCode)>)
    ensures
        m@ == input_map_from(*keybinds, 9),
{
    let mut m: Vec<(PlayerAction, BindCode)> = Vec::new();
    let mut i: usize = 0;
    while i < 9
        invariant
            i <= 9,
            m@ == input_map_from(*keybinds, i as int),
        decreases 9 - i,
    {
        let a = action_at_index(i);
        match keybinds.get(a) {
            Some(b) => m.push((a, b)),
            None => {},
        }
        i = i + 1;
    }
    m
}

/// Game settings shared by the settings screen and gameplay; `S` is the
/// mouse sensitivity type (radians per pixel).
pub struct GameSettings<S> {
    pub fullscreen: bool,
    pub antialiasing: bool,
    pub mouse_sensitivity: S,
    pub keybinds: Keybinds,
}

impl<S> GameSettings<S> {
    /// The default settings with the given sensitivity: windowed,
    /// antialiasing on, default bindings.
    pub fn with_sensitivity(mouse_sensitivity: S) -> (g: Self)
        ensures
            !g.fullscreen,
            g.antialiasing,
            g.mouse_sensitivity == mouse_sensitivity,
            forall|a: PlayerAction| #[trigger] g.keybinds.bind_of(a) == Some(default_bind(a)),
            standard_layout(g.keybinds),
    {
        GameSettings {
            fullscreen: false,
            antialiasing: true,
            mouse_sensitivity,
            keybinds: default_keybinds(),
        }
    }
}

/// The text of an on/off toggle.
pub fn on_off(val: bool) -> (s: &'static str)
    ensures
        val ==> s@ == "ON"@,
        !val ==> s@ == "OFF"@,
{
    if val {
        "ON"
    } else {
        "OFF"
    }
}

/// The state to return to when the settings screen is left.
#[derive(Clone, Copy, Debug, PartialEq, Eq, Structural)]
pub struct SettingsReturnState(pub GameState);

impl Default for SettingsReturnState {
    fn default() -> (s: Self)
        ensures
            s.0 == GameState::Playing,
    {
        SettingsReturnState(GameState::Playing)
    }
}

/// While present, the next key or mouse press is bound to `action`.
#[derive(Clone, Copy, Debug, PartialEq, Eq, Structural)]
pub struct ListeningForBind {
    pub action: PlayerAction,
    /// False on the first frame, so that the click that opened the
    /// listener is not taken as the new binding.
    pub ready: bool,
}

/// A click on the rebind button of an action.
#[derive(Clone, Copy, Debug, PartialEq, Eq, Structural)]
pub struct KeybindClick {
    pub pressed: bool,
    pub action: PlayerAction,
}

/// The action of the last pressed rebind button among `clicks`.
pub open spec fn last_pressed(clicks: Seq<KeybindClick>) -> Option<PlayerAction>
    decreases clicks.len(),
{
    if clicks.len() == 0 {
        None
    } else if clicks.last().pressed {
        Some(clicks.last().action)
    } else {
        last_pressed(clicks.drop_last())
    }
}

/// Clicking rebind buttons: while listening, clicks are ignored;
/// otherwise the last pressed button starts listening for its action.
pub fn handle_keybind_click(listening: Option<ListeningForBind>, clicks: &Vec<KeybindClick>) -> (r:
    Option<ListeningForBind>)
    ensures
        listening is Some ==> r == listening,
        listening is None ==> r == match last_pressed(clicks@) {
            Some(a) => Some(ListeningForBind { action: a, ready: false }),
            None => None,
        },
{
    if listening.is_some() {
        return listening;
    }
    let mut r: Option<ListeningForBind> = None;
    let mut i: usize = 0;
    while i < clicks.len()
        invariant
            i <= clicks.len(),
            r == match last_pressed(clicks@.take(i as int)) {
                Some(a) => Some(ListeningForBind { action: a, ready: false }),
                None => None,
            },
        decreases clicks.len() - i,
    {
        assert(clicks@.take(i + 1).drop_last() =~= clicks@.take(i as int));
        if clicks[i].pressed {
            r = Some(ListeningForBind { action: clicks[i].action, ready: false });
        }
        i = i + 1;
    }
    assert(clicks@.take(clicks.len() as int) =~= clicks@);
    r
}

/// A keyboard event while listening.
#[derive(Clone, Copy, Debug, PartialEq, Eq, Structural)]
pub struct KeyPress {
    pub pressed: bool,
    /// Whether the key is Escape (by its key code or its logical key).
    pub is_escape: bool,
    pub key: KeyCode,
}

/// A mouse-button event while listening.
#[derive(Clone, Copy, Debug, PartialEq, Eq, Structural)]
pub struct MousePress {
    pub pressed: bool,
    pub button: MouseButton,
}

/// The first pressed key among `keys`.
pub open spec fn first_pressed_key(keys: Seq<KeyPress>) -> Option<KeyPress>
    decreases keys.len(),
{
    if keys.len() == 0 {
        None
    } else if keys[0].pressed {
        Some(keys[0])
    } else {
        first_pressed_key(keys.drop_first())
    }
}

/// The first pressed mouse button among `mice`.
pub open spec fn first_pressed_button(mice: Seq<MousePress>) -> Option<MouseButton>
    decreases mice.len(),
{
    if mice.len() == 0 {
        None
    } else if mice[0].pressed {
        Some(mice[0].button)
    } else {
        first_pressed_button(mice.drop_first())
    }
}

/// What a frame of input does while listening for a binding.
#[derive(Clone, Copy, Debug, PartialEq, Eq, Structural)]
pub enum BindOutcome {
    /// First frame: the listener became ready; the frame's input is dropped.
    Armed,
    /// Escape was pressed: listening stops, the binding is unchanged, and
    /// Escape does not also close the settings screen this frame.
    Cancelled,
    /// The binding was captured and stored; listening stops and the input
    /// map is rebuilt.
    Captured(BindCode),
    /// Nothing was pressed; still listening.
    Waiting,
}

/// The outcome of a frame of input while listening for `l`.
pub open spec fn bind_outcome(l: ListeningForBind, keys: Seq<KeyPress>, mice: Seq<MousePress>) -> BindOutcome {
    if !l.ready {
        BindOutcome::Armed
    } else {
        match first_pressed_key(keys) {
            Some(k) => if k.is_escape {
                BindOutcome::Cancelled
            } else {
                BindOutcome::Captured(BindCode::Key(k.key))
            },
            None => match first_pressed_button(mice) {
                Some(b) => BindOutcome::Captured(BindCode::Mouse(b)),
                None => BindOutcome::Waiting,
            },
        }
    }
}

fn find_pressed_key(keys: &Vec<KeyPress>) -> (r: Option<KeyPress>)
    ensures
        r == first_pressed_key(keys@),
{
    let mut i: usize = 0;
    assert(keys@.skip(0) =~= keys@);
    while i < keys.len()
        invariant
            i <= keys.len(),
            first_pressed_key(keys@) == first_pressed_key(keys@.skip(i as int)),
        decreases keys.len() - i,
    {
        assert(keys@.skip(i as int)[0] == keys@[i as int]);
        assert(keys@.skip(i as int).drop_first() =~= keys@.skip(i + 1));
        if keys[i].pressed {
            return Some(keys[i]);
        }
        i = i + 1;
    }
    None
}

fn find_pressed_button(mice: &Vec<MousePress>) -> (r: Option<MouseButton>)
    ensures
        r == first_pressed_button(mice@),
{
    let mut i: usize = 0;
    assert(mice@.skip(0) =~= mice@);
    while i < mice.len()
        invariant
            i <= mice.len(),
            first_pressed_button(mice@) == first_pressed_button(mice@.skip(i as int)),
        decreases mice.len() - i,
    {
        assert(mice@.skip(i as int)[0] == mice@[i as int]);
        assert(mice@.skip(i as int).drop_first() =~= mice@.skip(i + 1));
        if mice[i].pressed {
            return Some(mice[i].button);
        }
        i = i + 1;
    }
    None
}

/// A frame of input while listening for a binding of `listening.action`:
/// on the first frame the listener only becomes ready; afterwards the
/// first pressed key (Escape cancels) or, failing that, the first pressed
/// mouse button becomes the action's binding.
pub fn handle_keybind_input(
    listening: &mut ListeningForBind,
    keybinds: &mut Keybinds,
    keys: &Vec<KeyPress>,
    mice: &Vec<MousePress>,
) -> (o: BindOutcome)
    ensures
        o == bind_outcome(*old(listening), keys@, mice@),
        final(listening).action == old(listening).action,
        final(listening).ready,
        o matches BindOutcome::Captured(b) ==> {
            &&& final(keybinds).bind_of(old(listening).action) == Some(b)
            &&& forall|x: PlayerAction|
                x != old(listening).action ==> #[trigger] final(keybinds).bind_of(x) == old(
                    keybinds,
                ).bind_of(x)
        },
        !(o is Captured) ==> *final(keybinds) == *old(keybinds),
{
    if !listening.ready {
        listening.ready = true;
        return BindOutcome::Armed;
    }
    match find_pressed_key(keys) {
        Some(k) => {
            if k.is_escape {
                return BindOutcome::Cancelled;
            }
            let b = BindCode::Key(k.key);
            keybinds.insert(listening.action, b);
            BindOutcome::Captured(b)
        },
        None => match find_pressed_button(mice) {
            Some(btn) => {
                let b = BindCode::Mouse(btn);
                keybinds.insert(listening.action, b);
                BindOutcome::Captured(b)
            },
            None => BindOutcome::Waiting,
        },
    }
}

/// Escape on the settings screen: it leaves the screen (to the return
/// state) unless a rebind is being listened for or was cancelled this
/// frame.
pub fn handle_settings_escape_key(
    escape_pressed: bool,
    listening: bool,
    cancelled: bool,
    return_state: SettingsReturnState,
) -> (next: Option<GameState>)
    ensures
        next == if escape_pressed && !listening && !cancelled {
            Some(return_state.0)
        } else {
            None
        },
{
    if !escape_pressed {
        return None;
    }
    if listening {
        return None;
    }
    if cancelled {
        return None;
    }
    Some(return_state.0)
}

/// Back on the settings screen: listening stops and the screen is left
/// for the return state.
pub fn handle_back_button(listening: &mut Option<ListeningForBind>, return_state: SettingsReturnState) -> (next: GameState)
    ensures
        next == return_state.0,
        *final(listening) is None,
{
    *listening = None;
    return_state.0
}

/// Settings from the pause menu: Back will return to the pause menu.
pub fn handle_pause_settings_button() -> (r: (SettingsReturnState, GameState))
    ensures
        r.0.0 == GameState::Paused,
        r.1 == GameState::Settings,
{
    (SettingsReturnState(GameState::Paused), GameState::Settings)
}

/// Resume (button or Escape) from the pause menu.
pub fn handle_resume() -> (s: GameState)
    ensures
        s == GameState::Playing,
{
    GameState::Playing
}

/// Resetting the bindings to the defaults.
pub fn handle_reset_keybinds<S>(settings: &mut GameSettings<S>) -> (m: Vec<(PlayerAction, BindCode)>)
    ensures
        forall|a: PlayerAction| #[trigger] final(settings).keybinds.bind_of(a) == Some(default_bind(a)),
        standard_layout(final(settings).keybinds),
        final(settings).fullscreen == old(settings).fullscreen,
        final(settings).antialiasing == old(settings).antialiasing,
        final(settings).mouse_sensitivity == old(settings).mouse_sensitivity,
        m@ == input_map_from(final(settings).keybinds, 9),
{
    settings.keybinds = default_keybinds();
    rebuild_input_map(&settings.keybinds)
}

/// A key's name on the settings screen: its debug name (as the input
/// layer prints it) without a leading `Key`, so `KeyW` shows as `W`.
pub open spec fn key_label(debug_name: Seq<char>) -> Seq<char> {
    if debug_name.len() >= 3 && debug_name[0] == 'K' && debug_name[1] == 'e' && debug_name[2] == 'y' {
        debug_name.skip(3)
    } else {
        debug_name
    }
}

/// The settings-screen name of a key, from its debug name.
pub fn format_keycode(debug_name: &str) -> (s: String)
    ensures
        s@ == key_label(debug_name@),
{
    let v = to_chars(debug_name);
    if v.len() >= 3 && v[0] == 'K' && v[1] == 'e' && v[2] == 'y' {
        let s = string_of_range(&v, 3, v.len());
        assert(v@.subrange(3, v@.len() as int) =~= v@.skip(3));
        s
    } else {
        string_of_range(&v, 0, v.len())
    }
}

/// Whether the rebind button of `action` shows the listening prompt: the
/// listener is for that action and past its first frame.
pub fn is_listening_for(listening: Option<ListeningForBind>, action: PlayerAction) -> (b: bool)
    ensures
        b == (listening matches Some(l) && l.action == action && l.ready),
{
    match listening {
        Some(l) => l.action == action && l.ready,
        None => false,
    }
}

/// The text of a rebind button.
pub open spec fn keybind_text_of(listening: bool, bind: Option<BindCode>, key_debug_name: Seq<char>) -> Seq<char> {
    if listening {
        "Press a key..."@
    } else {
        match bind {
            Some(BindCode::Key(_)) => key_label(key_debug_name),
            Some(BindCode::Mouse(b)) => mouse_label(b),
            None => "\u{2014}"@,
        }
    }
}

/// The text of a rebind button: the prompt while listening, else the
/// binding's name (`key_debug_name` is the debug name of a bound key), or
/// a dash when the action is unbound.
pub fn keybind_text(listening: bool, bind: Option<BindCode>, key_debug_name: &str) -> (s: String)
    ensures
        s@ == keybind_text_of(listening, bind, key_debug_name@),
{
    if listening {
        return string_from("Press a key...");
    }
    match bind {
        Some(BindCode::Key(_)) => format_keycode(key_debug_name),
        Some(BindCode::Mouse(b)) => string_from(format_mouse_button(b)),
        None => string_from("\u{2014}"),
    }
}

/// `b` flipped once for every press in `presses`.
pub open spec fn flipped(b: bool, presses: Seq<bool>) -> bool
    decreases presses.len(),
{
    if presses.len() == 0 {
        b
    } else if presses.last() {
        !flipped(b, presses.drop_last())
    } else {
        flipped(b, presses.drop_last())
    }
}

/// Whether some press is among `presses`.
pub open spec fn any_pressed(presses: Seq<bool>) -> bool
    decreases presses.len(),
{
    presses.len() > 0 && (presses.last() || any_pressed(presses.drop_last()))
}

/// How the game window is shown.
#[derive(Clone, Copy, Debug, PartialEq, Eq, Structural)]
pub enum WindowMode {
    Windowed,
    /// Fullscreen on the current monitor, in its current video mode.
    Fullscreen,
}

/// Multisample antialiasing of the cameras.
#[derive(Clone, Copy, Debug, PartialEq, Eq, Structural)]
pub enum Msaa {
    Off,
    Sample4,
}

/// Clicks on the fullscreen toggle (`true` for a press): each press flips
/// the setting; after a press every window takes the new mode.
pub fn handle_fullscreen_toggle<S>(settings: &mut GameSettings<S>, presses: &Vec<bool>) -> (mode: Option<WindowMode>)
    ensures
        final(settings).fullscreen == flipped(old(settings).fullscreen, presses@),
        final(settings).antialiasing == old(settings).antialiasing,
        final(settings).mouse_sensitivity == old(settings).mouse_sensitivity,
        final(settings).keybinds == old(settings).keybinds,
        any_pressed(presses@) ==> mode == Some(
            if final(settings).fullscreen {
                WindowMode::Fullscreen
            } else {
                WindowMode::Windowed
            },
        ),
        !any_pressed(presses@) ==> mode is None,
{
    let mut mode: Option<WindowMode> = None;
    let mut i: usize = 0;
    let ghost start = settings.fullscreen;
    while i < presses.len()
        invariant
            i <= presses.len(),
            settings.fullscreen == flipped(start, presses@.take(i as int)),
            settings.antialiasing == old(settings).antialiasing,
            settings.mouse_sensitivity == old(settings).mouse_sensitivity,
            settings.keybinds == old(settings).keybinds,
            start == old(settings).fullscreen,
            any_pressed(presses@.take(i as int)) ==> mode == Some(
                if settings.fullscreen {
                    WindowMode::Fullscreen
                } else {
                    WindowMode::Windowed
                },
            ),
            !any_pressed(presses@.take(i as int)) ==> mode is None,
        decreases presses.len() - i,
    {
        let ghost before = presses@.take(i as int);
        assert(presses@.take(i + 1).drop_last() =~= before);
        assert(presses@.take(i + 1).last() == presses@[i as int]);
        if presses[i] {
            settings.fullscreen = !settings.fullscreen;
            mode = Some(
                if settings.fullscreen {
                    WindowMode::Fullscreen
                } else {
                    WindowMode::Windowed
                },
            );
        }
        i = i + 1;
    }
    assert(presses@.take(presses.len() as int) =~= presses@);
    mode
}

/// Clicks on the antialiasing toggle (`true` for a press): each press
/// flips the setting; after a press every camera takes the new sampling.
pub fn handle_antialiasing_toggle<S>(settings: &mut GameSettings<S>, presses: &Vec<bool>) -> (msaa: Option<Msaa>)
    ensures
        final(settings).antialiasing == flipped(old(settings).antialiasing, presses@),
        final(settings).fullscreen == old(settings).fullscreen,
        final(settings).mouse_sensitivity == old(settings).mouse_sensitivity,
        final(settings).keybinds == old(settings).keybinds,
        any_pressed(presses@) ==> msaa == Some(
            if final(settings).antialiasing {
                Msaa::Sample4
            } else {
                Msaa::Off
            },
        ),
        !any_pressed(presses@) ==> msaa is None,
{
    let mut msaa: Option<Msaa> = None;
    let mut i: usize = 0;
    let ghost start = settings.antialiasing;
    while i < presses.len()
        invariant
            i <= presses.len(),
            settings.antialiasing == flipped(start, presses@.take(i as int)),
            settings.fullscreen == old(settings).fullscreen,
            settings.mouse_sensitivity == old(settings).mouse_sensitivity,
            settings.keybinds == old(settings).keybinds,
            start == old(settings).antialiasing,
            any_pressed(presses@.take(i as int)) ==> msaa == Some(
                if settings.antialiasing {
                    Msaa::Sample4
                } else {
                    Msaa::Off
                },
            ),
            !any_pressed(presses@.take(i as int)) ==> msaa is None,
        decreases presses.len() - i,
    {
        let ghost before = presses@.take(i as int);
        assert(presses@.take(i + 1).drop_last() =~= before);
        assert(presses@.take(i + 1).last() == presses@[i as int]);
        if presses[i] {
            settings.antialiasing = !settings.antialiasing;
            msaa = Some(
                if settings.antialiasing {
                    Msaa::Sample4
                } else {
                    Msaa::Off
                },
            );
        }
        i = i + 1;
    }
    assert(presses@.take(presses.len() as int) =~= presses@);
    msaa
}

} // verus!
