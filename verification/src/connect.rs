//! The connect screen and the connection attempt: editing the two input
//! fields, validating them, and the messages a failed attempt leaves.
use vstd::prelude::*;
use crate::scores::{ConnectionError, GameState, PlayerProfile};
use crate::text::{pop_char, push_all, push_char, string_from, trim, trimmed};

verus! {

/// The two text fields of the connect screen.
#[derive(Clone, Copy, Debug, PartialEq, Eq, Structural)]
pub enum InputField {
    Username,
    ServerIp,
}

/// The field that receives typed text, if any.
#[derive(Clone, Copy, Debug, PartialEq, Eq, Structural)]
pub struct FocusedField(pub Option<InputField>);

impl Default for FocusedField {
    fn default() -> (f: Self)
        ensures
            f.0 is None,
    {
        FocusedField(None)
    }
}

/// A click on one of the two input boxes.
#[derive(Clone, Copy, Debug, PartialEq, Eq, Structural)]
pub struct FieldClick {
    pub pressed: bool,
    pub field: InputField,
}

/// The focus after clicks on the input boxes: the last pressed box, or
/// the focus as it was when none was pressed.
pub open spec fn focus_after(focus: Option<InputField>, clicks: Seq<FieldClick>) -> Option<InputField>
    decreases clicks.len(),
{
    if clicks.len() == 0 {
        focus
    } else if clicks.last().pressed {
        Some(clicks.last().field)
    } else {
        focus_after(focus, clicks.drop_last())
    }
}

/// Clicking an input box gives it the focus.
pub fn handle_field_click(focus: &mut FocusedField, clicks: &Vec<FieldClick>)
    ensures
        final(focus).0 == focus_after(old(focus).0, clicks@),
{
    let ghost start = focus.0;
    let mut i: usize = 0;
    while i < clicks.len()
        invariant
            i <= clicks.len(),
            focus.0 == focus_after(start, clicks@.take(i as int)),
        decreases clicks.len() - i,
    {
        assert(clicks@.take(i + 1).drop_last() =~= clicks@.take(i as int));
        if clicks[i].pressed {
            focus.0 = Some(clicks[i].field);
        }
        i = i + 1;
    }
    assert(clicks@.take(clicks.len() as int) =~= clicks@);
}

/// Whether the box of `field` is drawn highlighted: it has the focus.
pub fn field_highlighted(focus: FocusedField, field: InputField) -> (b: bool)
    ensures
        b == (focus.0 == Some(field)),
{
    match focus.0 {
        Some(f) => f == field,
        None => false,
    }
}

/// What a key press means to a text field.
pub enum TextKey {
    /// A key that produces text.
    Character(String),
    Backspace,
    /// Any other key.
    Other,
}

/// A keyboard event: the key and whether it was pressed (not released).
pub struct KeyEvent {
    pub pressed: bool,
    pub key: TextKey,
}

/// `s` after one keyboard event.
pub open spec fn apply_key(s: Seq<char>, e: KeyEvent) -> Seq<char> {
    if !e.pressed {
        s
    } else {
        match e.key {
            TextKey::Character(ch) => s + ch@,
            TextKey::Backspace => if s.len() > 0 {
                s.drop_last()
            } else {
                s
            },
            TextKey::Other => s,
        }
    }
}

/// `s` after the keyboard events `es`, in order.
pub open spec fn apply_keys(s: Seq<char>, es: Seq<KeyEvent>) -> Seq<char>
    decreases es.len(),
{
    if es.len() == 0 {
        s
    } else {
        apply_key(apply_keys(s, es.drop_last()), es.last())
    }
}

/// Applies one keyboard event to the text `s`.
fn edit(s: &mut String, e: &KeyEvent)
    ensures
        final(s)@ == apply_key(old(s)@, *e),
{
    if e.pressed {
        match &e.key {
            TextKey::Character(ch) => push_all(s, ch.as_str()),
            TextKey::Backspace => {
                pop_char(s);
            },
            TextKey::Other => {},
        }
    }
}

/// Applies the keyboard events to the focused field of the profile.
pub fn handle_text_input(profile: &mut PlayerProfile, focus: FocusedField, events: &Vec<KeyEvent>)
    ensures
        focus.0 == Some(InputField::Username) ==> final(profile).username@ == apply_keys(
            old(profile).username@,
            events@,
        ),
        focus.0 != Some(InputField::Username) ==> final(profile).username == old(profile).username,
        focus.0 == Some(InputField::ServerIp) ==> final(profile).server_addr@ == apply_keys(
            old(profile).server_addr@,
            events@,
        ),
        focus.0 != Some(InputField::ServerIp) ==> final(profile).server_addr == old(
            profile,
        ).server_addr,
        final(profile).server_addr_locked == old(profile).server_addr_locked,
        final(profile).client_id == old(profile).client_id,
{
    let mut i: usize = 0;
    while i < events.len()
        invariant
            i <= events.len(),
            focus.0 == Some(InputField::Username) ==> profile.username@ == apply_keys(
                old(profile).username@,
                events@.take(i as int),
            ),
            focus.0 != Some(InputField::Username) ==> profile.username == old(profile).username,
            focus.0 == Some(InputField::ServerIp) ==> profile.server_addr@ == apply_keys(
                old(profile).server_addr@,
                events@.take(i as int),
            ),
            focus.0 != Some(InputField::ServerIp) ==> profile.server_addr == old(
                profile,
            ).server_addr,
            profile.server_addr_locked == old(profile).server_addr_locked,
            profile.client_id == old(profile).client_id,
        decreases events.len() - i,
    {
        assert(events@.take(i + 1).drop_last() =~= events@.take(i as int));
        match focus.0 {
            Some(InputField::Username) => edit(&mut profile.username, &events[i]),
            Some(InputField::ServerIp) => edit(&mut profile.server_addr, &events[i]),
            None => {},
        }
        i = i + 1;
    }
    assert(events@.take(events.len() as int) =~= events@);
}

/// The text shown in a field: its value and a bar when it has the focus,
/// a space otherwise.
pub fn field_display(value: &str, focused: bool) -> (s: String)
    ensures
        s@ == value@ + if focused {
            "|"@
        } else {
            " "@
        },
{
    let mut s = string_from(value);
    if focused {
        push_all(&mut s, "|");
    } else {
        push_all(&mut s, " ");
    }
    s
}

/// The connect screen shows the server address field only while the
/// address is not locked by a preset (`RSG_SERVER_ADDR`, or the browser
/// page's `server.txt`).
pub fn address_field_shown(p: &PlayerProfile) -> (b: bool)
    ensures
        b == !p.server_addr_locked,
{
    !p.server_addr_locked
}

/// The address line of the connecting screen: `> ` and the server address.
pub fn connecting_address_text(p: &PlayerProfile) -> (s: String)
    ensures
        s@ == "> "@ + p.server_addr@,
{
    let mut s = string_from("> ");
    push_all(&mut s, p.server_addr.as_str());
    s
}

/// What a press of Connect (or Enter) leads to.
pub enum ConnectOutcome {
    /// Neither Enter nor the button was pressed.
    Idle,
    /// The input was rejected; the message is shown.
    Rejected(String),
    /// The attempt starts: the game goes to `Connecting`.
    Connect,
}

/// The server address to connect to: trimmed, with `:7777` when it has no
/// colon.
pub open spec fn address_with_port(addr: Seq<char>) -> Seq<char> {
    if trimmed(addr).contains(':') {
        trimmed(addr)
    } else {
        trimmed(addr) + ":7777"@
    }
}

/// Validates the connect screen when Enter or the Connect button was
/// pressed: the username is trimmed and must not be empty; the address
/// is trimmed and gets `:7777` when it has no colon. On success the
/// profile holds both, the previous connection error is cleared and the
/// attempt starts.
pub fn handle_connect_button(
    profile: &mut PlayerProfile,
    conn_error: &mut ConnectionError,
    enter_pressed: bool,
    button_pressed: bool,
) -> (o: ConnectOutcome)
    ensures
        !enter_pressed && !button_pressed ==> o is Idle && *final(profile) == *old(profile)
            && *final(conn_error) == *old(conn_error),
        (enter_pressed || button_pressed) && trimmed(old(profile).username@).len() == 0 ==> {
            &&& o is Rejected
            &&& o->Rejected_0@ == "Username is required."@
            &&& *final(profile) == *old(profile)
            &&& *final(conn_error) == *old(conn_error)
        },
        (enter_pressed || button_pressed) && trimmed(old(profile).username@).len() > 0 ==> {
            &&& o is Connect
            &&& final(profile).username@ == trimmed(old(profile).username@)
            &&& final(profile).server_addr@ == address_with_port(old(profile).server_addr@)
            &&& final(profile).server_addr_locked == old(profile).server_addr_locked
            &&& final(profile).client_id == old(profile).client_id
            &&& final(conn_error).0 is None
        },
{
    if !enter_pressed && !button_pressed {
        return ConnectOutcome::Idle;
    }
    let username = trim(profile.username.as_str());
    if username.as_str().unicode_len() == 0 {
        return ConnectOutcome::Rejected(string_from("Username is required."));
    }
    profile.username = username;
    let addr = trim(profile.server_addr.as_str());
    let chars = crate::text::to_chars(addr.as_str());
    let addr = if crate::text::contains_char(&chars, ':') {
        addr
    } else {
        let mut a = addr;
        push_all(&mut a, ":7777");
        a
    };
    proof {
        reveal_strlit(":7777");
        assert(addr@.len() > 0);
    }
    if addr.as_str().unicode_len() == 0 {
        return ConnectOutcome::Rejected(string_from("Server address is required."));
    }
    profile.server_addr = addr;
    conn_error.0 = None;
    ConnectOutcome::Connect
}

/// Cancelling the attempt: the connect screen comes back with a message.
pub fn handle_cancel_button(conn_error: &mut ConnectionError) -> (s: GameState)
    ensures
        s == GameState::ConnectScreen,
        final(conn_error).0 is Some,
        final(conn_error).0->0@ == "Connection cancelled."@,
{
    conn_error.0 = Some(string_from("Connection cancelled."));
    GameState::ConnectScreen
}

/// The attempt timed out: the connect screen comes back with a message.
pub fn connection_timed_out(conn_error: &mut ConnectionError) -> (s: GameState)
    ensures
        s == GameState::ConnectScreen,
        final(conn_error).0 is Some,
        final(conn_error).0->0@ == "Connection timed out."@,
{
    conn_error.0 = Some(string_from("Connection timed out."));
    GameState::ConnectScreen
}

/// The server address could not be resolved: the connect screen comes
/// back with the address and the resolver's reason.
pub fn resolve_failed(conn_error: &mut ConnectionError, addr: &str, reason: &str) -> (s: GameState)
    ensures
        s == GameState::ConnectScreen,
        final(conn_error).0 is Some,
        final(conn_error).0->0@ == "Cannot resolve '"@ + addr@ + "': "@ + reason@,
{
    let mut m = string_from("Cannot resolve '");
    push_all(&mut m, addr);
    push_all(&mut m, "': ");
    push_all(&mut m, reason);
    conn_error.0 = Some(m);
    GameState::ConnectScreen
}

/// The netcode client could not be created: the connect screen comes back
/// with the reason.
pub fn netcode_failed(conn_error: &mut ConnectionError, reason: &str) -> (s: GameState)
    ensures
        s == GameState::ConnectScreen,
        final(conn_error).0 is Some,
        final(conn_error).0->0@ == "Failed to create NetcodeClient: "@ + reason@,
{
    let mut m = string_from("Failed to create NetcodeClient: ");
    push_all(&mut m, reason);
    conn_error.0 = Some(m);
    GameState::ConnectScreen
}

/// The message shown on the connect screen: the last error, or nothing.
pub fn error_text(conn_error: &ConnectionError) -> (s: String)
    ensures
        conn_error.0 is Some ==> s@ == conn_error.0->0@,
        conn_error.0 is None ==> s@ == Seq::<char>::empty(),
{
    match &conn_error.0 {
        Some(m) => m.clone(),
        None => String::new(),
    }
}

} // verus!
