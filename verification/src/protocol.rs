//! The network protocol shared by server and clients: identifiers, the
//! packed input bits and the messages. Floating-point payloads (positions,
//! angles, hit points, colours) are type parameters, so that the library
//! can carry them without reading them.
use vstd::prelude::*;

verus! {

/// Netcode protocol identifier.
pub const PROTOCOL_ID: u64 = 0xDEAD_BEEF_C0DE_0001;

/// Default UDP port of the server.
pub const SERVER_PORT: u16 = 7777;

/// A stable numeric identifier assigned to every networked player.
#[derive(Clone, Copy, Debug, PartialEq, Eq, Structural)]
pub struct NetworkId(pub u64);

/// Input sent from a client to the server: packed buttons and the camera
/// angles (`A`, in radians).
pub struct PlayerInput<A> {
    /// Packed bits: 0 forward, 1 back, 2 left, 3 right, 4 jump, 5 shoot.
    pub buttons: u8,
    pub yaw: A,
    pub pitch: A,
}

/// Whether bit `bit` (counted from the least significant) of `buttons` is
/// set.
pub open spec fn button_bit(buttons: u8, bit: u8) -> bool {
    (buttons >> bit) & 1u8 == 1u8
}

impl<A> PlayerInput<A> {
    pub fn forward(&self) -> (b: bool)
        ensures
            b == button_bit(self.buttons, 0u8),
    {
        let b = self.buttons;
        assert((b & (1u8 << 0u8) != 0) == button_bit(b, 0u8)) by (bit_vector);
        b & (1 << 0) != 0
    }

    pub fn back(&self) -> (b: bool)
        ensures
            b == button_bit(self.buttons, 1u8),
    {
        let b = self.buttons;
        assert((b & (1u8 << 1u8) != 0) == button_bit(b, 1u8)) by (bit_vector);
        b & (1 << 1) != 0
    }

    pub fn left(&self) -> (b: bool)
        ensures
            b == button_bit(self.buttons, 2u8),
    {
        let b = self.buttons;
        assert((b & (1u8 << 2u8) != 0) == button_bit(b, 2u8)) by (bit_vector);
        b & (1 << 2) != 0
    }

    pub fn right(&self) -> (b: bool)
        ensures
            b == button_bit(self.buttons, 3u8),
    {
        let b = self.buttons;
        assert((b & (1u8 << 3u8) != 0) == button_bit(b, 3u8)) by (bit_vector);
        b & (1 << 3) != 0
    }

    pub fn jump(&self) -> (b: bool)
        ensures
            b == button_bit(self.buttons, 4u8),
    {
        let b = self.buttons;
        assert((b & (1u8 << 4u8) != 0) == button_bit(b, 4u8)) by (bit_vector);
        b & (1 << 4) != 0
    }

    pub fn shoot(&self) -> (b: bool)
        ensures
            b == button_bit(self.buttons, 5u8),
    {
        let b = self.buttons;
        assert((b & (1u8 << 5u8) != 0) == button_bit(b, 5u8)) by (bit_vector);
        b & (1 << 5) != 0
    }
}

/// Server to all clients: a kill.
#[derive(Clone, Copy, Debug, PartialEq, Eq, Structural)]
pub struct KillMessage {
    pub killer_id: u64,
    pub victim_id: u64,
}

/// Server to a joining client: its network id.
#[derive(Clone, Copy, Debug, PartialEq, Eq, Structural)]
pub struct WelcomeMessage {
    pub your_id: u64,
}

/// Reliable ordered channel, for joins, leaves, kills and damage.
#[derive(Clone, Copy, Debug, PartialEq, Eq, Structural)]
pub struct GameChannel;

/// Unreliable channel, for position updates.
#[derive(Clone, Copy, Debug, PartialEq, Eq, Structural)]
pub struct PosChannel;

/// Client to server: the client announces itself on entering play.
pub struct JoinMsg {
    pub client_id: u64,
    pub username: String,
}

/// Client to server: its position and heading, about every 50 ms.
pub struct PosUpdateMsg<F> {
    pub pos: [F; 3],
    pub yaw: F,
}

/// Client to server: the client hit a remote player.
pub struct HitMsg<F> {
    pub killer_id: u64,
    pub victim_id: u64,
    pub damage: F,
}

/// Server to clients: a player is in the session, drawn in `color`.
pub struct PlayerJoinMsg<C> {
    pub client_id: u64,
    pub username: String,
    pub color: C,
}

/// Server to clients: a player disconnected.
#[derive(Clone, Copy, Debug, PartialEq, Eq, Structural)]
pub struct PlayerLeaveMsg {
    pub client_id: u64,
}

/// Server to clients: a position update of another client.
pub struct RelayedPosMsg<F> {
    pub client_id: u64,
    pub pos: [F; 3],
    pub yaw: F,
}

/// Server to one client: its new hit points.
pub struct TakeDamageMsg<F> {
    pub new_hp: F,
}

/// Server to clients: a confirmed kill.
#[derive(Clone, Copy, Debug, PartialEq, Eq, Structural)]
pub struct KillNotifyMsg {
    pub killer_id: u64,
    pub victim_id: u64,
}

/// Server to a client: the map archive to load.
pub struct MapUrlMsg {
    pub url: String,
}

} // verus!
