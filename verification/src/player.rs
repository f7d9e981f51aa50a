//! The local player: identity, cursor capture, and the discrete part of
//! movement (which keys push which way, when a jump starts).
use vstd::prelude::*;

verus! {

/// Marks the entity driven by the local human player.
#[derive(Clone, Copy, Debug, PartialEq, Eq, Structural)]
pub struct LocalPlayer;

/// Player identification, used for scoring and networking.
#[derive(Clone, Copy, Debug, PartialEq, Eq, Structural)]
pub struct Player {
    pub id: u64,
}

/// Marks the camera that renders the player's view.
#[derive(Clone, Copy, Debug, PartialEq, Eq, Structural)]
pub struct PlayerCamera;

/// Render layer used only for the local player's weapon model.
pub const WEAPON_RENDER_LAYER: usize = 1;

/// The cursor's grab mode and visibility.
#[derive(Clone, Copy, Debug, PartialEq, Eq, Structural)]
pub struct CursorOptions {
    pub locked: bool,
    pub visible: bool,
}

/// Cursor handling for a frame: a left click on a visible cursor locks and
/// hides it and enables FPS input; otherwise Escape releases and shows it
/// and disables FPS input. The result is the new input setting for every
/// controller, or `None` when nothing changes.
pub fn manage_cursor(cursor: &mut CursorOptions, left_just_pressed: bool, escape_just_pressed: bool) -> (enable: Option<bool>)
    ensures
        left_just_pressed && old(cursor).visible ==> enable == Some(true) && final(cursor).locked
            && !final(cursor).visible,
        !(left_just_pressed && old(cursor).visible) && escape_just_pressed ==> enable == Some(false)
            && !final(cursor).locked && final(cursor).visible,
        !(left_just_pressed && old(cursor).visible) && !escape_just_pressed ==> (enable is None)
            && *final(cursor) == *old(cursor),
{
    if left_just_pressed && cursor.visible {
        cursor.locked = true;
        cursor.visible = false;
        return Some(true);
    }
    if escape_just_pressed {
        cursor.locked = false;
        cursor.visible = true;
        return Some(false);
    }
    None
}

/// Gameplay input is taken only while the cursor is locked away.
pub fn gameplay_active(cursor: &CursorOptions) -> (b: bool)
    ensures
        b == !cursor.visible,
{
    !cursor.visible
}

/// The movement keys held this frame.
#[derive(Clone, Copy, Debug, PartialEq, Eq, Structural)]
pub struct MoveKeys {
    pub forward: bool,
    pub back: bool,
    pub left: bool,
    pub right: bool,
}

/// The wish direction in the player's own frame before normalising:
/// `x` is -1 for left and +1 for right, `z` is -1 for forward and +1 for
/// back; opposite keys cancel.
pub fn wish_direction(keys: MoveKeys) -> (d: (i8, i8))
    ensures
        d.0 == (if keys.right { 1int } else { 0int }) - (if keys.left { 1int } else { 0int }),
        d.1 == (if keys.back { 1int } else { 0int }) - (if keys.forward { 1int } else { 0int }),
{
    let mut x: i8 = 0;
    let mut z: i8 = 0;
    if keys.forward {
        z = z - 1;
    }
    if keys.back {
        z = z + 1;
    }
    if keys.left {
        x = x - 1;
    }
    if keys.right {
        x = x + 1;
    }
    (x, z)
}

/// The vertical speed after a frame: a jump starts only from the ground
/// when Space was just pressed; otherwise the speed is kept.
pub fn vertical_velocity<F: Copy>(grounded: bool, jump_just_pressed: bool, jump_force: F, current: F) -> (v: F)
    ensures
        grounded && jump_just_pressed ==> v == jump_force,
        !(grounded && jump_just_pressed) ==> v == current,
{
    if grounded && jump_just_pressed {
        jump_force
    } else {
        current
    }
}

/// Ground and air movement differ: the ground value on the ground, the
/// air value in the air (used for target speed and acceleration).
pub fn ground_or_air<F: Copy>(grounded: bool, ground: F, air: F) -> (v: F)
    ensures
        v == if grounded { ground } else { air },
{
    if grounded {
        ground
    } else {
        air
    }
}

} // verus!
