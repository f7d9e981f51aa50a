//! The pistol: magazine, reloading and firing, and what a shot hits.
//! Times, rates and damage are of a type parameter `F`, compared outside.
use vstd::prelude::*;
use crate::scores::KillEvent;
use crate::text::{decimal, push_all, push_decimal, string_from};

verus! {

/// Weapon state on the local player.
pub struct Weapon<F> {
    pub ammo: u32,
    pub max_ammo: u32,
    /// Minimum time between consecutive shots.
    pub fire_rate: F,
    pub damage: F,
    /// The time at which the last shot was fired.
    pub last_fire_time: F,
    pub is_reloading: bool,
    /// Counts down from `reload_duration` to zero.
    pub reload_timer: F,
    pub reload_duration: F,
}

/// The outcome of pulling the trigger.
#[derive(Clone, Copy, Debug, PartialEq, Eq, Structural)]
pub enum FireOutcome {
    /// No shot: cursor free, reloading, trigger released, magazine empty or
    /// still cooling down.
    Held,
    /// A shot left the gun; `magazine_empty` tells whether it was the last
    /// round.
    Fired { magazine_empty: bool },
}

impl<F> Weapon<F> {
    /// The magazine never holds more than its capacity.
    pub open spec fn magazine_ok(&self) -> bool {
        self.ammo <= self.max_ammo
    }
}

impl<F: Copy> Weapon<F> {
    /// The pistol at spawn: a full magazine of 30 rounds, no reload
    /// running; `never_fired` is a time long before any shot and `zero` the
    /// reload timer's resting value.
    pub fn with_timings(fire_rate: F, damage: F, never_fired: F, zero: F, reload_duration: F) -> (w: Self)
        ensures
            w.ammo == 30,
            w.max_ammo == 30,
            w.fire_rate == fire_rate,
            w.damage == damage,
            w.last_fire_time == never_fired,
            !w.is_reloading,
            w.reload_timer == zero,
            w.reload_duration == reload_duration,
            w.magazine_ok(),
    {
        Weapon {
            ammo: 30,
            max_ammo: 30,
            fire_rate,
            damage,
            last_fire_time: never_fired,
            is_reloading: false,
            reload_timer: zero,
            reload_duration,
        }
    }

    /// R starts a reload when the magazine is not full and no reload is
    /// running: the reload timer is set to the reload duration. Whether a
    /// reload started.
    pub fn start_reload(&mut self, reload_just_pressed: bool) -> (started: bool)
        ensures
            started == (reload_just_pressed && !old(self).is_reloading && old(self).ammo < old(self).max_ammo),
            started ==> final(self).is_reloading && final(self).reload_timer == old(self).reload_duration,
            !started ==> final(self).is_reloading == old(self).is_reloading && final(self).reload_timer == old(self).reload_timer,
            final(self).ammo == old(self).ammo,
            final(self).max_ammo == old(self).max_ammo,
            final(self).last_fire_time == old(self).last_fire_time,
            final(self).fire_rate == old(self).fire_rate,
            final(self).damage == old(self).damage,
            final(self).reload_duration == old(self).reload_duration,
            old(self).magazine_ok() ==> final(self).magazine_ok(),
    {
        if reload_just_pressed && !self.is_reloading && self.ammo < self.max_ammo {
            self.is_reloading = true;
            self.reload_timer = self.reload_duration;
            true
        } else {
            false
        }
    }

    /// The reload timer ran out: the magazine is full again.
    pub fn finish_reload(&mut self)
        ensures
            final(self).ammo == old(self).max_ammo,
            !final(self).is_reloading,
            final(self).max_ammo == old(self).max_ammo,
            final(self).last_fire_time == old(self).last_fire_time,
            final(self).fire_rate == old(self).fire_rate,
            final(self).damage == old(self).damage,
            final(self).reload_duration == old(self).reload_duration,
            final(self).reload_timer == old(self).reload_timer,
            final(self).magazine_ok(),
    {
        self.ammo = self.max_ammo;
        self.is_reloading = false;
    }

    /// Pulling the trigger at time `now`: a shot is fired when the cursor
    /// is locked, no reload runs, the trigger is held, a round is left and
    /// `cooled_down` (at least `fire_rate` since the last shot). A shot
    /// takes one round and records `now`.
    pub fn try_fire(&mut self, cursor_locked: bool, trigger_held: bool, cooled_down: bool, now: F) -> (o: FireOutcome)
        ensures
            (cursor_locked && !old(self).is_reloading && trigger_held && old(self).ammo > 0
                && cooled_down) ==> {
                &&& final(self).ammo == old(self).ammo - 1
                &&& final(self).last_fire_time == now
                &&& o == (FireOutcome::Fired { magazine_empty: old(self).ammo == 1 })
            },
            !(cursor_locked && !old(self).is_reloading && trigger_held && old(self).ammo > 0
                && cooled_down) ==> {
                &&& o == FireOutcome::Held
                &&& final(self).ammo == old(self).ammo
                &&& final(self).last_fire_time == old(self).last_fire_time
            },
            final(self).max_ammo == old(self).max_ammo,
            final(self).is_reloading == old(self).is_reloading,
            final(self).fire_rate == old(self).fire_rate,
            final(self).damage == old(self).damage,
            final(self).reload_duration == old(self).reload_duration,
            final(self).reload_timer == old(self).reload_timer,
            old(self).magazine_ok() ==> final(self).magazine_ok(),
    {
        if !cursor_locked || self.is_reloading {
            return FireOutcome::Held;
        }
        if trigger_held && self.ammo > 0 && cooled_down {
            self.ammo = self.ammo - 1;
            self.last_fire_time = now;
            FireOutcome::Fired { magazine_empty: self.ammo == 0 }
        } else {
            FireOutcome::Held
        }
    }
}

/// The ammunition display, "ammo / max".
pub fn ammo_text<F>(w: &Weapon<F>) -> (s: String)
    ensures
        s@ == decimal(w.ammo as nat) + " / "@ + decimal(w.max_ammo as nat),
{
    let mut s = crate::text::decimal_string(w.ammo as u64);
    push_all(&mut s, " / ");
    push_decimal(&mut s, w.max_ammo as u64);
    s
}

/// The hit-point display, "HP: n".
pub fn health_text(hp: u32) -> (s: String)
    ensures
        s@ == "HP: "@ + decimal(hp as nat),
{
    let mut s = string_from("HP: ");
    push_decimal(&mut s, hp as u64);
    s
}

/// What a shot's ray hit.
#[derive(Clone, Copy, Debug, PartialEq, Eq, Structural)]
pub enum HitTarget {
    /// A remote player: the server is told, by client id.
    RemotePlayer(u64),
    /// A local entity with hit points: damage is applied here.
    Local,
    /// Anything else: only the impact is shown.
    Scenery,
}

/// Classifies a hit: a remote player takes precedence over a local entity
/// with hit points.
pub fn classify_hit(remote_client: Option<u64>, has_health: bool) -> (t: HitTarget)
    ensures
        remote_client matches Some(id) ==> t == HitTarget::RemotePlayer(id),
        remote_client is None && has_health ==> t == HitTarget::Local,
        remote_client is None && !has_health ==> t == HitTarget::Scenery,
{
    match remote_client {
        Some(id) => HitTarget::RemotePlayer(id),
        None => if has_health {
            HitTarget::Local
        } else {
            HitTarget::Scenery
        },
    }
}

/// The kill event for a kill by `shooter` of `victim`; a side that is not
/// a player counts as id 0.
pub fn kill_event_for(shooter: Option<u64>, victim: Option<u64>) -> (k: KillEvent)
    ensures
        k.killer_id == match shooter {
            Some(id) => id,
            None => 0,
        },
        k.victim_id == match victim {
            Some(id) => id,
            None => 0,
        },
{
    let killer_id = match shooter {
        Some(id) => id,
        None => 0,
    };
    let victim_id = match victim {
        Some(id) => id,
        None => 0,
    };
    KillEvent { killer_id, victim_id }
}

} // verus!
