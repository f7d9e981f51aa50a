use rustshooter::player::{
    gameplay_active, ground_or_air, manage_cursor, vertical_velocity, wish_direction,
    CursorOptions, MoveKeys, WEAPON_RENDER_LAYER,
};
use rustshooter::map_loader::SpawnPoints;
use rustshooter::protocol::PlayerInput;
use rustshooter::random::{generate_client_id, pick_spawn_point, spawn_point_at, spawn_index, u64_from_le_bytes};
use rustshooter::weapon::{
    ammo_text, classify_hit, health_text, kill_event_for, FireOutcome, HitTarget, Weapon,
};

fn pistol() -> Weapon<u32> {
    Weapon {
        ammo: 2,
        max_ammo: 12,
        fire_rate: 100,
        damage: 25,
        last_fire_time: 0,
        is_reloading: false,
        reload_timer: 0,
        reload_duration: 1500,
    }
}

#[test]
fn firing_takes_one_round_at_a_time() {
    let mut w = pistol();
    assert_eq!(w.try_fire(false, true, true, 10), FireOutcome::Held);
    assert_eq!(w.ammo, 2);
    assert_eq!(w.try_fire(true, false, true, 10), FireOutcome::Held);
    assert_eq!(w.try_fire(true, true, false, 10), FireOutcome::Held);
    assert_eq!(w.try_fire(true, true, true, 10), FireOutcome::Fired { magazine_empty: false });
    assert_eq!((w.ammo, w.last_fire_time), (1, 10));
    assert_eq!(w.try_fire(true, true, true, 20), FireOutcome::Fired { magazine_empty: true });
    assert_eq!(w.ammo, 0);
    assert_eq!(w.try_fire(true, true, true, 30), FireOutcome::Held);
    assert_eq!(w.last_fire_time, 20);
}

#[test]
fn reloading_refills_the_magazine() {
    let mut w = pistol();
    assert!(!w.start_reload(false));
    assert!(w.start_reload(true));
    assert!(w.is_reloading);
    assert_eq!(w.reload_timer, 1500);
    assert!(!w.start_reload(true));
    assert_eq!(w.try_fire(true, true, true, 5), FireOutcome::Held);
    w.finish_reload();
    assert_eq!(w.ammo, 12);
    assert!(!w.is_reloading);
    assert!(!w.start_reload(true));
    assert_eq!(ammo_text(&w), "12 / 12");
}

#[test]
fn hud_texts_and_hits() {
    assert_eq!(health_text(100), "HP: 100");
    assert_eq!(health_text(0), "HP: 0");
    assert_eq!(classify_hit(Some(4), true), HitTarget::RemotePlayer(4));
    assert_eq!(classify_hit(None, true), HitTarget::Local);
    assert_eq!(classify_hit(None, false), HitTarget::Scenery);
    let k = kill_event_for(Some(3), None);
    assert_eq!((k.killer_id, k.victim_id), (3, 0));
}

#[test]
fn cursor_grab_and_release() {
    let mut c = CursorOptions { locked: false, visible: true };
    assert!(!gameplay_active(&c));
    assert_eq!(manage_cursor(&mut c, true, false), Some(true));
    assert_eq!(c, CursorOptions { locked: true, visible: false });
    assert!(gameplay_active(&c));
    assert_eq!(manage_cursor(&mut c, true, false), None);
    assert_eq!(manage_cursor(&mut c, false, true), Some(false));
    assert_eq!(c, CursorOptions { locked: false, visible: true });
    assert_eq!(manage_cursor(&mut c, false, false), None);
    assert_eq!(c, CursorOptions { locked: false, visible: true });
    assert_eq!(WEAPON_RENDER_LAYER, 1);
}

#[test]
fn movement_directions() {
    let none = MoveKeys { forward: false, back: false, left: false, right: false };
    assert_eq!(wish_direction(none), (0, 0));
    assert_eq!(wish_direction(MoveKeys { forward: true, ..none }), (0, -1));
    assert_eq!(wish_direction(MoveKeys { back: true, right: true, ..none }), (1, 1));
    assert_eq!(
        wish_direction(MoveKeys { forward: true, back: true, left: true, right: true }),
        (0, 0)
    );
    assert_eq!(vertical_velocity(true, true, 7, -1), 7);
    assert_eq!(vertical_velocity(false, true, 7, -1), -1);
    assert_eq!(vertical_velocity(true, false, 7, 0), 0);
    assert_eq!(ground_or_air(true, 10, 3), 10);
    assert_eq!(ground_or_air(false, 10, 3), 3);
}

#[test]
fn packed_input_buttons() {
    let i = PlayerInput { buttons: 0b10_0101, yaw: 0, pitch: 0 };
    assert!(i.forward());
    assert!(!i.back());
    assert!(i.left());
    assert!(!i.right());
    assert!(!i.jump());
    assert!(i.shoot());
    let j = PlayerInput { buttons: 0b01_1010, yaw: 0, pitch: 0 };
    assert!(!j.forward() && j.back() && !j.left() && j.right() && j.jump() && !j.shoot());
}

#[test]
fn random_choices() {
    assert_eq!(u64_from_le_bytes([1, 0, 0, 0, 0, 0, 0, 0]), 1);
    assert_eq!(u64_from_le_bytes([0, 1, 0, 0, 0, 0, 0, 0x80]), 0x8000_0000_0000_0100);
    assert_eq!(u64_from_le_bytes([0xff; 8]), u64::MAX);
    assert_eq!(spawn_index(10, 4), 2);
    assert_eq!(spawn_index(u64::MAX, 1), 0);
    assert!(generate_client_id().is_some());
    let points = SpawnPoints(vec![5, 6, 7]);
    for _ in 0..20 {
        assert!(points.0.contains(&pick_spawn_point(&points, 0)));
    }
    assert_eq!(pick_spawn_point(&SpawnPoints(Vec::<i32>::new()), 42), 42);
    assert_eq!(spawn_point_at(&vec![5, 6, 7], 10), 6);
    assert_eq!(spawn_point_at(&vec![5, 6, 7], u64::MAX), 5);
}

#[test]
fn pistol_at_spawn() {
    let w = Weapon::with_timings(150u32, 25u32, 0u32, 0u32, 2000u32);
    assert_eq!((w.ammo, w.max_ammo), (30, 30));
    assert!(!w.is_reloading);
    assert_eq!((w.fire_rate, w.damage, w.reload_duration), (150, 25, 2000));
    assert_eq!(ammo_text(&w), "30 / 30");
}
