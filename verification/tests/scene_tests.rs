use rustshooter::fps_controller::{
    character_controller, insert_fully_keyed_fps_controller, setup, setup_game, setup_ground, setup_lighting,
    setup_player, setup_test_objects, LogicalPlayer, RenderPlayer, ResourceId, ScheduleLabel,
    Spawn, SteerKeys, SystemId, PLACEHOLDER_ENTITY,
};

#[test]
fn schedules() {
    let s = setup();
    assert_eq!(s.label, ScheduleLabel::Startup);
    assert_eq!(s.resources, vec![ResourceId::TargetCamera]);
    assert_eq!(
        s.systems,
        vec![
            SystemId::SetupLighting,
            SystemId::SetupGround,
            SystemId::SetupPlayer,
            SystemId::SetupTestObjects,
            SystemId::InsertFullyKeyedFpsController,
        ]
    );
    let g = setup_game();
    assert_eq!(g.label, ScheduleLabel::Update);
    assert!(g.resources.is_empty());
    assert_eq!(g.systems, vec![SystemId::Shoot]);
}

#[test]
fn spawned_entities() {
    assert_eq!(setup_lighting(), vec![Spawn::Lighting]);
    assert_eq!(setup_ground(), vec![Spawn::Ground]);
    assert_eq!(setup_player(), vec![Spawn::PlayerWithGun]);
    assert_eq!(
        insert_fully_keyed_fps_controller(),
        vec![
            Spawn::Logical(LogicalPlayer),
            Spawn::Render(RenderPlayer { logical_entity: PLACEHOLDER_ENTITY }),
        ]
    );
}

#[test]
fn target_grid_skips_the_centre() {
    let t = setup_test_objects();
    let mut expected = Vec::new();
    for x in -5..=5 {
        for z in -5..=5 {
            if x == 0 && z == 0 {
                continue;
            }
            expected.push(Spawn::Target { x, z });
        }
    }
    assert_eq!(t.len(), 120);
    assert_eq!(t, expected);
}

#[test]
fn steering() {
    let none = SteerKeys { w: false, s: false, a: false, d: false, arrow_up: false, arrow_down: false };
    assert_eq!(character_controller(none), (0, 0));
    assert_eq!(character_controller(SteerKeys { w: true, ..none }), (-1, 0));
    assert_eq!(character_controller(SteerKeys { arrow_up: true, w: true, ..none }), (-1, 0));
    assert_eq!(character_controller(SteerKeys { arrow_down: true, d: true, ..none }), (1, 1));
    assert_eq!(character_controller(SteerKeys { a: true, d: true, w: true, s: true, ..none }), (0, 0));
}
