//! The first-person test scene: its marker components, the systems it
//! schedules, the grid of targets, and which way the keyboard pushes the
//! character.
use vstd::prelude::*;

verus! {

/// Marks the physics entity of the first-person controller.
#[derive(Clone, Copy, Debug, PartialEq, Eq, Structural)]
pub struct LogicalPlayer;

/// Stands for "no entity yet": the render entity's link before it is set.
pub const PLACEHOLDER_ENTITY: u64 = 0xFFFF_FFFF_FFFF_FFFF;

/// Marks the entity that renders the player; it follows `logical_entity`
/// (an entity id).
#[derive(Clone, Copy, Debug, PartialEq, Eq, Structural)]
pub struct RenderPlayer {
    pub logical_entity: u64,
}

/// A moving character; `V` is its velocity vector type.
pub struct Character<V> {
    pub velocity: V,
}

/// Marks characters steered by the keyboard.
#[derive(Clone, Copy, Debug, PartialEq, Eq, Structural)]
pub struct CharacterController;

/// Marks a shooting target of the test scene.
#[derive(Clone, Copy, Debug, PartialEq, Eq, Structural)]
pub struct Target;

/// Schedules of the app.
#[derive(Clone, Copy, Debug, PartialEq, Eq, Structural)]
pub enum ScheduleLabel {
    Startup,
    Update,
}

/// Systems of the test scene.
#[derive(Clone, Copy, Debug, PartialEq, Eq, Structural)]
pub enum SystemId {
    SetupLighting,
    SetupGround,
    SetupPlayer,
    SetupTestObjects,
    InsertFullyKeyedFpsController,
    Shoot,
}

/// Resources a schedule needs.
#[derive(Clone, Copy, Debug, PartialEq, Eq, Structural)]
pub enum ResourceId {
    TargetCamera,
}

/// A schedule: its label, the resources it initialises and its systems,
/// in order.
pub struct Schedule {
    pub label: ScheduleLabel,
    pub resources: Vec<ResourceId>,
    pub systems: Vec<SystemId>,
}

/// The startup schedule: the camera-target resource, then lighting,
/// ground, player, test objects and the first-person controller.
pub fn setup() -> (s: Schedule)
    ensures
        s.label == ScheduleLabel::Startup,
        s.resources@ == seq![ResourceId::TargetCamera],
        s.systems@ == seq![
            SystemId::SetupLighting,
            SystemId::SetupGround,
            SystemId::SetupPlayer,
            SystemId::SetupTestObjects,
            SystemId::InsertFullyKeyedFpsController,
        ],
{
    let mut resources: Vec<ResourceId> = Vec::new();
    resources.push(ResourceId::TargetCamera);
    let mut systems: Vec<SystemId> = Vec::new();
    systems.push(SystemId::SetupLighting);
    systems.push(SystemId::SetupGround);
    systems.push(SystemId::SetupPlayer);
    systems.push(SystemId::SetupTestObjects);
    systems.push(SystemId::InsertFullyKeyedFpsController);
    assert(systems@ =~= seq![
        SystemId::SetupLighting,
        SystemId::SetupGround,
        SystemId::SetupPlayer,
        SystemId::SetupTestObjects,
        SystemId::InsertFullyKeyedFpsController,
    ]);
    assert(resources@ =~= seq![ResourceId::TargetCamera]);
    Schedule { label: ScheduleLabel::Startup, resources, systems }
}

/// The per-frame schedule of the test scene: shooting.
pub fn setup_game() -> (s: Schedule)
    ensures
        s.label == ScheduleLabel::Update,
        s.resources@.len() == 0,
        s.systems@ == seq![SystemId::Shoot],
{
    let resources: Vec<ResourceId> = Vec::new();
    let mut systems: Vec<SystemId> = Vec::new();
    systems.push(SystemId::Shoot);
    assert(systems@ =~= seq![SystemId::Shoot]);
    Schedule { label: ScheduleLabel::Update, resources, systems }
}

/// The entities the startup systems spawn, as far as they are not
/// geometry: what each one is.
#[derive(Clone, Copy, Debug, PartialEq, Eq, Structural)]
pub enum Spawn {
    /// The ambient and point light above the scene.
    Lighting,
    /// The ground slab.
    Ground,
    /// The player with its gun.
    PlayerWithGun,
    /// A target at grid cell `(x, z)`.
    Target { x: i32, z: i32 },
    /// The physics entity of the first-person controller.
    Logical(LogicalPlayer),
    /// The render entity, linked to the given entity.
    Render(RenderPlayer),
}

/// One light entity.
pub fn setup_lighting() -> (s: Vec<Spawn>)
    ensures
        s@ == seq![Spawn::Lighting],
{
    let mut s: Vec<Spawn> = Vec::new();
    s.push(Spawn::Lighting);
    assert(s@ =~= seq![Spawn::Lighting]);
    s
}

/// The ground slab under the scene.
pub fn setup_ground() -> (s: Vec<Spawn>)
    ensures
        s@ == seq![Spawn::Ground],
{
    let mut s: Vec<Spawn> = Vec::new();
    s.push(Spawn::Ground);
    assert(s@ =~= seq![Spawn::Ground]);
    s
}

/// One player entity with its gun.
pub fn setup_player() -> (s: Vec<Spawn>)
    ensures
        s@ == seq![Spawn::PlayerWithGun],
{
    let mut s: Vec<Spawn> = Vec::new();
    s.push(Spawn::PlayerWithGun);
    assert(s@ =~= seq![Spawn::PlayerWithGun]);
    s
}

/// The test targets: one per cell of the 11 by 11 grid around the
/// origin, except the centre, in row order (x outer, z inner).
pub fn setup_test_objects() -> (s: Vec<Spawn>)
    ensures
        s@.len() == 120,
        forall|k: int|
            0 <= k < 120 ==> is_target_at(#[trigger] s@[k], test_cell(k)),
{
    let mut s: Vec<Spawn> = Vec::new();
    let mut x: i32 = -5;
    while x <= 5
        invariant
            -5 <= x <= 6,
            s@.len() == cells_before(x as int),
            forall|k: int|
                0 <= k < s@.len() ==> is_target_at(#[trigger] s@[k], test_cell(k)),
        decreases 6 - x,
    {
        let mut z: i32 = -5;
        while z <= 5
            invariant
                -5 <= x <= 5,
                -5 <= z <= 6,
                s@.len() == cells_before(x as int) + cells_in_row_before(x as int, z as int),
                forall|k: int|
                    0 <= k < s@.len() ==> is_target_at(#[trigger] s@[k], test_cell(k)),
            decreases 6 - z,
        {
            if !(x == 0 && z == 0) {
                proof {
                    lemma_test_cell(x as int, z as int);
                }
                s.push(Spawn::Target { x, z });
            }
            z = z + 1;
        }
        x = x + 1;
    }
    s
}

/// Whether `sp` is a target at grid cell `cell`.
pub open spec fn is_target_at(sp: Spawn, cell: (int, int)) -> bool {
    match sp {
        Spawn::Target { x, z } => (x as int, z as int) == cell,
        _ => false,
    }
}

/// Number of targets in the rows before `x`.
pub open spec fn cells_before(x: int) -> int {
    if x <= 0 {
        (x + 5) * 11
    } else {
        (x + 5) * 11 - 1
    }
}

/// Number of targets in row `x` before column `z`.
pub open spec fn cells_in_row_before(x: int, z: int) -> int {
    if x == 0 && z > 0 {
        z + 4
    } else {
        z + 5
    }
}

/// The cell of the `k`-th target.
pub open spec fn test_cell(k: int) -> (int, int) {
    if k < 55 {
        (k / 11 - 5, k % 11 - 5)
    } else if k < 60 {
        (0, k - 60)
    } else if k < 65 {
        (0, k - 59)
    } else {
        ((k + 1) / 11 - 5, (k + 1) % 11 - 5)
    }
}

proof fn lemma_test_cell(x: int, z: int)
    requires
        -5 <= x <= 5,
        -5 <= z <= 5,
        !(x == 0 && z == 0),
    ensures
        test_cell(cells_before(x) + cells_in_row_before(x, z)) == (x, z),
{
    let k = cells_before(x) + cells_in_row_before(x, z);
    if x < 0 {
        assert(k == (x + 5) * 11 + z + 5);
        assert(k < 55);
        assert(k / 11 == x + 5 && k % 11 == z + 5) by (nonlinear_arith)
            requires
                k == (x + 5) * 11 + z + 5,
                0 <= z + 5 < 11,
        ;
    } else if x == 0 {
        if z < 0 {
            assert(55 <= k < 60);
        } else {
            assert(60 <= k < 65);
        }
    } else {
        assert(k + 1 == (x + 5) * 11 + z + 5);
        assert(k >= 65);
        assert((k + 1) / 11 == x + 5 && (k + 1) % 11 == z + 5) by (nonlinear_arith)
            requires
                k + 1 == (x + 5) * 11 + z + 5,
                0 <= z + 5 < 11,
        ;
    }
}

/// The first-person controller: a physics entity, then a render entity
/// linked to the placeholder entity (it is linked to the physics entity
/// later).
pub fn insert_fully_keyed_fps_controller() -> (s: Vec<Spawn>)
    ensures
        s@ == seq![
            Spawn::Logical(LogicalPlayer),
            Spawn::Render(RenderPlayer { logical_entity: PLACEHOLDER_ENTITY }),
        ],
{
    let mut s: Vec<Spawn> = Vec::new();
    s.push(Spawn::Logical(LogicalPlayer));
    s.push(Spawn::Render(RenderPlayer { logical_entity: PLACEHOLDER_ENTITY }));
    assert(s@ =~= seq![
        Spawn::Logical(LogicalPlayer),
        Spawn::Render(RenderPlayer { logical_entity: PLACEHOLDER_ENTITY }),
    ]);
    s
}

/// The keys that steer a character.
#[derive(Clone, Copy, Debug, PartialEq, Eq, Structural)]
pub struct SteerKeys {
    pub w: bool,
    pub s: bool,
    pub a: bool,
    pub d: bool,
    pub arrow_up: bool,
    pub arrow_down: bool,
}

/// How the keyboard pushes a character, in units of its transform's
/// forward and right vectors: W or ArrowUp subtract forward, S or
/// ArrowDown add it, A subtracts right, D adds it.
pub fn character_controller(keys: SteerKeys) -> (d: (i8, i8))
    ensures
        d.0 == (if keys.s || keys.arrow_down { 1int } else { 0int }) - (if keys.w
            || keys.arrow_up { 1int } else { 0int }),
        d.1 == (if keys.d { 1int } else { 0int }) - (if keys.a { 1int } else { 0int }),
{
    let mut forward: i8 = 0;
    let mut right: i8 = 0;
    if keys.w || keys.arrow_up {
        forward = forward - 1;
    }
    if keys.s || keys.arrow_down {
        forward = forward + 1;
    }
    if keys.a {
        right = right - 1;
    }
    if keys.d {
        right = right + 1;
    }
    (forward, right)
}

} // verus!
