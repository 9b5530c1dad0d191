use canary::ecs::entity::{ComponentId, Entity, Tick};
use canary::ecs::error::EcsError;
use canary::ecs::world::World;

#[derive(Debug, Clone, Copy, PartialEq)]
enum C {
    Position { x: f32, y: f32 },
    Velocity { dx: f32, dy: f32 },
    Health { hp: f32 },
}

const POSITION: ComponentId = ComponentId(1);
const VELOCITY: ComponentId = ComponentId(2);
const HEALTH: ComponentId = ComponentId(3);
const SHIELD: ComponentId = ComponentId(4);

fn position(x: f32, y: f32) -> C {
    C::Position { x, y }
}

fn velocity(dx: f32, dy: f32) -> C {
    C::Velocity { dx, dy }
}

/// Adds a velocity to a position, as the movement systems in these tests
/// do through `query2_mut`.
fn moved(p: &C, v: &C) -> C {
    match (p, v) {
        (C::Position { x, y }, C::Velocity { dx, dy }) => C::Position { x: x + dx, y: y + dy },
        _ => *p,
    }
}

fn entities(found: Vec<(Entity, &C)>) -> Vec<Entity> {
    found.into_iter().map(|(e, _)| e).collect()
}

#[test]
fn components_round_trip_through_insert_get_and_remove() {
    let mut world = World::new();
    let entity = world.spawn();

    assert!(world.get(entity, POSITION).is_none());

    world.insert(entity, POSITION, position(1.0, 2.0)).unwrap();
    assert_eq!(world.get(entity, POSITION), Some(&position(1.0, 2.0)));

    if let Some(C::Position { x, .. }) = world.get_mut(entity, POSITION) {
        *x = 5.0;
    }
    assert_eq!(world.get(entity, POSITION), Some(&position(5.0, 2.0)));

    let removed = world.remove(entity, POSITION);
    assert_eq!(removed, Some(position(5.0, 2.0)));
    assert!(world.get(entity, POSITION).is_none());
}

#[test]
fn query_only_returns_alive_entities_with_the_component() {
    let mut world = World::new();

    let with_position = world.spawn();
    world.insert(with_position, POSITION, position(0.0, 0.0)).unwrap();

    let without_position = world.spawn();
    world.insert(without_position, VELOCITY, velocity(1.0, 1.0)).unwrap();

    let despawned_with_position = world.spawn();
    world.insert(despawned_with_position, POSITION, position(9.0, 9.0)).unwrap();
    world.despawn(despawned_with_position).unwrap();

    let found = entities(world.query(POSITION));
    assert_eq!(found, vec![with_position]);
}

#[test]
fn despawn_removes_all_components_and_frees_the_slot() {
    let mut world = World::new();
    let entity = world.spawn();
    world.insert(entity, POSITION, position(1.0, 1.0)).unwrap();

    world.despawn(entity).unwrap();

    assert!(!world.is_alive(entity));
    assert_eq!(world.get(entity, POSITION), None);
    assert_eq!(
        world.despawn(entity),
        Err(EcsError::StaleOrUnknownEntity),
        "despawning an already-despawned entity should error, not panic"
    );
}

#[test]
fn a_recycled_slot_does_not_alias_the_old_handle() {
    let mut world: World<C> = World::new();
    let first = world.spawn();
    world.despawn(first).unwrap();

    let second = world.spawn();

    assert_eq!(first.index(), second.index());
    assert_ne!(first.generation(), second.generation());
    assert!(!world.is_alive(first));
    assert!(world.is_alive(second));
}

#[test]
fn insert_into_a_new_archetype_preserves_other_components() {
    let mut world = World::new();
    let entity = world.spawn();
    world.insert(entity, POSITION, position(1.0, 2.0)).unwrap();
    world.insert(entity, VELOCITY, velocity(3.0, 4.0)).unwrap();

    assert_eq!(world.get(entity, POSITION), Some(&position(1.0, 2.0)));
    assert_eq!(world.get(entity, VELOCITY), Some(&velocity(3.0, 4.0)));
}

#[test]
fn inserting_an_already_present_component_type_overwrites_in_place() {
    let mut world = World::new();
    let entity = world.spawn();
    world.insert(entity, POSITION, position(1.0, 1.0)).unwrap();
    world.insert(entity, POSITION, position(9.0, 9.0)).unwrap();

    assert_eq!(world.get(entity, POSITION), Some(&position(9.0, 9.0)));
}

#[test]
fn remove_moves_entity_to_a_smaller_archetype_and_preserves_remaining_components() {
    let mut world = World::new();
    let entity = world.spawn();
    world.insert(entity, POSITION, position(1.0, 2.0)).unwrap();
    world.insert(entity, VELOCITY, velocity(3.0, 4.0)).unwrap();

    let removed = world.remove(entity, VELOCITY);

    assert_eq!(removed, Some(velocity(3.0, 4.0)));
    assert_eq!(world.get(entity, POSITION), Some(&position(1.0, 2.0)));
    assert_eq!(world.get(entity, VELOCITY), None);
}

#[test]
fn removing_an_absent_component_type_returns_none_and_does_not_move_the_entity() {
    let mut world = World::new();
    let entity = world.spawn();
    world.insert(entity, POSITION, position(1.0, 1.0)).unwrap();

    assert_eq!(world.remove(entity, VELOCITY), None);
    assert_eq!(world.get(entity, POSITION), Some(&position(1.0, 1.0)));
}

#[test]
fn removing_from_a_stale_entity_returns_none_like_an_absent_component() {
    let mut world = World::new();
    let entity = world.spawn();
    world.insert(entity, POSITION, position(1.0, 1.0)).unwrap();
    world.despawn(entity).unwrap();

    assert!(!world.is_alive(entity));
    assert_eq!(world.remove(entity, POSITION), None);
}

#[test]
fn query_spans_multiple_archetypes() {
    let mut world = World::new();

    let just_position = world.spawn();
    world.insert(just_position, POSITION, position(1.0, 1.0)).unwrap();

    let both = world.spawn();
    world.insert(both, POSITION, position(2.0, 2.0)).unwrap();
    world.insert(both, VELOCITY, velocity(0.0, 0.0)).unwrap();

    let just_velocity = world.spawn();
    world.insert(just_velocity, VELOCITY, velocity(9.0, 9.0)).unwrap();

    let mut found = entities(world.query(POSITION));
    found.sort_by_key(|e| e.index());
    let mut expected = vec![just_position, both];
    expected.sort_by_key(|e| e.index());
    assert_eq!(found, expected);
}

#[test]
fn query2_only_returns_entities_with_both_components() {
    let mut world = World::new();

    let just_position = world.spawn();
    world.insert(just_position, POSITION, position(1.0, 1.0)).unwrap();

    let both = world.spawn();
    world.insert(both, POSITION, position(2.0, 2.0)).unwrap();
    world.insert(both, VELOCITY, velocity(3.0, 3.0)).unwrap();

    let just_velocity = world.spawn();
    world.insert(just_velocity, VELOCITY, velocity(9.0, 9.0)).unwrap();

    let found: Vec<(Entity, C, C)> =
        world.query2(POSITION, VELOCITY).into_iter().map(|(e, p, v)| (e, *p, *v)).collect();

    assert_eq!(found, vec![(both, position(2.0, 2.0), velocity(3.0, 3.0))]);
}

#[test]
fn query2_is_order_independent_in_the_type_parameters() {
    let mut world = World::new();
    let e = world.spawn();
    world.insert(e, POSITION, position(1.0, 2.0)).unwrap();
    world.insert(e, VELOCITY, velocity(3.0, 4.0)).unwrap();

    let a: Vec<Entity> = world.query2(POSITION, VELOCITY).into_iter().map(|(e, _, _)| e).collect();
    let b: Vec<Entity> = world.query2(VELOCITY, POSITION).into_iter().map(|(e, _, _)| e).collect();
    assert_eq!(a, vec![e]);
    assert_eq!(b, vec![e]);
}

#[test]
fn query3_is_order_independent_in_the_type_parameters() {
    let mut world = World::new();
    let e = world.spawn();
    world.insert(e, POSITION, position(1.0, 2.0)).unwrap();
    world.insert(e, VELOCITY, velocity(3.0, 4.0)).unwrap();
    world.insert(e, HEALTH, C::Health { hp: 100.0 }).unwrap();

    let a: Vec<Entity> =
        world.query3(POSITION, VELOCITY, HEALTH).into_iter().map(|(e, _, _, _)| e).collect();
    let b: Vec<Entity> =
        world.query3(HEALTH, VELOCITY, POSITION).into_iter().map(|(e, _, _, _)| e).collect();
    assert_eq!(a, vec![e]);
    assert_eq!(b, vec![e]);
}

#[test]
fn entity_count_tracks_spawns_and_despawns() {
    let mut world: World<C> = World::new();
    assert_eq!(world.entity_count(), 0);
    let a = world.spawn();
    let b = world.spawn();
    assert_eq!(world.entity_count(), 2);
    world.despawn(a).unwrap();
    assert_eq!(world.entity_count(), 1);
    world.despawn(b).unwrap();
    assert_eq!(world.entity_count(), 0);
    let _ = world.spawn();
    assert_eq!(world.entity_count(), 1);
}

#[test]
fn merely_calling_query2_mut_dirties_matched_rows() {
    let mut world = World::new();
    let entity = world.spawn();
    world.insert(entity, POSITION, position(1.0, 1.0)).unwrap();
    world.insert(entity, VELOCITY, velocity(1.0, 1.0)).unwrap();
    world.advance_tick();
    let baseline = world.change_tick();
    world.advance_tick();

    world.query2_mut(POSITION, VELOCITY, |_, p, _| *p);

    let changed = entities(world.query_changed_since(POSITION, baseline));
    assert_eq!(changed, vec![entity], "a query2_mut call must dirty ticks even when nothing changes");
}

#[test]
fn query3_requires_all_three_components() {
    let mut world = World::new();

    let all_three = world.spawn();
    world.insert(all_three, POSITION, position(1.0, 1.0)).unwrap();
    world.insert(all_three, VELOCITY, velocity(2.0, 2.0)).unwrap();
    world.insert(all_three, HEALTH, C::Health { hp: 100.0 }).unwrap();

    let missing_health = world.spawn();
    world.insert(missing_health, POSITION, position(9.0, 9.0)).unwrap();
    world.insert(missing_health, VELOCITY, velocity(9.0, 9.0)).unwrap();

    let found: Vec<Entity> =
        world.query3(POSITION, VELOCITY, HEALTH).into_iter().map(|(e, _, _, _)| e).collect();
    assert_eq!(found, vec![all_three]);
}

#[test]
fn query2_mut_writes_through_and_leaves_the_shared_component_untouched() {
    let mut world = World::new();

    let both = world.spawn();
    world.insert(both, POSITION, position(0.0, 0.0)).unwrap();
    world.insert(both, VELOCITY, velocity(1.0, 2.0)).unwrap();

    let just_position = world.spawn();
    world.insert(just_position, POSITION, position(5.0, 5.0)).unwrap();

    world.query2_mut(POSITION, VELOCITY, |_, p, v| moved(p, v));

    assert_eq!(world.get(both, POSITION), Some(&position(1.0, 2.0)));
    assert_eq!(world.get(both, VELOCITY), Some(&velocity(1.0, 2.0)));
    assert_eq!(world.get(just_position, POSITION), Some(&position(5.0, 5.0)));
}

#[test]
fn query2_mut_marks_only_the_mutable_component_as_changed() {
    let mut world = World::new();
    let e = world.spawn();
    world.insert(e, POSITION, position(0.0, 0.0)).unwrap();
    world.insert(e, VELOCITY, velocity(1.0, 1.0)).unwrap();

    let since = world.change_tick();
    world.advance_tick();

    world.query2_mut(POSITION, VELOCITY, |_, p, _| match p {
        C::Position { x, y } => C::Position { x: x + 1.0, y: *y },
        other => *other,
    });

    let position_changed = world.query_changed_since(POSITION, since).iter().any(|(entity, _)| *entity == e);
    let velocity_changed = world.query_changed_since(VELOCITY, since).iter().any(|(entity, _)| *entity == e);
    assert!(position_changed);
    assert!(!velocity_changed);
}

#[test]
fn query2_mut_spans_multiple_archetypes() {
    let mut world = World::new();

    let e1 = world.spawn();
    world.insert(e1, POSITION, position(0.0, 0.0)).unwrap();
    world.insert(e1, VELOCITY, velocity(1.0, 0.0)).unwrap();

    let e2 = world.spawn();
    world.insert(e2, POSITION, position(0.0, 0.0)).unwrap();
    world.insert(e2, VELOCITY, velocity(2.0, 0.0)).unwrap();
    world.insert(e2, HEALTH, C::Health { hp: 50.0 }).unwrap();

    world.query2_mut(POSITION, VELOCITY, |_, p, v| moved(p, v));

    assert_eq!(world.get(e1, POSITION), Some(&position(1.0, 0.0)));
    assert_eq!(world.get(e2, POSITION), Some(&position(2.0, 0.0)));
}

#[test]
fn archetype_transition_fixes_up_the_swapped_entitys_location() {
    let mut world = World::new();

    let e0 = world.spawn();
    world.insert(e0, POSITION, position(0.0, 0.0)).unwrap();
    let e1 = world.spawn();
    world.insert(e1, POSITION, position(1.0, 0.0)).unwrap();
    let e2 = world.spawn();
    world.insert(e2, POSITION, position(2.0, 0.0)).unwrap();

    world.insert(e0, VELOCITY, velocity(9.0, 9.0)).unwrap();

    assert_eq!(world.get(e0, POSITION), Some(&position(0.0, 0.0)));
    assert_eq!(world.get(e0, VELOCITY), Some(&velocity(9.0, 9.0)));
    assert_eq!(world.get(e1, POSITION), Some(&position(1.0, 0.0)));
    assert_eq!(world.get(e2, POSITION), Some(&position(2.0, 0.0)));
}

#[test]
fn despawn_fixes_up_the_swapped_entitys_location() {
    let mut world = World::new();

    let e0 = world.spawn();
    world.insert(e0, POSITION, position(0.0, 0.0)).unwrap();
    let e1 = world.spawn();
    world.insert(e1, POSITION, position(1.0, 0.0)).unwrap();
    let e2 = world.spawn();
    world.insert(e2, POSITION, position(2.0, 0.0)).unwrap();

    world.despawn(e0).unwrap();

    assert!(!world.is_alive(e0));
    assert_eq!(world.get(e1, POSITION), Some(&position(1.0, 0.0)));
    assert_eq!(world.get(e2, POSITION), Some(&position(2.0, 0.0)));
}

#[test]
fn get_mut_marks_the_component_as_changed() {
    let mut world = World::new();
    let entity = world.spawn();
    world.insert(entity, POSITION, position(0.0, 0.0)).unwrap();

    let before_mutation = world.change_tick();
    world.advance_tick();
    if let Some(C::Position { x, .. }) = world.get_mut(entity, POSITION) {
        *x = 5.0;
    }
    let after_mutation = world.change_tick();

    let changed_since_before = entities(world.query_changed_since(POSITION, before_mutation));
    assert_eq!(changed_since_before, vec![entity]);

    let changed_since_after = entities(world.query_changed_since(POSITION, after_mutation));
    assert!(changed_since_after.is_empty());
}

#[test]
fn moving_to_a_new_archetype_preserves_an_untouched_components_change_tick() {
    let mut world = World::new();
    let entity = world.spawn();
    world.insert(entity, POSITION, position(0.0, 0.0)).unwrap();
    let position_written_at = world.change_tick();

    world.advance_tick();
    world.insert(entity, VELOCITY, velocity(1.0, 1.0)).unwrap();

    let changed = entities(world.query_changed_since(POSITION, position_written_at));
    assert!(
        changed.is_empty(),
        "moving archetypes because of an unrelated Velocity insert must not mark Position as freshly changed"
    );
}

#[test]
fn from_raw_parts_round_trips_a_real_entity_and_safely_rejects_a_mismatched_one() {
    let mut world = World::new();
    let entity = world.spawn();
    world.insert(entity, POSITION, position(1.0, 1.0)).unwrap();

    let reconstructed = Entity::from_raw_parts(entity.index(), entity.generation());
    assert_eq!(reconstructed, entity);
    assert!(world.is_alive(reconstructed));
    assert_eq!(world.get(reconstructed, POSITION), Some(&position(1.0, 1.0)));

    let forged = Entity::from_raw_parts(entity.index(), entity.generation().wrapping_add(1));
    assert!(!world.is_alive(forged));
    assert_eq!(world.get(forged, POSITION), None);
}

#[test]
fn get_erased_and_set_erased_round_trip_through_a_real_type_id() {
    let mut world = World::new();
    let entity = world.spawn();
    world.insert(entity, POSITION, position(1.0, 2.0)).unwrap();

    let read_back = world.get_erased(entity, POSITION).copied();
    assert_eq!(read_back, Some(position(1.0, 2.0)));

    let overwrote = world.set_erased(entity, POSITION, position(9.0, 9.0));
    assert!(overwrote);
    assert_eq!(
        world.get(entity, POSITION),
        Some(&position(9.0, 9.0)),
        "set_erased should be visible through the ordinary get too"
    );
}

#[test]
fn get_erased_returns_none_for_a_component_type_the_entity_lacks() {
    let mut world = World::new();
    let entity = world.spawn();
    world.insert(entity, POSITION, position(1.0, 1.0)).unwrap();

    assert!(world.get_erased(entity, VELOCITY).is_none());
}

#[test]
fn set_erased_returns_false_and_changes_nothing_for_a_component_type_the_entity_lacks() {
    let mut world = World::new();
    let entity = world.spawn();
    world.insert(entity, POSITION, position(1.0, 1.0)).unwrap();

    let changed = world.set_erased(entity, VELOCITY, velocity(1.0, 1.0));

    assert!(!changed, "set_erased must not insert a new component kind");
    assert!(world.get(entity, VELOCITY).is_none());
    assert_eq!(
        world.get(entity, POSITION),
        Some(&position(1.0, 1.0)),
        "the failed set_erased attempt must not have disturbed Position either"
    );
}

#[test]
fn has_component_erased_matches_real_component_presence() {
    let mut world = World::new();
    let entity = world.spawn();
    world.insert(entity, POSITION, position(0.0, 0.0)).unwrap();

    assert!(world.has_component_erased(entity, POSITION));
    assert!(!world.has_component_erased(entity, VELOCITY));
}

#[test]
fn set_erased_marks_the_component_as_changed() {
    let mut world = World::new();
    let entity = world.spawn();
    world.insert(entity, POSITION, position(0.0, 0.0)).unwrap();

    let baseline = world.change_tick();
    world.advance_tick();
    world.set_erased(entity, POSITION, position(5.0, 5.0));

    let changed = entities(world.query_changed_since(POSITION, baseline));
    assert_eq!(changed, vec![entity]);
}

#[test]
fn register_component_resolves_schema_id_to_type_id() {
    let mut world: World<C> = World::new();
    world.register_component("canary-ecs-tests:health@1", HEALTH).unwrap();

    assert_eq!(world.type_id_for_schema("canary-ecs-tests:health@1"), Some(HEALTH));
    assert_eq!(world.type_id_for_schema("no-such-schema"), None);
}

#[test]
fn registering_a_different_type_under_the_same_schema_id_errors() {
    let mut world: World<C> = World::new();
    world.register_component("canary-ecs-tests:health@1", HEALTH).unwrap();

    assert_eq!(
        world.register_component("canary-ecs-tests:health@1", SHIELD),
        Err(EcsError::DuplicateSchemaId("canary-ecs-tests:health@1"))
    );
}

#[test]
fn registering_the_same_type_twice_is_idempotent() {
    let mut world: World<C> = World::new();
    world.register_component("canary-ecs-tests:health@1", HEALTH).unwrap();
    assert_eq!(world.register_component("canary-ecs-tests:health@1", HEALTH), Ok(()));
}

#[derive(Debug, Clone, Copy, PartialEq)]
enum R {
    FrameCount(u64),
    GravityConstant(f32),
}

const FRAME_COUNT: ComponentId = ComponentId(10);
const GRAVITY_CONSTANT: ComponentId = ComponentId(11);

#[test]
fn resources_round_trip_through_insert_get_and_remove() {
    let mut world = World::new();

    assert!(world.resource(FRAME_COUNT).is_none());
    assert!(!world.contains_resource(FRAME_COUNT));

    world.insert_resource(FRAME_COUNT, R::FrameCount(0));
    assert!(world.contains_resource(FRAME_COUNT));
    assert_eq!(world.resource(FRAME_COUNT), Some(&R::FrameCount(0)));

    if let Some(R::FrameCount(n)) = world.resource_mut(FRAME_COUNT) {
        *n = 5;
    }
    assert_eq!(world.resource(FRAME_COUNT), Some(&R::FrameCount(5)));

    assert_eq!(world.remove_resource(FRAME_COUNT), Some(R::FrameCount(5)));
    assert!(world.resource(FRAME_COUNT).is_none());
}

#[test]
fn inserting_a_resource_of_an_already_present_type_overwrites() {
    let mut world = World::new();
    world.insert_resource(GRAVITY_CONSTANT, R::GravityConstant(9.8));
    world.insert_resource(GRAVITY_CONSTANT, R::GravityConstant(3.7));
    assert_eq!(world.resource(GRAVITY_CONSTANT), Some(&R::GravityConstant(3.7)));
}

#[test]
fn distinct_resource_types_do_not_interfere() {
    let mut world = World::new();
    world.insert_resource(FRAME_COUNT, R::FrameCount(1));
    world.insert_resource(GRAVITY_CONSTANT, R::GravityConstant(9.8));

    assert_eq!(world.resource(FRAME_COUNT), Some(&R::FrameCount(1)));
    assert_eq!(world.resource(GRAVITY_CONSTANT), Some(&R::GravityConstant(9.8)));

    world.remove_resource(FRAME_COUNT);
    assert!(world.resource(FRAME_COUNT).is_none());
    assert_eq!(world.resource(GRAVITY_CONSTANT), Some(&R::GravityConstant(9.8)));
}

#[test]
fn resource_mut_marks_the_resource_as_changed() {
    let mut world = World::new();
    world.insert_resource(FRAME_COUNT, R::FrameCount(0));

    let since = world.change_tick();
    assert!(!world.resource_changed_since(FRAME_COUNT, since));

    world.advance_tick();
    if let Some(R::FrameCount(n)) = world.resource_mut(FRAME_COUNT) {
        *n += 1;
    }
    assert!(world.resource_changed_since(FRAME_COUNT, since));
}

#[test]
fn resource_changed_since_is_false_for_a_resource_that_was_never_inserted() {
    let world: World<R> = World::new();
    assert!(!world.resource_changed_since(FRAME_COUNT, Tick::default()));
}

// ---------------------------------------------------------------------------
// Further checks of the laws on concrete values
// ---------------------------------------------------------------------------

#[test]
fn despawned_entities_never_alias_a_later_spawn() {
    for spawn_count in [1usize, 2, 7, 63] {
        let mut world: World<C> = World::new();
        let first: Vec<Entity> = (0..spawn_count).map(|_| world.spawn()).collect();
        for &e in &first {
            world.despawn(e).unwrap();
        }
        let respawned: Vec<Entity> = (0..spawn_count).map(|_| world.spawn()).collect();
        for &old in &first {
            assert!(!world.is_alive(old));
        }
        for &new in &respawned {
            assert!(world.is_alive(new));
        }
    }
}

#[test]
fn tick_starts_at_zero_and_advances_by_one() {
    let mut world: World<C> = World::new();
    assert_eq!(world.change_tick().value(), 0);
    world.advance_tick();
    world.advance_tick();
    assert_eq!(world.change_tick().value(), 2);
    assert!(world.change_tick().is_after(Tick::default()));
}

#[test]
fn insert_on_a_stale_entity_is_refused_and_changes_nothing() {
    let mut world = World::new();
    let entity = world.spawn();
    world.despawn(entity).unwrap();
    assert_eq!(world.insert(entity, POSITION, position(1.0, 1.0)), Err(EcsError::StaleOrUnknownEntity));
    assert!(world.query(POSITION).is_empty());
}

#[test]
fn default_world_is_empty() {
    let world: World<C> = World::default();
    assert_eq!(world.entity_count(), 0);
    assert_eq!(world.change_tick().value(), 0);
    assert!(world.type_id_for_schema("anything").is_none());
}

#[test]
fn entity_and_error_render_as_documented() {
    let e = Entity::from_raw_parts(3, 12);
    assert_eq!(e.to_text(), "Entity(3v12)");
    assert_eq!(
        EcsError::DuplicateSchemaId("a:b@1").message(),
        "schema id \"a:b@1\" is already registered to a different component type"
    );
    assert_eq!(
        EcsError::StaleOrUnknownEntity.message(),
        "entity is stale (despawned) or was never spawned in this World"
    );
    assert_eq!(EcsError::HierarchyCycle.message(), "parent assignment would create a hierarchy cycle");
}

/// A small deterministic generator standing in for randomized operation
/// sequences.
struct Lcg(u64);

impl Lcg {
    fn next(&mut self, bound: u64) -> u64 {
        self.0 = self.0.wrapping_mul(6364136223846793005).wrapping_add(1442695040888963407);
        (self.0 >> 33) % bound
    }
}

#[test]
fn components_round_trip_through_arbitrary_insert_remove_sequences() {
    for seed in 0..40u64 {
        let mut rng = Lcg(seed);
        let mut world = World::new();
        let mut entities: Vec<Entity> = Vec::new();
        let mut expected_position: Vec<bool> = Vec::new();
        let mut expected_velocity: Vec<bool> = Vec::new();
        let steps = 1 + rng.next(60);
        for _ in 0..steps {
            let op = rng.next(6);
            let i = rng.next(8) as usize;
            match op {
                0 => {
                    entities.push(world.spawn());
                    expected_position.push(false);
                    expected_velocity.push(false);
                }
                1 => {
                    if let Some(&e) = entities.get(i) {
                        if world.insert(e, POSITION, position(i as f32, 0.0)).is_ok() {
                            expected_position[i] = true;
                        }
                    }
                }
                2 => {
                    if let Some(&e) = entities.get(i) {
                        if world.insert(e, VELOCITY, velocity(i as f32, 0.0)).is_ok() {
                            expected_velocity[i] = true;
                        }
                    }
                }
                3 => {
                    if let Some(&e) = entities.get(i) {
                        world.remove(e, POSITION);
                        expected_position[i] = false;
                    }
                }
                4 => {
                    if let Some(&e) = entities.get(i) {
                        world.remove(e, VELOCITY);
                        expected_velocity[i] = false;
                    }
                }
                _ => {
                    if let Some(&e) = entities.get(i) {
                        let _ = world.despawn(e);
                    }
                }
            }
        }
        for (i, &e) in entities.iter().enumerate() {
            if world.is_alive(e) {
                assert_eq!(world.get(e, POSITION).is_some(), expected_position[i]);
                assert_eq!(world.get(e, VELOCITY).is_some(), expected_velocity[i]);
            } else {
                assert!(world.get(e, POSITION).is_none());
                assert!(world.get(e, VELOCITY).is_none());
            }
        }
    }
}

fn assert_send_sync<T: Send + Sync>() {}

#[test]
fn world_is_send_and_sync() {
    assert_send_sync::<World<C>>();
}
