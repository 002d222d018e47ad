use engine::ecs::entities::EntityTable;
use engine::ecs::store::Store;
use engine::ecs::types::EcsError;
use engine::ecs::world::World;

const A: usize = 0;
const B: usize = 1;

/// A world of two component types in which entity 1 holds A and B, entity 2
/// holds A and entity 3 holds B. Entity 0 holds nothing.
fn sample() -> World<&'static str> {
    let mut world = World::create(2);
    for expected in 0..4 {
        let e = world.create_entity();
        assert_eq!(e, expected);
        world.attach(A, e, false, "for now").unwrap();
    }
    for e in 0..4 {
        world.remove(A, e);
    }
    world.attach(A, 1, false, "a1").unwrap();
    world.attach(B, 1, false, "b1").unwrap();
    world.attach(A, 2, false, "a2").unwrap();
    world.attach(B, 3, false, "b3").unwrap();
    world
}

#[test]
fn a_new_world_is_empty() {
    let world = World::<u8>::create(3);
    assert_eq!(world.type_count(), 3);
    assert_eq!(world.stat(), (0, 0));
    assert_eq!(world.live_count(0), None);
    assert!(!world.has(0, 0));
}

#[test]
fn entities_are_numbered_from_zero() {
    let mut world = World::<u8>::create(1);
    let first = world.create_entity();
    assert_eq!(first, 0);
    assert_eq!(world.live_count(first), Some(0));
    world.attach(0, first, false, 1).unwrap();
    assert_eq!(world.create_entity(), 1);
    assert_eq!(world.stat(), (2, 1));
}

#[test]
fn an_entity_without_components_is_handed_out_again() {
    let mut world = World::<u8>::create(1);
    assert_eq!(world.create_entity(), 0);
    assert_eq!(world.create_entity(), 0);
    assert_eq!(world.stat(), (1, 0));
}

#[test]
fn entity_reuse_returns_the_freed_entity() {
    let mut world = World::<u32>::create(2);
    for n in 0..5u32 {
        let e = world.create_entity();
        assert_eq!(e, n as usize);
        world.attach(0, e, false, n).unwrap();
        world.attach(1, e, false, n + 100).unwrap();
    }
    world.remove(0, 2);
    assert_eq!(world.live_count(2), Some(1));
    assert_eq!(world.create_entity(), 5);
    world.attach(0, 5, false, 50).unwrap();
    world.remove(1, 2);
    assert_eq!(world.live_count(2), Some(0));
    assert_eq!(world.create_entity(), 2);
    assert_eq!(world.stat().0, 6);
}

#[test]
fn the_lowest_free_entity_comes_first() {
    let mut world = World::<u8>::create(1);
    for _ in 0..4 {
        let e = world.create_entity();
        world.attach(0, e, false, 0).unwrap();
    }
    world.remove(0, 3);
    world.remove(0, 1);
    assert_eq!(world.create_entity(), 1);
    world.attach(0, 1, false, 0).unwrap();
    assert_eq!(world.create_entity(), 3);
}

#[test]
fn counters_follow_attach_and_detach() {
    let mut world = World::<u8>::create(3);
    let e = world.create_entity();
    assert_eq!(world.live_count(e), Some(0));
    world.attach(0, e, false, 1).unwrap();
    assert_eq!(world.live_count(e), Some(1));
    world.attach(2, e, false, 2).unwrap();
    assert_eq!(world.live_count(e), Some(2));
    world.attach(1, e, true, 3).unwrap();
    assert_eq!(world.live_count(e), Some(3));
    assert_eq!(world.stat(), (1, 3));
    world.remove(2, e);
    assert_eq!(world.live_count(e), Some(2));
    world.remove(2, e);
    assert_eq!(world.live_count(e), Some(2));
    world.remove(0, e);
    world.remove(1, e);
    assert_eq!(world.live_count(e), Some(0));
    assert_eq!(world.stat(), (1, 0));
}

#[test]
fn query_intersection() {
    let world = sample();
    assert_eq!(world.query().with(A).with(B).fetch(), Ok(vec![1]));
    assert_eq!(world.query().with(A).fetch(), Ok(vec![1, 2]));
    assert_eq!(world.query().with(B).fetch(), Ok(vec![1, 3]));
}

#[test]
fn query_order_of_types_does_not_change_the_set() {
    let mut world = World::<u8>::create(2);
    for _ in 0..4 {
        let e = world.create_entity();
        world.attach(A, e, false, 0).unwrap();
    }
    // the store of B is filled in another order than the store of A
    world.attach(B, 3, false, 0).unwrap();
    world.attach(B, 1, false, 0).unwrap();
    world.attach(B, 0, false, 0).unwrap();
    let ab = world.query().with(A).with(B).fetch().unwrap();
    let ba = world.query().with(B).with(A).fetch().unwrap();
    assert_eq!(ab, vec![0, 1, 3]);
    assert_eq!(ba, vec![3, 1, 0]);
    let mut sorted = ba.clone();
    sorted.sort();
    assert_eq!(ab, sorted);
}

#[test]
fn an_empty_query_finds_nothing() {
    let world = sample();
    assert_eq!(world.query().fetch(), Ok(vec![]));
}

#[test]
fn a_query_may_name_a_type_twice() {
    let world = sample();
    assert_eq!(world.query().with(A).with(A).fetch(), Ok(vec![1, 2]));
}

#[test]
fn a_query_for_an_unknown_type_is_refused() {
    let world = sample();
    assert_eq!(
        world.query().with(A).with(2).fetch(),
        Err(EcsError::UnknownComponentType)
    );
    assert_eq!(
        world.query().with(9).fetch(),
        Err(EcsError::UnknownComponentType)
    );
}

#[test]
fn transient_purge() {
    let mut world = World::<&str>::create(2);
    let e = world.create_entity();
    world.attach(A, e, false, "stays").unwrap();
    world.attach(B, e, true, "event").unwrap();
    assert_eq!(world.query().with(B).fetch(), Ok(vec![e]));
    assert_eq!(world.query().with(A).with(B).fetch(), Ok(vec![e]));
    assert_eq!(world.live_count(e), Some(2));
    world.clear_transient();
    assert_eq!(world.query().with(B).fetch(), Ok(vec![]));
    assert_eq!(world.query().with(A).with(B).fetch(), Ok(vec![]));
    assert_eq!(world.query().with(A).fetch(), Ok(vec![e]));
    assert_eq!(world.live_count(e), Some(1));
    // a second purge finds an empty registry
    world.clear_transient();
    assert_eq!(world.live_count(e), Some(1));
    assert_eq!(world.stat(), (1, 1));
}

#[test]
fn a_purge_after_a_manual_detach_counts_once() {
    let mut world = World::<&str>::create(1);
    let e = world.create_entity();
    let other = {
        world.attach(A, e, true, "event").unwrap();
        world.create_entity()
    };
    world.attach(A, other, false, "keeps the table busy").unwrap();
    world.remove(A, e);
    assert_eq!(world.live_count(e), Some(0));
    world.clear_transient();
    assert_eq!(world.live_count(e), Some(0));
    assert_eq!(world.live_count(other), Some(1));
    assert_eq!(world.stat(), (2, 1));
}

#[test]
fn a_purge_takes_what_stands_for_a_registered_pair() {
    let mut world = World::<&str>::create(1);
    let e = world.create_entity();
    world.attach(A, e, true, "event").unwrap();
    world.remove(A, e);
    world.attach(A, e, false, "lasting").unwrap();
    world.clear_transient();
    assert_eq!(world.get(A, e), Ok(None));
    assert_eq!(world.live_count(e), Some(0));
}

#[test]
fn no_op_detach() {
    let mut world = sample();
    let before = world.stat();
    assert_eq!(before, (4, 4));
    world.remove(B, 2);
    assert_eq!(world.stat(), before);
    world.remove(5, 1);
    assert_eq!(world.stat(), before);
    world.remove(A, 77);
    assert_eq!(world.stat(), before);
    assert_eq!(world.live_count(2), Some(1));
    assert_eq!(world.query().with(A).fetch(), Ok(vec![1, 2]));
}

#[derive(Debug, PartialEq)]
enum Motion {
    Position { x: i32 },
    Velocity { dx: i32 },
}

const POSITION: usize = 0;
const VELOCITY: usize = 1;

fn move_system(world: &mut World<Motion>) {
    for e in world.query().with(POSITION).with(VELOCITY).fetch().unwrap() {
        let dx = match world.get(VELOCITY, e).unwrap() {
            Some(Motion::Velocity { dx }) => *dx,
            _ => panic!("no velocity"),
        };
        match world.get_mut(POSITION, e).unwrap() {
            Some(Motion::Position { x }) => *x += dx,
            _ => panic!("no position"),
        }
    }
}

#[test]
fn end_to_end_scenario() {
    let mut world = World::<Motion>::create(2);
    let e1 = world.create_entity();
    world.attach(POSITION, e1, false, Motion::Position { x: 0 }).unwrap();
    world.attach(VELOCITY, e1, false, Motion::Velocity { dx: 1 }).unwrap();
    move_system(&mut world);
    assert_eq!(
        world.get(POSITION, e1),
        Ok(Some(&Motion::Position { x: 1 }))
    );
    assert_eq!(world.stat(), (1, 2));
    world.clear_transient();
    move_system(&mut world);
    assert_eq!(
        world.get(POSITION, e1),
        Ok(Some(&Motion::Position { x: 2 }))
    );
    assert_eq!(world.live_count(e1), Some(2));
}

#[test]
fn writing_through_the_handle_keeps_place_and_owner() {
    let mut world = World::<i32>::create(1);
    for n in 0..3 {
        let e = world.create_entity();
        world.attach(0, e, false, n).unwrap();
    }
    *world.get_mut(0, 1).unwrap().unwrap() = 40;
    assert_eq!(world.get(0, 0), Ok(Some(&0)));
    assert_eq!(world.get(0, 1), Ok(Some(&40)));
    assert_eq!(world.get(0, 2), Ok(Some(&2)));
    assert_eq!(world.owners(0), Ok(vec![0, 1, 2]));
    assert_eq!(world.stat(), (3, 3));
}

#[test]
fn lookup_miss_is_absent() {
    let mut world = sample();
    assert_eq!(world.get(B, 2), Ok(None));
    assert_eq!(world.get(A, 50), Ok(None));
    assert!(matches!(world.get_mut(B, 2), Ok(None)));
}

#[test]
fn unknown_component_type() {
    let mut world = World::<u8>::create(2);
    let e = world.create_entity();
    assert_eq!(
        world.attach(2, e, false, 0),
        Err(EcsError::UnknownComponentType)
    );
    assert_eq!(world.get(2, e), Err(EcsError::UnknownComponentType));
    assert!(matches!(
        world.get_mut(2, e),
        Err(EcsError::UnknownComponentType)
    ));
    assert_eq!(world.owners(2), Err(EcsError::UnknownComponentType));
    assert!(!world.has(2, e));
    assert_eq!(world.stat(), (1, 0));
    // the unknown type is reported before the unknown entity
    assert_eq!(
        world.attach(2, 9, false, 0),
        Err(EcsError::UnknownComponentType)
    );
}

#[test]
fn unknown_entity() {
    let mut world = World::<u8>::create(1);
    assert_eq!(world.attach(0, 0, false, 0), Err(EcsError::UnknownEntity));
    let e = world.create_entity();
    assert_eq!(
        world.attach(0, e + 1, false, 0),
        Err(EcsError::UnknownEntity)
    );
    assert_eq!(world.stat(), (1, 0));
}

#[test]
fn duplicate_component() {
    let mut world = World::<u8>::create(2);
    let e = world.create_entity();
    world.attach(0, e, false, 1).unwrap();
    assert_eq!(
        world.attach(0, e, true, 2),
        Err(EcsError::DuplicateComponent)
    );
    assert_eq!(world.get(0, e), Ok(Some(&1)));
    assert_eq!(world.live_count(e), Some(1));
    assert_eq!(world.query().with(0).fetch(), Ok(vec![e]));
    // the refused component was not registered as transient either
    world.clear_transient();
    assert_eq!(world.get(0, e), Ok(Some(&1)));
    world.attach(1, e, false, 3).unwrap();
    assert_eq!(world.live_count(e), Some(2));
}

#[test]
fn store_keeps_order_and_removes_by_entity() {
    let mut store = Store::<char>::new();
    assert_eq!(store.len(), 0);
    store.push(4, 'a');
    store.push(2, 'b');
    store.push(9, 'c');
    assert_eq!(store.entities(), vec![4, 2, 9]);
    assert_eq!(store.find(2), Some(1));
    assert_eq!(store.find(3), None);
    assert!(store.contains(9));
    assert_eq!(store.get(9), Some(&'c'));
    assert!(!store.remove_entity(3));
    assert!(store.remove_entity(4));
    assert_eq!(store.entities(), vec![2, 9]);
    *store.get_mut(2).unwrap() = 'z';
    assert_eq!(store.get(2), Some(&'z'));
    assert_eq!(store.len(), 2);
}

#[test]
fn store_removes_every_entry_of_an_entity() {
    let mut store = Store::<u8>::new();
    store.push(1, 10);
    store.push(2, 20);
    store.push(1, 11);
    store.push(3, 30);
    store.push(1, 12);
    assert_eq!(store.get(1), Some(&10));
    assert!(store.remove_entity(1));
    assert_eq!(store.entities(), vec![2, 3]);
    assert_eq!(store.get(1), None);
}

#[test]
fn entity_table_counts() {
    let mut table = EntityTable::new();
    assert_eq!(table.len(), 0);
    assert_eq!(table.count(0), None);
    assert_eq!(table.allocate(), 0);
    assert_eq!(table.allocate(), 0);
    table.increment(0);
    assert_eq!(table.allocate(), 1);
    table.increment(1);
    table.increment(1);
    assert_eq!(table.count(1), Some(2));
    table.decrement(0);
    assert_eq!(table.count(0), Some(0));
    assert_eq!(table.allocate(), 0);
    assert_eq!(table.len(), 2);
}
