use engine::ecs::types::{Component, EcsError, Tagged};
use engine::ecs::world::World;

struct Person {
    entity: usize,
    one_frame: bool,
    name: String,
}

struct Greeter {
    entity: usize,
    one_frame: bool,
    greeting: String,
}

enum Part {
    Person(Person),
    Greeter(Greeter),
}

const PERSON: usize = 0;
const GREETER: usize = 1;

impl Component for Part {
    fn get_id(&self) -> usize {
        match self {
            Part::Person(_) => PERSON,
            Part::Greeter(_) => GREETER,
        }
    }

    fn entity(&self) -> usize {
        match self {
            Part::Person(p) => p.entity,
            Part::Greeter(g) => g.entity,
        }
    }

    fn one_frame(&self) -> bool {
        match self {
            Part::Person(p) => p.one_frame,
            Part::Greeter(g) => g.one_frame,
        }
    }
}

#[test]
fn test_query() {
    let world = &mut World::<Part>::create(2);
    let e = world.create_entity();
    world
        .add(Part::Person(Person {
            entity: e,
            one_frame: false,
            name: "Tom".to_string(),
        }))
        .unwrap();

    assert_eq!(
        0,
        world.query().with(GREETER).with(PERSON).fetch().unwrap().len()
    );

    world
        .add(Part::Greeter(Greeter {
            entity: e,
            one_frame: true,
            greeting: "Hello".to_string(),
        }))
        .unwrap();

    assert_eq!(
        1,
        world.query().with(PERSON).with(GREETER).fetch().unwrap().len()
    );
}

#[test]
fn components_keep_their_values() {
    let mut world = World::<Part>::create(2);
    let e = world.create_entity();
    world
        .add(Part::Person(Person {
            entity: e,
            one_frame: false,
            name: "Tom".to_string(),
        }))
        .unwrap();
    world
        .add(Part::Greeter(Greeter {
            entity: e,
            one_frame: true,
            greeting: "Hello".to_string(),
        }))
        .unwrap();
    match world.get(PERSON, e).unwrap() {
        Some(Part::Person(p)) => assert_eq!(p.name, "Tom"),
        _ => panic!("the person is missing"),
    }
    match world.get(GREETER, e).unwrap() {
        Some(Part::Greeter(g)) => assert_eq!(g.greeting, "Hello"),
        _ => panic!("the greeter is missing"),
    }
    assert_eq!(world.stat(), (1, 2));
    assert_eq!(world.live_count(e), Some(2));
}

#[test]
fn add_reads_the_component_for_its_type_and_entity() {
    let mut world = World::<Part>::create(2);
    let first = world.create_entity();
    world
        .add(Part::Greeter(Greeter {
            entity: first,
            one_frame: false,
            greeting: "Hi".to_string(),
        }))
        .unwrap();
    let second = world.create_entity();
    assert_eq!((first, second), (0, 1));
    world
        .add(Part::Person(Person {
            entity: second,
            one_frame: false,
            name: "Ann".to_string(),
        }))
        .unwrap();
    assert!(world.has(GREETER, first));
    assert!(!world.has(PERSON, first));
    assert!(world.has(PERSON, second));
    assert!(!world.has(GREETER, second));
    assert_eq!(
        world.add(Part::Person(Person {
            entity: second,
            one_frame: false,
            name: "Bob".to_string(),
        })),
        Err(EcsError::DuplicateComponent)
    );
    assert_eq!(
        world.add(Part::Person(Person {
            entity: 7,
            one_frame: false,
            name: "Eve".to_string(),
        })),
        Err(EcsError::UnknownEntity)
    );
}

#[test]
fn a_transient_component_added_by_add_leaves_with_the_tick() {
    let mut world = World::<Part>::create(2);
    let e = world.create_entity();
    world
        .add(Part::Person(Person {
            entity: e,
            one_frame: false,
            name: "Tom".to_string(),
        }))
        .unwrap();
    world
        .add(Part::Greeter(Greeter {
            entity: e,
            one_frame: true,
            greeting: "Hello".to_string(),
        }))
        .unwrap();
    world.clear_transient();
    assert!(world.has(PERSON, e));
    assert!(!world.has(GREETER, e));
    assert_eq!(world.live_count(e), Some(1));
}

#[test]
fn tagged_values_are_components() {
    let mut world = World::<Tagged<&str>>::create(2);
    let e = world.create_entity();
    let tag = Tagged { id: 1, entity: e, one_frame: true, value: "event" };
    assert_eq!((tag.get_id(), tag.entity(), tag.one_frame()), (1, e, true));
    world.add(tag).unwrap();
    world
        .add(Tagged { id: 0, entity: e, one_frame: false, value: "lasting" })
        .unwrap();
    assert_eq!(world.query().with(0).with(1).fetch(), Ok(vec![e]));
    assert_eq!(world.get(1, e).unwrap().map(|t| t.value), Some("event"));
    assert_eq!(
        world.add(Tagged { id: 2, entity: e, one_frame: false, value: "none" }),
        Err(EcsError::UnknownComponentType)
    );
    world.clear_transient();
    assert_eq!(world.query().with(1).fetch(), Ok(vec![]));
    assert_eq!(world.get(0, e).unwrap().map(|t| t.value), Some("lasting"));
    assert_eq!(world.live_count(e), Some(1));
}
