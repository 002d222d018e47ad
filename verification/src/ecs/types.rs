//! What a value must offer to be stored as a component, and the errors the
//! world reports.

use vstd::prelude::*;

verus! {

/// A typed value that belongs to one entity.
///
/// Component types are numbered from zero in the order in which they are
/// declared, and a world is created for a fixed number of them. A world holds
/// values of one Rust type; where an application has several component types,
/// that type is an enum with one variant for each, and `get_id` tells the
/// variants apart.
///
/// The three `_spec` functions say what the three methods return. An
/// implementation states them, and the contract of `World::add` speaks of
/// them.
pub trait Component {
    /// The number of the component type this value belongs to.
    open spec fn id_spec(&self) -> usize {
        arbitrary()
    }

    /// The entity that owns this value.
    open spec fn entity_spec(&self) -> usize {
        arbitrary()
    }

    /// Whether the value lives only for the tick in which it was attached.
    open spec fn one_frame_spec(&self) -> bool {
        arbitrary()
    }

    /// The number of the component type this value belongs to.
    fn get_id(&self) -> (id: usize)
        ensures
            id == self.id_spec(),
    ;

    /// The entity that owns this value.
    fn entity(&self) -> (entity: usize)
        ensures
            entity == self.entity_spec(),
    ;

    /// Whether the value lives only for the tick in which it was attached.
    fn one_frame(&self) -> (transient: bool)
        ensures
            transient == self.one_frame_spec(),
    ;
}

/// A value together with what a component says of itself: a component of
/// any type number, for a world that tells its component types apart by
/// number alone.
pub struct Tagged<T> {
    pub id: usize,
    pub entity: usize,
    pub one_frame: bool,
    pub value: T,
}

impl<T> Component for Tagged<T> {
    open spec fn id_spec(&self) -> usize {
        self.id
    }

    open spec fn entity_spec(&self) -> usize {
        self.entity
    }

    open spec fn one_frame_spec(&self) -> bool {
        self.one_frame
    }

    fn get_id(&self) -> (id: usize) {
        self.id
    }

    fn entity(&self) -> (entity: usize) {
        self.entity
    }

    fn one_frame(&self) -> (transient: bool) {
        self.one_frame
    }
}

/// Why the world refused an operation.
#[derive(Clone, Copy, Debug, PartialEq, Eq, Structural)]
pub enum EcsError {
    /// The component type number is not below the world's number of types.
    UnknownComponentType,
    /// The entity was never handed out by the world.
    UnknownEntity,
    /// The entity already holds a component of that type.
    DuplicateComponent,
}

} // verus!
