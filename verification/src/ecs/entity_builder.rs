//! Building entities with a fluent API: spawn, insert components, name,
//! attach behaviours, build.

use crate::ecs::behavior_block::{BehaviorBlock, BehaviorBlockComponent};
use crate::ecs::component::Component;
use crate::ecs::components::NamedComponent;
use crate::ecs::query::EntityId;
use crate::ecs::world::{component_added, created, World};
use crate::mapping::{ActuatorType, Controller, SensorType};
use vstd::prelude::*;

verus! {

/// Spawning entities through a builder.
pub trait WorldSpawnExt: Sized {
    /// Whether an entity can be spawned now.
    spec fn can_spawn(&self) -> bool;

    /// Spawns a new entity and returns a builder for adding components.
    fn spawn(&mut self) -> (r: EntityBuilder<'_>)
        requires
            old(self).can_spawn(),
        ensures
            r.well_formed(),
    ;
}

impl WorldSpawnExt for World {
    open spec fn can_spawn(&self) -> bool {
        self.wf() && self.generations().len() < usize::MAX
    }

    fn spawn(&mut self) -> (r: EntityBuilder<'_>) {
        EntityBuilder::new(self)
    }
}

/// Builds an entity step by step: components are inserted, a name may be
/// set, and `build` finalizes the entity.
pub trait EntityBuildable<'w>: Sized {
    /// The output type of the build process (usually the entity's identifier)
    type Output;

    /// Whether the builder can take further steps.
    spec fn well_formed(&self) -> bool;

    /// Inserts a component into the entity being built.
    fn insert<C: Component>(self, component: C) -> (r: Self)
        requires
            self.well_formed(),
        ensures
            r.well_formed(),
    ;

    /// Sets the name of the entity for debugging purposes.
    fn name(self, name: &str) -> (r: Self)
        requires
            self.well_formed(),
        ensures
            r.well_formed(),
    ;

    /// Finalizes the entity creation and returns the result.
    fn build(self) -> Self::Output
        requires
            self.well_formed(),
    ;
}

/// Builder for an entity: the entity is created at once, components are
/// added as they are inserted, and the name and behaviours at `build`.
pub struct EntityBuilder<'w> {
    /// The world the entity lives in
    world: &'w mut World,
    /// The entity being built
    entity: EntityId,
    /// The name to give the entity
    name: Option<String>,
    /// The behaviours to attach to the entity
    behaviors: Vec<BehaviorBlock>,
}

impl<'w> EntityBuilder<'w> {
    /// The world as the builder has it now.
    pub closed spec fn spec_world(&self) -> World {
        *self.world
    }

    /// The entity being built.
    pub closed spec fn spec_entity(&self) -> EntityId {
        self.entity
    }

    /// The name the entity is to get, if any.
    pub closed spec fn spec_name(&self) -> Option<Seq<char>> {
        match self.name {
            Some(n) => Some(n@),
            None => None,
        }
    }

    /// The behaviours the entity is to get.
    pub closed spec fn spec_behaviors(&self) -> Seq<BehaviorBlock> {
        self.behaviors@
    }

    /// The world keeps its invariant.
    pub open spec fn builder_wf(&self) -> bool {
        self.spec_world().wf()
    }

    /// Creates the entity and a builder for it.
    pub fn new(world: &'w mut World) -> (r: Self)
        requires
            old(world).wf(),
            old(world).generations().len() < usize::MAX,
        ensures
            r.builder_wf(),
            created(*old(world), r.spec_world(), r.spec_entity()),
            r.spec_world().spec_is_alive(r.spec_entity()),
            r.spec_name() is None,
            r.spec_behaviors() == Seq::<BehaviorBlock>::empty(),
    {
        let entity = world.create_entity();
        Self { world, entity, name: None, behaviors: Vec::new() }
    }

    /// Adds a component to the entity being built.
    pub fn insert<C: Component>(self, component: C) -> (r: Self)
        requires
            self.builder_wf(),
        ensures
            r.builder_wf(),
            component_added(self.spec_world(), r.spec_world(), self.spec_entity()),
            r.spec_entity() == self.spec_entity(),
            r.spec_name() == self.spec_name(),
            r.spec_behaviors() == self.spec_behaviors(),
    {
        let mut b = self;
        let _ = b.world.add_component(b.entity, component);
        b
    }

    /// Sets the name the entity gets when built.
    pub fn name(self, name: &str) -> (r: Self)
        ensures
            r.spec_world() == self.spec_world(),
            r.spec_entity() == self.spec_entity(),
            r.spec_name() == Some(name@),
            r.spec_behaviors() == self.spec_behaviors(),
    {
        let mut b = self;
        b.name = Some(name.to_owned());
        b
    }

    /// Starts a behaviour block; `end` on it returns to this builder.
    pub fn behavior(self, name: &str) -> (r: BehaviorBlockBuilder<'w>)
        ensures
            r.spec_parent() == self,
            r.spec_block().name@ == name@,
            r.spec_block().sensors@ == Seq::<SensorType>::empty(),
            r.spec_block().controller is None,
            r.spec_block().actuators@ == Seq::<ActuatorType>::empty(),
    {
        BehaviorBlockBuilder::new(self, name)
    }

    /// Finalizes the entity: gives it its name and its behaviours, if any,
    /// and returns its identifier.
    pub fn build(self) -> (r: EntityId)
        requires
            self.builder_wf(),
        ensures
            r == self.spec_entity(),
    {
        let mut b = self;
        let entity = b.entity;
        let name = b.name.take();
        match name {
            Some(n) => {
                let _ = b.world.add_component(entity, NamedComponent::new(n.as_str()));
            },
            None => {},
        }
        if b.behaviors.len() > 0 {
            let mut blocks: Vec<BehaviorBlock> = Vec::new();
            core::mem::swap(&mut blocks, &mut b.behaviors);
            let _ = b.world.add_component(entity, BehaviorBlockComponent::with_blocks(blocks));
        }
        entity
    }
}

impl<'w> EntityBuildable<'w> for EntityBuilder<'w> {
    type Output = EntityId;

    open spec fn well_formed(&self) -> bool {
        self.builder_wf()
    }

    fn insert<C: Component>(self, component: C) -> (r: Self)
        ensures
            component_added(self.spec_world(), r.spec_world(), self.spec_entity()),
            r.spec_entity() == self.spec_entity(),
            r.spec_name() == self.spec_name(),
            r.spec_behaviors() == self.spec_behaviors(),
    {
        EntityBuilder::insert(self, component)
    }

    fn name(self, name: &str) -> (r: Self)
        ensures
            r.spec_world() == self.spec_world(),
            r.spec_entity() == self.spec_entity(),
            r.spec_name() == Some(name@),
            r.spec_behaviors() == self.spec_behaviors(),
    {
        EntityBuilder::name(self, name)
    }

    fn build(self) -> EntityId {
        EntityBuilder::build(self)
    }
}

/// Builder for one behaviour block of an entity being built.
pub struct BehaviorBlockBuilder<'w> {
    /// The builder of the entity
    parent: EntityBuilder<'w>,
    /// The behaviour block being built
    current_block: BehaviorBlock,
}

impl<'w> BehaviorBlockBuilder<'w> {
    /// The builder of the entity.
    pub closed spec fn spec_parent(&self) -> EntityBuilder<'w> {
        self.parent
    }

    /// The behaviour block being built.
    pub closed spec fn spec_block(&self) -> BehaviorBlock {
        self.current_block
    }

    /// Starts a behaviour block with a name and nothing else.
    pub fn new(parent: EntityBuilder<'w>, name: &str) -> (r: Self)
        ensures
            r.spec_parent() == parent,
            r.spec_block().name@ == name@,
            r.spec_block().sensors@ == Seq::<SensorType>::empty(),
            r.spec_block().controller is None,
            r.spec_block().actuators@ == Seq::<ActuatorType>::empty(),
    {
        Self { parent, current_block: BehaviorBlock::new(name) }
    }

    /// Adds a sensor to the current behavior block.
    pub fn sensor(self, sensor: SensorType) -> (r: Self)
        ensures
            r.spec_parent() == self.spec_parent(),
            r.spec_block().name == self.spec_block().name,
            r.spec_block().sensors@ == self.spec_block().sensors@.push(sensor),
            r.spec_block().controller == self.spec_block().controller,
            r.spec_block().actuators == self.spec_block().actuators,
    {
        let mut b = self;
        b.current_block.sensors.push(sensor);
        b
    }

    /// Adds sensors to the current behavior block, in order.
    pub fn sensors(self, sensors: Vec<SensorType>) -> (r: Self)
        ensures
            r.spec_parent() == self.spec_parent(),
            r.spec_block().name == self.spec_block().name,
            r.spec_block().sensors@ == self.spec_block().sensors@ + sensors@,
            r.spec_block().controller == self.spec_block().controller,
            r.spec_block().actuators == self.spec_block().actuators,
    {
        let mut b = self;
        let mut more = sensors;
        b.current_block.sensors.append(&mut more);
        b
    }

    /// Sets the controller for the current behavior block.
    pub fn controller(self, controller: Controller) -> (r: Self)
        ensures
            r.spec_parent() == self.spec_parent(),
            r.spec_block().name == self.spec_block().name,
            r.spec_block().sensors == self.spec_block().sensors,
            r.spec_block().controller == Some(controller),
            r.spec_block().actuators == self.spec_block().actuators,
    {
        let mut b = self;
        b.current_block.controller = Some(controller);
        b
    }

    /// Adds an actuator to the current behavior block.
    pub fn actuator(self, actuator: ActuatorType) -> (r: Self)
        ensures
            r.spec_parent() == self.spec_parent(),
            r.spec_block().name == self.spec_block().name,
            r.spec_block().sensors == self.spec_block().sensors,
            r.spec_block().controller == self.spec_block().controller,
            r.spec_block().actuators@ == self.spec_block().actuators@.push(actuator),
    {
        let mut b = self;
        b.current_block.actuators.push(actuator);
        b
    }

    /// Adds actuators to the current behavior block, in order.
    pub fn actuators(self, actuators: Vec<ActuatorType>) -> (r: Self)
        ensures
            r.spec_parent() == self.spec_parent(),
            r.spec_block().name == self.spec_block().name,
            r.spec_block().sensors == self.spec_block().sensors,
            r.spec_block().controller == self.spec_block().controller,
            r.spec_block().actuators@ == self.spec_block().actuators@ + actuators@,
    {
        let mut b = self;
        let mut more = actuators;
        b.current_block.actuators.append(&mut more);
        b
    }

    /// Finalizes the current behavior block and returns to the entity's builder.
    pub fn end(self) -> (r: EntityBuilder<'w>)
        ensures
            r.spec_world() == self.spec_parent().spec_world(),
            r.spec_entity() == self.spec_parent().spec_entity(),
            r.spec_name() == self.spec_parent().spec_name(),
            r.spec_behaviors() == self.spec_parent().spec_behaviors().push(self.spec_block()),
    {
        let mut parent = self.parent;
        parent.behaviors.push(self.current_block);
        parent
    }
}

} // verus!
