//! The two requests that the library can answer itself against a
//! `bevy_ecs` world: looking an entity up, and linking a child to its
//! parent through `bevy_hierarchy`.
//!
//! Taking a marker and spawning from a payload depend on the component and
//! bundle types of the caller, and stay with the caller.

use crate::expansion::{Reply, ReplyView};
use bevy_ecs::entity::Entity;
use bevy_ecs::world::World;
use bevy_hierarchy::BuildWorldChildren;
use vstd::prelude::*;

verus! {

/// `bevy_ecs::world::World`, of which nothing is known here but what the
/// functions below say.
#[verifier::external_type_specification]
#[verifier::external_body]
pub struct ExWorld(bevy_ecs::world::World);

/// `bevy_ecs::entity::Entity`, an opaque identifier.
#[verifier::external_type_specification]
#[verifier::external_body]
pub struct ExEntity(bevy_ecs::entity::Entity);

/// What `Entity::to_bits` returns for an entity.
pub uninterp spec fn entity_bits(entity: Entity) -> u64;

/// The entities that are in a world, each by its bits.
pub uninterp spec fn world_entities(world: World) -> Set<u64>;

/// The child lists that `bevy_hierarchy` keeps in a world, as `Children`
/// components: for each entity that has one, by its bits, the bits of its
/// children in order.
pub uninterp spec fn world_children(world: World) -> Map<u64, Seq<u64>>;

/// The child list of `parent` in `world`, empty if it has none.
pub open spec fn children_of(world: World, parent: Entity) -> Seq<u64> {
    if world_children(world).dom().contains(entity_bits(parent)) {
        world_children(world)[entity_bits(parent)]
    } else {
        Seq::empty()
    }
}

/// `list` with `child` taken out, if it was in it, and put at the end.
pub open spec fn moved_to_end(list: Seq<u64>, child: u64) -> Seq<u64> {
    list.filter(|other: u64| other != child).push(child)
}

/// Whether `entity` is in `world`.
pub open spec fn alive_in(world: World, entity: Entity) -> bool {
    world_entities(world).contains(entity_bits(entity))
}

/// Whether `child` can be linked to `parent`: both are in the world, and
/// they are two entities.
pub open spec fn linkable(world: World, parent: Entity, child: Entity) -> bool {
    &&& alive_in(world, parent)
    &&& alive_in(world, child)
    &&& entity_bits(parent) != entity_bits(child)
}

/// Calls `Entity::to_bits`: the result is the entity's bits.
#[verifier::external_body]
fn entity_to_bits(entity: Entity) -> (bits: u64)
    ensures
        bits == entity_bits(entity),
{
    entity.to_bits()
}

/// Calls `World::get_entity` and says whether it found the entity: it does
/// so exactly for the entities that are in the world.
#[verifier::external_body]
fn contains_entity(world: &World, entity: Entity) -> (present: bool)
    ensures
        present == alive_in(*world, entity),
{
    world.get_entity(entity).is_some()
}

/// Calls `BuildWorldChildren::add_child` on `World::entity_mut(parent)`.
/// Both calls panic where an entity is missing, and `add_child` panics where
/// parent and child are the same entity, so those are left out. It
/// takes `child` out of the parent's child list, if it was in it, and puts it
/// at the end; no entity joins or leaves the world.
#[verifier::external_body]
fn add_child(world: &mut World, parent: Entity, child: Entity)
    requires
        linkable(*old(world), parent, child),
    ensures
        world_children(*final(world)).dom().contains(entity_bits(parent)),
        world_children(*final(world))[entity_bits(parent)] == moved_to_end(
            children_of(*old(world), parent),
            entity_bits(child),
        ),
        world_entities(*final(world)) == world_entities(*old(world)),
{
    world.entity_mut(parent).add_child(child);
}

/// Whether `entity` is in `world`.
pub fn is_alive(world: &World, entity: Entity) -> (alive: bool)
    ensures
        alive == alive_in(*world, entity),
{
    contains_entity(world, entity)
}

/// Answers a `Lookup` request against `world`.
pub fn answer_lookup<B>(world: &World, entity: Entity) -> (reply: Reply<Entity, B>)
    ensures
        reply@ == ReplyView::<Entity, B>::Found(alive_in(*world, entity)),
{
    Reply::Found(is_alive(world, entity))
}

/// Answers a `Link` request against `world`, if it can be done: both
/// entities must be in the world, and be two. It is done exactly then, and
/// the child is then the last in the parent's child list; else the world is
/// left as it was, and there is no answer.
pub fn answer_link<B>(world: &mut World, parent: Entity, child: Entity) -> (reply: Option<
    Reply<Entity, B>,
>)
    ensures
        reply is Some <==> linkable(*old(world), parent, child),
        reply is Some ==> reply->0@ == ReplyView::<Entity, B>::Linked,
        reply is Some ==> children_of(*final(world), parent) == moved_to_end(
            children_of(*old(world), parent),
            entity_bits(child),
        ),
        reply is Some ==> world_entities(*final(world)) == world_entities(*old(world)),
        reply is None ==> *final(world) == *old(world),
{
    if entity_to_bits(parent) != entity_to_bits(child) && contains_entity(world, parent)
        && contains_entity(world, child) {
        add_child(world, parent, child);
        Some(Reply::Linked)
    } else {
        None
    }
}

} // verus!
