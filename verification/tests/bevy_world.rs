//! The markers and their commands against a real store: each marker is
//! wrapped in a component whose hook records the command, and the command
//! runs its machine against the world.

use bevy_ecs::bundle::Bundle;
use bevy_ecs::component::{Component, ComponentHooks, ComponentId, StorageType};
use bevy_ecs::entity::Entity;
use bevy_ecs::system::{Commands, RunSystemOnce};
use bevy_ecs::world::{DeferredWorld, World};
use bevy_hierarchy::Children;
use i_cant_believe_its_not_bsn::command::{
    maybe_hook, with_child_hook, with_child_slots_hook, with_children_hook, MaybeCommand,
    WithChildCommand, WithChildSlotsCommand, WithChildrenCommand,
};
use i_cant_believe_its_not_bsn::expansion::{Expansion, Reply, Request};
use i_cant_believe_its_not_bsn::maybe::{Maybe, MaybeReply, MaybeRequest};
use i_cant_believe_its_not_bsn::missing::{CommandKind, Missing, MissingPolicy};
use i_cant_believe_its_not_bsn::slots::{spawn_slotted_children, SlotPayload, WithChildSlots};
use i_cant_believe_its_not_bsn::world::{answer_link, answer_lookup, is_alive};
use i_cant_believe_its_not_bsn::{
    spawn_child, spawn_children, spawn_repeated_child, WithChildN, WithChildrenN,
};

#[derive(PartialEq, Debug)]
struct A;

impl Component for A {
    const STORAGE_TYPE: StorageType = StorageType::Table;
}

#[derive(PartialEq, Debug)]
struct B(u8);

impl Component for B {
    const STORAGE_TYPE: StorageType = StorageType::Table;
}

#[derive(PartialEq, Debug)]
struct Name(&'static str);

impl Component for Name {
    const STORAGE_TYPE: StorageType = StorageType::Table;
}

struct Child<P: Bundle, const N: u8 = 0>(WithChildN<P, N>);

struct Brood<P: Bundle, I: Iterator<Item = P> + Send + Sync + 'static, const N: u8 = 0>(
    WithChildrenN<P, I, N>,
);

struct Slots<P: Bundle, Q: Bundle>(WithChildSlots<P, Q, (), (), (), (), (), ()>);

struct Perhaps<P: Bundle>(Maybe<P>);

fn child<P: Bundle>(payload: P) -> Child<P> {
    Child(spawn_child(payload))
}

fn brood<P: Bundle, I>(payloads: I) -> Brood<P, I::IntoIter>
where
    I: IntoIterator<Item = P>,
    I::IntoIter: Send + Sync + 'static,
{
    Brood(spawn_children(payloads.into_iter()))
}

impl<P: Bundle, const N: u8> Component for Child<P, N> {
    const STORAGE_TYPE: StorageType = StorageType::SparseSet;

    fn register_component_hooks(hooks: &mut ComponentHooks) {
        hooks.on_add(child_hook::<P, N>);
    }
}

impl<P: Bundle, I: Iterator<Item = P> + Send + Sync + 'static, const N: u8> Component
    for Brood<P, I, N>
{
    const STORAGE_TYPE: StorageType = StorageType::SparseSet;

    fn register_component_hooks(hooks: &mut ComponentHooks) {
        hooks.on_add(brood_hook::<P, I, N>);
    }
}

impl<P: Bundle, Q: Bundle> Component for Slots<P, Q> {
    const STORAGE_TYPE: StorageType = StorageType::SparseSet;

    fn register_component_hooks(hooks: &mut ComponentHooks) {
        hooks.on_add(slots_hook::<P, Q>);
    }
}

impl<P: Bundle> Component for Perhaps<P> {
    const STORAGE_TYPE: StorageType = StorageType::SparseSet;

    fn register_component_hooks(hooks: &mut ComponentHooks) {
        hooks.on_add(perhaps_hook::<P>);
    }
}

fn policy() -> MissingPolicy {
    MissingPolicy::Fatal
}

fn drive<P>(
    world: &mut World,
    mut run: Expansion<Entity, P>,
    mut request: Request<Entity, P>,
    take: impl FnOnce(&mut World, Entity) -> Reply<Entity, P>,
    spawn: fn(&mut World, P) -> Entity,
    kind: CommandKind,
) {
    let mut take = Some(take);
    loop {
        let reply = match request {
            Request::Lookup(entity) => answer_lookup(world, entity),
            Request::Take(entity) => (take.take().expect("one marker per run"))(world, entity),
            Request::Spawn(payload) => Reply::Spawned(spawn(world, payload)),
            Request::Link { parent, child } => {
                answer_link(world, parent, child).expect("parent and child are in the world")
            }
            Request::Finish(end) => {
                if let Some(message) = policy().judge(kind, end) {
                    panic!("{message}");
                }
                return;
            }
        };
        assert!(run.awaits(&reply));
        request = run.step(reply);
    }
}

fn spawn_bundle<P: Bundle>(world: &mut World, payload: P) -> Entity {
    world.spawn(payload).id()
}

fn spawn_slot<P: Bundle, Q: Bundle>(
    world: &mut World,
    payload: SlotPayload<P, Q, (), (), (), (), (), ()>,
) -> Entity {
    match payload {
        SlotPayload::First(payload) => world.spawn(payload).id(),
        SlotPayload::Second(payload) => world.spawn(payload).id(),
        _ => world.spawn_empty().id(),
    }
}

fn child_hook<P: Bundle, const N: u8>(mut world: DeferredWorld<'_>, entity: Entity, _: ComponentId) {
    let command: WithChildCommand<Entity, P, N> = with_child_hook(entity);
    world.commands().add(move |world: &mut World| {
        let (run, request) = command.start();
        drive(
            world,
            run,
            request,
            |world, parent| {
                let marker = world.entity_mut(parent).take::<Child<P, N>>();
                WithChildCommand::<Entity, P, N>::taken(marker.map(|held| held.0))
            },
            spawn_bundle::<P>,
            command.kind(),
        );
    });
}

fn brood_hook<P: Bundle, I: Iterator<Item = P> + Send + Sync + 'static, const N: u8>(
    mut world: DeferredWorld<'_>,
    entity: Entity,
    _: ComponentId,
) {
    let command: WithChildrenCommand<Entity, P, I, N> = with_children_hook(entity);
    world.commands().add(move |world: &mut World| {
        let (run, request) = command.start();
        drive(
            world,
            run,
            request,
            |world, parent| {
                let marker = world.entity_mut(parent).take::<Brood<P, I, N>>();
                WithChildrenCommand::<Entity, P, I, N>::taken(marker.map(|held| held.0))
            },
            spawn_bundle::<P>,
            command.kind(),
        );
    });
}

fn slots_hook<P: Bundle, Q: Bundle>(mut world: DeferredWorld<'_>, entity: Entity, _: ComponentId) {
    let command: WithChildSlotsCommand<Entity, P, Q, (), (), (), (), (), ()> =
        with_child_slots_hook(entity);
    world.commands().add(move |world: &mut World| {
        let (run, request) = command.start();
        drive(
            world,
            run,
            request,
            |world, parent| {
                let marker = world.entity_mut(parent).take::<Slots<P, Q>>();
                WithChildSlotsCommand::<Entity, P, Q, (), (), (), (), (), ()>::taken(
                    marker.map(|held| held.0),
                )
            },
            spawn_slot::<P, Q>,
            command.kind(),
        );
    });
}

fn perhaps_hook<P: Bundle>(mut world: DeferredWorld<'_>, entity: Entity, _: ComponentId) {
    let command: MaybeCommand<Entity, P> = maybe_hook(entity);
    world.commands().add(move |world: &mut World| {
        let (mut run, mut request) = command.start();
        loop {
            let reply = match request {
                MaybeRequest::Lookup(entity) => MaybeReply::Found(is_alive(world, entity)),
                MaybeRequest::Take(entity) => MaybeReply::Taken(
                    world.entity_mut(entity).take::<Perhaps<P>>().map(|held| held.0),
                ),
                MaybeRequest::Insert { entity, payload } => {
                    world.entity_mut(entity).insert(payload);
                    MaybeReply::Inserted
                }
                MaybeRequest::Finish(end) => {
                    if let Some(message) = policy().judge(command.kind(), end) {
                        panic!("{message}");
                    }
                    return;
                }
            };
            assert!(run.awaits(&reply));
            request = run.step(reply);
        }
    });
}

#[test]
fn with_child() {
    let mut world = World::default();

    let parent = world.spawn(child((A, B(3)))).id();
    world.flush();

    assert!(!world.entity(parent).contains::<Child<(A, B)>>());
    assert!(!world.entity(parent).contains::<A>());
    assert!(!world.entity(parent).contains::<B>());

    let children = world.get::<Children>(parent).unwrap();
    assert_eq!(children.len(), 1);

    let child_entity = children[0];
    assert_eq!(world.get::<A>(child_entity), Some(&A));
    assert_eq!(world.get::<B>(child_entity), Some(&B(3)));
}

#[test]
fn with_children_vec() {
    let mut world = World::default();

    let parent = world.spawn(brood(vec![B(0), B(1), B(2)])).id();
    world.flush();

    assert!(!world.entity(parent).contains::<Brood<B, std::vec::IntoIter<B>>>());
    assert!(!world.entity(parent).contains::<B>());

    let children = world.get::<Children>(parent).unwrap();
    assert_eq!(children.len(), 3);

    for (i, child_entity) in children.iter().enumerate() {
        assert_eq!(world.get::<B>(*child_entity), Some(&B(i as u8)));
    }
}

#[test]
fn with_child_closure() {
    let mut world = World::default();

    let parent = world.spawn(brood((0..7).map(|i| B(i as u8)))).id();
    world.flush();

    assert!(!world.entity(parent).contains::<Brood<B, std::vec::IntoIter<B>>>());
    assert!(!world.entity(parent).contains::<B>());

    let children = world.get::<Children>(parent).unwrap();
    assert_eq!(children.len(), 7);

    for (i, child_entity) in children.iter().enumerate() {
        assert_eq!(world.get::<B>(*child_entity), Some(&B(i as u8)));
    }
}

#[test]
fn with_distinct_children() {
    let mut world = World::default();

    let parent = world.spawn((child(A), child(B(1)))).id();
    world.flush();

    let children = world.get::<Children>(parent).unwrap();
    assert_eq!(children.len(), 2);
    assert_eq!(world.get::<A>(children[0]), Some(&A));
    assert_eq!(world.get::<B>(children[1]), Some(&B(1)));

    // Ordering should matter
    let parent = world.spawn((child(B(1)), child(A))).id();
    world.flush();

    let children = world.get::<Children>(parent).unwrap();
    assert_eq!(children.len(), 2);
    assert_eq!(world.get::<B>(children[0]), Some(&B(1)));
    assert_eq!(world.get::<A>(children[1]), Some(&A));
}

#[test]
fn grandchildren() {
    let mut world = World::default();

    let parent = world.spawn(child((A, child((A, B(3)))))).id();
    world.flush();

    let children = world.get::<Children>(parent).unwrap();
    assert_eq!(children.len(), 1);

    let child_entity = children[0];
    assert_eq!(world.get::<A>(child_entity), Some(&A));

    let grandchildren = world.get::<Children>(child_entity).unwrap();
    assert_eq!(grandchildren.len(), 1);

    let grandchild_entity = grandchildren[0];
    assert_eq!(world.get::<A>(grandchild_entity), Some(&A));
    assert_eq!(world.get::<B>(grandchild_entity), Some(&B(3)));
}

#[test]
fn hierarchical_bundle() {
    let mut world = World::default();

    let parent = world.spawn((A, child((A, B(17))))).id();
    world.flush();

    assert!(!world.entity(parent).contains::<Child<(A, B)>>());
    assert!(world.entity(parent).contains::<A>());
    assert!(!world.entity(parent).contains::<B>());

    let children = world.get::<Children>(parent).unwrap();
    assert_eq!(children.len(), 1);

    let child_entity = children[0];
    assert_eq!(world.get::<A>(child_entity), Some(&A));
    assert_eq!(world.get::<B>(child_entity), Some(&B(17)));
}

#[test]
fn command_form() {
    fn spawn_with_child(mut commands: Commands) -> Entity {
        commands.spawn((A, child(B(5)))).id()
    }

    let mut world = World::new();
    let parent = world.run_system_once(spawn_with_child);

    assert!(!world.entity(parent).contains::<Child<B>>());
    assert!(world.entity(parent).contains::<A>());
    assert!(!world.entity(parent).contains::<B>());

    let children = world.get::<Children>(parent).unwrap();
    assert_eq!(children.len(), 1);

    let child_entity = children[0];
    assert_eq!(world.get::<B>(child_entity), Some(&B(5)));
}

#[test]
fn markers_that_differ_in_tag_alone_coexist() {
    let mut world = World::default();

    let parent = world
        .spawn((
            Child::<B, 1>(spawn_repeated_child(B(10))),
            Child::<B, 2>(spawn_repeated_child(B(20))),
        ))
        .id();
    world.flush();

    let children = world.get::<Children>(parent).unwrap();
    assert_eq!(children.len(), 2);
    assert_eq!(world.get::<B>(children[0]), Some(&B(10)));
    assert_eq!(world.get::<B>(children[1]), Some(&B(20)));
}

#[test]
fn empty_producer_yields_no_children() {
    let mut world = World::default();

    let parent = world.spawn((A, brood(Vec::<B>::new()))).id();
    world.flush();

    assert!(!world.entity(parent).contains::<Brood<B, std::vec::IntoIter<B>>>());
    assert!(world.get::<Children>(parent).is_none());
}

#[test]
fn slots_expand_in_slot_order_skipping_empty_ones() {
    let mut world = World::default();

    let both = Slots(spawn_slotted_children(
        Some(Name("first")),
        Some(B(2)),
        None,
        None,
        None,
        None,
        None,
        None,
    ));
    let parent = world.spawn(both).id();
    world.flush();
    let children = world.get::<Children>(parent).unwrap();
    assert_eq!(children.len(), 2);
    assert_eq!(world.get::<Name>(children[0]), Some(&Name("first")));
    assert_eq!(world.get::<B>(children[1]), Some(&B(2)));

    let second_only: Slots<Name, B> =
        Slots(spawn_slotted_children(None, Some(B(9)), None, None, None, None, None, None));
    let parent = world.spawn(second_only).id();
    world.flush();
    let children = world.get::<Children>(parent).unwrap();
    assert_eq!(children.len(), 1);
    assert_eq!(world.get::<B>(children[0]), Some(&B(9)));
    assert!(!world.entity(parent).contains::<Slots<Name, B>>());
}

#[test]
fn maybe_some_is_replaced_by_its_payload() {
    let mut world = World::default();

    let entity = world.spawn((A, Perhaps(Maybe::new(B(4))))).id();
    world.flush();

    assert!(!world.entity(entity).contains::<Perhaps<B>>());
    assert_eq!(world.get::<B>(entity), Some(&B(4)));
    assert_eq!(world.get::<A>(entity), Some(&A));
    assert!(world.get::<Children>(entity).is_none());
}

#[test]
fn maybe_none_is_removed_and_adds_nothing() {
    let mut world = World::default();

    let entity = world.spawn((A, Perhaps(Maybe::<B>::none()))).id();
    world.flush();

    assert!(!world.entity(entity).contains::<Perhaps<B>>());
    assert!(!world.entity(entity).contains::<B>());
    assert!(world.entity(entity).contains::<A>());
}

#[test]
fn second_flush_changes_nothing() {
    let mut world = World::default();

    let parent = world.spawn((child(A), brood(vec![B(1), B(2)]))).id();
    world.flush();
    let before: Vec<Entity> = world.get::<Children>(parent).unwrap().iter().copied().collect();
    let count = world.entities().len();

    world.flush();

    let after: Vec<Entity> = world.get::<Children>(parent).unwrap().iter().copied().collect();
    assert_eq!(before, after);
    assert_eq!(before.len(), 3);
    assert_eq!(world.entities().len(), count);
}

#[test]
fn lookup_finds_live_entities_only() {
    let mut world = World::default();
    let entity = world.spawn(A).id();
    assert_eq!(answer_lookup::<A>(&world, entity), Reply::Found(true));
    world.despawn(entity);
    assert_eq!(answer_lookup::<A>(&world, entity), Reply::Found(false));
}

#[test]
fn link_appends_and_moves_to_the_end() {
    let mut world = World::default();
    let parent = world.spawn(A).id();
    let first = world.spawn(B(1)).id();
    let second = world.spawn(B(2)).id();

    assert_eq!(answer_link::<A>(&mut world, parent, first), Some(Reply::Linked));
    assert_eq!(answer_link::<A>(&mut world, parent, second), Some(Reply::Linked));
    let children: Vec<Entity> = world.get::<Children>(parent).unwrap().iter().copied().collect();
    assert_eq!(children, vec![first, second]);

    assert_eq!(answer_link::<A>(&mut world, parent, first), Some(Reply::Linked));
    let children: Vec<Entity> = world.get::<Children>(parent).unwrap().iter().copied().collect();
    assert_eq!(children, vec![second, first]);
}

#[test]
fn link_refuses_what_would_panic() {
    let mut world = World::default();
    let parent = world.spawn(A).id();
    let child = world.spawn(B(1)).id();
    let gone = world.spawn(B(2)).id();
    world.despawn(gone);

    assert_eq!(answer_link::<A>(&mut world, parent, parent), None);
    assert_eq!(answer_link::<A>(&mut world, parent, gone), None);
    assert_eq!(answer_link::<A>(&mut world, gone, child), None);
    assert!(world.get::<Children>(parent).is_none());
    assert_eq!(world.entities().len(), 2);
}

#[test]
fn destroyed_parent_is_found_missing() {
    let mut world = World::default();
    let parent = world.spawn_empty().id();
    let command: WithChildCommand<Entity, A, 0> = with_child_hook(parent);
    world.despawn(parent);

    let (mut run, request) = command.start();
    assert_eq!(request, Request::Lookup(parent));
    let end = run.step(answer_lookup(&world, parent));
    assert_eq!(end, Request::Finish(Err(Missing::Entity)));
    assert_eq!(
        MissingPolicy::Fatal.judge(command.kind(), Err(Missing::Entity)),
        Some("Parent entity not found")
    );
    assert_eq!(MissingPolicy::Ignore.judge(command.kind(), Err(Missing::Entity)), None);
}

#[test]
fn removed_marker_is_found_missing() {
    let mut world = World::default();
    let parent = world.spawn(A).id();
    let command: WithChildCommand<Entity, B, 0> = with_child_hook(parent);

    let (mut run, _) = command.start();
    assert_eq!(run.step(answer_lookup(&world, parent)), Request::Take(parent));
    let marker = world.entity_mut(parent).take::<Child<B>>();
    let end = run.step(WithChildCommand::<Entity, B, 0>::taken(marker.map(|held| held.0)));
    assert_eq!(end, Request::Finish(Err(Missing::Marker)));
    assert!(world.get::<Children>(parent).is_none());
    assert_eq!(world.entities().len(), 1);
}
