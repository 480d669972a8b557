//! What holds of the markers and their commands, whatever the payloads.
//!
//! Each law takes a store in which nothing waits, attaches markers to an
//! entity of it, which records their commands, flushes, and says what the
//! store holds then.

use crate::maybe::Maybe;
use crate::missing::{CommandKind, Missing};
use crate::slots::WithChildSlots;
use crate::store::{Bundle, Command, Key, Marker, Node, Store};
use crate::WithChildN;
use vstd::prelude::*;

verus! {

/// The numbers of `count` entities spawned one after the other from `first`
/// on.
pub open spec fn spawned_from(first: nat, count: nat) -> Seq<nat> {
    Seq::new(count, |i: int| (first + i) as nat)
}

/// A store in which nothing waits, and an entity of it that carries no marker
/// under `key` yet.
pub open spec fn ready<C>(store: Store<C>, entity: nat, key: Key) -> bool {
    &&& store.wf()
    &&& store.quiet()
    &&& store.alive(entity)
    &&& !store.carries(entity, key)
}

/// Attaching one marker to an entity on which its key is free puts the marker
/// on the entity and records one command for it, and nothing else.
proof fn lemma_attach_one<C>(store: Store<C>, entity: nat, key: Key, marker: Marker<C>)
    requires
        ready(store, entity, key),
    ensures
        ({
            let begun = store.attach(entity, Bundle::marker(key, marker));
            &&& begun.wf()
            &&& begun.next == store.next
            &&& begun.queue == seq![Command { entity, key }]
            &&& begun.entities == store.entities.insert(
                entity,
                Node {
                    markers: store.entities[entity].markers.insert(key, marker),
                    ..store.entities[entity]
                },
            )
        }),
{
    let bundle = Bundle::marker(key, marker);
    let filled = store.insert_data(entity, bundle.data);
    assert(store.entities[entity].data + bundle.data =~= store.entities[entity].data);
    assert(filled.entities =~= store.entities);
    assert(filled == store);
    let none = filled.attach_markers(entity, bundle.markers, 0);
    assert(none == store);
    let begun = store.attach(entity, bundle);
    assert(begun == none.attach_marker(entity, key, marker));
    assert(begun.queue =~= seq![Command { entity, key }]);
    assert(begun.entities.dom() =~= store.entities.dom());
}

/// Flushing leaves nothing on the queue.
pub proof fn law_flush_settles<C>(store: Store<C>)
    requires
        store.wf(),
    ensures
        store.flush().wf(),
        store.flush().quiet(),
{
    store.lemma_flush_frame(0);
}

/// Flushing a second time, right after a flush, changes nothing: no child is
/// spawned twice, and nothing is found gone.
pub proof fn law_flush_twice<C>(store: Store<C>)
    requires
        store.wf(),
    ensures
        store.flush().flush() == store.flush(),
{
    law_flush_settles(store);
}

/// Flushing a store in which nothing waits changes nothing.
pub proof fn law_flush_quiet<C>(store: Store<C>)
    requires
        store.wf(),
        store.quiet(),
    ensures
        store.flush() == store,
{
}

/// A command whose entity was destroyed before the flush finds the entity
/// gone and changes nothing; one whose marker was removed finds the marker
/// gone and changes nothing.
pub proof fn law_missing<C>(store: Store<C>, command: Command)
    ensures
        !store.alive(command.entity) ==> store.run(command) == (
            store,
            Err::<(), Missing>(Missing::Entity),
        ),
        store.alive(command.entity) && !store.carries(command.entity, command.key) ==> store.run(
            command,
        ) == (store, Err::<(), Missing>(Missing::Marker)),
{
    store.lemma_run(command);
}

/// Destroyed first. If the entity is destroyed after a marker was attached to
/// it and before the flush, the marker's command finds the entity gone, and
/// the flush spawns nothing and changes nothing.
pub proof fn law_destroyed_first<C>(store: Store<C>, entity: nat, key: Key, marker: Marker<C>)
    requires
        ready(store, entity, key),
    ensures
        ({
            let destroyed = store.attach(entity, Bundle::marker(key, marker)).despawn(entity);
            &&& destroyed.run(Command { entity, key }) == (
                Store { queue: destroyed.queue, ..store.despawn(entity) },
                Err::<(), Missing>(Missing::Entity),
            )
            &&& destroyed.flush() == store.despawn(entity)
        }),
{
    let begun = store.attach(entity, Bundle::marker(key, marker));
    lemma_attach_one(store, entity, key, marker);
    let destroyed = begun.despawn(entity);
    let command = Command { entity, key };
    assert(destroyed.entities =~= store.despawn(entity).entities);
    assert(destroyed.wf());
    destroyed.lemma_run(command);
    let rest = Store { queue: destroyed.queue.drop_first(), ..destroyed };
    rest.lemma_run(command);
    assert(rest.queue =~= store.queue);
    assert(rest == store.despawn(entity));
    assert(destroyed.advance() == rest);
    destroyed.lemma_advance();
    assert(destroyed.flush() == rest.flush());
}

/// Children in order. A marker that declares `payloads`, attached to
/// `entity` and flushed, is gone from the entity; the entity has none of the
/// payloads' components; its child list has grown by as many new entities as
/// there are payloads, in the order of the payloads; each new child has the
/// components of its payload, first of all it has; and no other entity that
/// was there has changed. Where the payloads hold no markers of their own,
/// the children are all that is new, and each is just its payload.
pub proof fn law_children_in_order<C>(
    store: Store<C>,
    entity: nat,
    key: Key,
    payloads: Seq<Bundle<C>>,
)
    requires
        ready(store, entity, key),
        key.kind != CommandKind::Maybe,
    ensures
        ({
            let after = store.attach(
                entity,
                Bundle::marker(key, Marker::Expand(payloads)),
            ).flush();
            &&& after.quiet()
            &&& after.alive(entity)
            &&& after.entities[entity] == store.entities[entity].with_children(
                store.entities[entity].children + spawned_from(store.next, payloads.len()),
            )
            &&& forall|x: nat|
                store.alive(x) && x != entity ==> after.alive(x) && #[trigger] after.entities[x]
                    == store.entities[x]
            &&& forall|i: int|
                0 <= i < payloads.len() ==> #[trigger] after.alive((store.next + i) as nat)
            &&& forall|i: int|
                0 <= i < payloads.len() ==> payloads[i].data.is_prefix_of(
                    (#[trigger] after.entities[(store.next + i) as nat]).data,
                )
            &&& Bundle::all_plain(payloads) ==> {
                &&& after.next == store.next + payloads.len()
                &&& forall|x: nat| #[trigger]
                    after.alive(x) <==> store.alive(x) || store.next <= x < after.next
                &&& forall|i: int|
                    0 <= i < payloads.len() ==> #[trigger] after.entities[(store.next + i) as nat]
                        == Node::<C>::bare().with_data(payloads[i].data)
            }
        }),
{
    let marker = Marker::Expand(payloads);
    let begun = store.attach(entity, Bundle::marker(key, marker));
    lemma_attach_one(store, entity, key, marker);
    let command = Command { entity, key };
    let rest = Store { queue: begun.queue.drop_first(), ..begun };
    assert(rest.queue =~= Seq::<Command>::empty());
    rest.lemma_run(command);
    let taken = rest.without_marker(entity, key);
    assert(taken.entities[entity].markers =~= store.entities[entity].markers);
    assert(taken.entities =~= store.entities);
    assert(taken.queue =~= store.queue);
    assert(taken == store);
    let mid = store.spawn_children(entity, payloads);
    assert(begun.advance() == mid);
    store.lemma_spawn_children(entity, payloads);
    assert(mid.queue.subrange(0, 0) =~= Seq::<Command>::empty());
    mid.lemma_flush_frame(store.next);
    let after = begun.flush();
    assert(after == mid.flush());
    assert(after.entities[entity] == mid.entities[entity]);
    assert(mid.entities[entity] == store.entities[entity].with_children(
        store.entities[entity].children + spawned_from(store.next, payloads.len()),
    ));
    assert forall|x: nat| store.alive(x) && x != entity implies after.alive(x)
        && #[trigger] after.entities[x] == store.entities[x] by {
        assert(mid.alive(x));
        assert(mid.entities[x] == store.entities[x]);
    }
    assert forall|i: int| 0 <= i < payloads.len() implies #[trigger] after.alive(
        (store.next + i) as nat,
    ) by {
        assert(mid.alive((store.next + i) as nat));
    }
    assert forall|i: int| 0 <= i < payloads.len() implies payloads[i].data.is_prefix_of(
        (#[trigger] after.entities[(store.next + i) as nat]).data,
    ) by {
        let child = (store.next + i) as nat;
        assert(mid.alive(child));
        assert(mid.entities[child].data == payloads[i].data);
    }
    if Bundle::all_plain(payloads) {
        assert(mid.quiet());
        assert(after == mid);
    }
}

/// One child. A marker that asks for a single child from `payload`, attached
/// to `entity` and flushed, is gone from the entity; the entity has none of
/// the payload's components; exactly one new entity is in its child list, at
/// the end; and that child has the payload's components. Where the payload
/// holds no markers of its own, the child is all that is new, and it is just
/// the payload.
pub proof fn law_single_child<C, const N: u8>(
    store: Store<C>,
    entity: nat,
    payload_type: nat,
    payload: Bundle<C>,
)
    requires
        ready(store, entity, Key { kind: CommandKind::WithChild, payload_type, tag: N }),
    ensures
        ({
            let key = Key { kind: CommandKind::WithChild, payload_type, tag: N };
            let marker = WithChildN::<Bundle<C>, N>(payload);
            let after = store.attach(
                entity,
                Bundle::marker(key, Marker::Expand(marker.payloads())),
            ).flush();
            &&& after.quiet()
            &&& !after.carries(entity, key)
            &&& after.entities[entity] == store.entities[entity].with_children(
                store.entities[entity].children.push(store.next),
            )
            &&& after.alive(store.next)
            &&& payload.data.is_prefix_of(after.entities[store.next].data)
            &&& payload.markers.len() == 0 ==> {
                &&& after.next == store.next + 1
                &&& after.entities[store.next] == Node::<C>::bare().with_data(payload.data)
            }
        }),
{
    let key = Key { kind: CommandKind::WithChild, payload_type, tag: N };
    let payloads = WithChildN::<Bundle<C>, N>(payload).payloads();
    law_children_in_order(store, entity, key, payloads);
    assert(store.entities[entity].children + spawned_from(store.next, 1)
        =~= store.entities[entity].children.push(store.next));
    let after = store.attach(entity, Bundle::marker(key, Marker::Expand(payloads))).flush();
    assert(after.alive((store.next + 0) as nat));
    assert(after.entities[(store.next + 0) as nat] == after.entities[store.next]);
    assert(payloads[0] == payload);
}

/// Slots in order. A marker with up to eight slots, attached to `entity` and
/// flushed, gives the entity as many new children as it has slots that hold
/// a payload, whichever slots are empty; the children come in the order of
/// their slots; and each has the components of the payload that its slot
/// held.
pub proof fn law_slots_in_order<C>(
    store: Store<C>,
    entity: nat,
    payload_type: nat,
    marker: WithChildSlots<
        Bundle<C>,
        Bundle<C>,
        Bundle<C>,
        Bundle<C>,
        Bundle<C>,
        Bundle<C>,
        Bundle<C>,
        Bundle<C>,
    >,
)
    requires
        ready(store, entity, Key { kind: CommandKind::WithChildSlots, payload_type, tag: 0 }),
    ensures
        ({
            let key = Key { kind: CommandKind::WithChildSlots, payload_type, tag: 0 };
            let declared = marker.payloads();
            let after = store.attach(
                entity,
                Bundle::marker(
                    key,
                    Marker::Expand(
                        marker.uniform_payloads(),
                    ),
                ),
            ).flush();
            &&& declared.len() == marker.present()
            &&& after.entities[entity] == store.entities[entity].with_children(
                store.entities[entity].children + spawned_from(store.next, marker.present()),
            )
            &&& forall|i: int, j: int|
                0 <= i < j < declared.len() ==> (#[trigger] declared[i]).slot() < (
                #[trigger] declared[j]).slot()
            &&& forall|i: int|
                0 <= i < declared.len() ==> marker.at((#[trigger] declared[i]).slot()) == Some(
                    declared[i],
                )
            &&& forall|i: int|
                0 <= i < declared.len() ==> #[trigger] after.alive((store.next + i) as nat)
            &&& forall|i: int|
                0 <= i < declared.len() ==> declared[i].payload().data.is_prefix_of(
                    (#[trigger] after.entities[(store.next + i) as nat]).data,
                )
        }),
{
    let key = Key { kind: CommandKind::WithChildSlots, payload_type, tag: 0 };
    let declared = marker.payloads();
    let payloads = marker.uniform_payloads();
    marker.lemma_payloads_follow_slots();
    law_children_in_order(store, entity, key, payloads);
    let after = store.attach(entity, Bundle::marker(key, Marker::Expand(payloads))).flush();
    assert(payloads.len() == declared.len());
    assert forall|i: int| 0 <= i < declared.len() implies declared[i].payload().data.is_prefix_of(
        (#[trigger] after.entities[(store.next + i) as nat]).data,
    ) by {
        assert(payloads.len() == declared.len());
        assert(payloads[i] == declared[i].payload());
        assert(payloads[i].data.is_prefix_of(after.entities[(store.next + i) as nat].data));
    }
    assert(payloads.len() == marker.present());
}

/// Replaced by what it wraps. A conditional insertion, attached to `entity`
/// and flushed, is gone from the entity; if it wrapped components, the entity
/// has them now, after those it had; if it wrapped nothing, the entity is as
/// it was. Nothing else in the store has changed.
pub proof fn law_maybe<C>(
    store: Store<C>,
    entity: nat,
    payload_type: nat,
    marker: Maybe<Seq<C>>,
)
    requires
        ready(store, entity, Key { kind: CommandKind::Maybe, payload_type, tag: 0 }),
    ensures
        ({
            let key = Key { kind: CommandKind::Maybe, payload_type, tag: 0 };
            let after = store.attach(
                entity,
                Bundle::marker(key, Marker::Insert(marker.0)),
            ).flush();
            &&& !after.carries(entity, key)
            &&& after == (match marker.0 {
                Some(data) => store.insert_data(entity, data),
                None => store,
            })
        }),
{
    let key = Key { kind: CommandKind::Maybe, payload_type, tag: 0 };
    let held = Marker::Insert(marker.0);
    let begun = store.attach(entity, Bundle::marker(key, held));
    lemma_attach_one(store, entity, key, held);
    let command = Command { entity, key };
    let rest = Store { queue: begun.queue.drop_first(), ..begun };
    assert(rest.queue =~= Seq::<Command>::empty());
    rest.lemma_run(command);
    let taken = rest.without_marker(entity, key);
    assert(taken.entities[entity].markers =~= store.entities[entity].markers);
    assert(taken.entities =~= store.entities);
    assert(taken.queue =~= store.queue);
    assert(taken == store);
    let mid = begun.advance();
    assert(mid == match marker.0 {
        Some(data) => store.insert_data(entity, data),
        None => store,
    });
    begun.lemma_advance();
    assert(mid.quiet());
    assert(begun.flush() == mid.flush());
}

/// Running the command at the front of the queue, where its marker is on
/// its entity and declares `payloads`: the marker leaves, and the children
/// arrive.
proof fn lemma_front_expands<C>(store: Store<C>, payloads: Seq<Bundle<C>>)
    requires
        store.wf(),
        !store.quiet(),
        store.queue[0].key.kind != CommandKind::Maybe,
        store.carries(store.queue[0].entity, store.queue[0].key),
        store.entities[store.queue[0].entity].markers[store.queue[0].key] == Marker::Expand(
            payloads,
        ),
    ensures
        ({
            let command = store.queue[0];
            let taken = Store { queue: store.queue.drop_first(), ..store }.without_marker(
                command.entity,
                command.key,
            );
            &&& taken.wf()
            &&& command.entity < taken.next
            &&& store.advance() == taken.spawn_children(command.entity, payloads)
        }),
{
    let command = store.queue[0];
    let rest = Store { queue: store.queue.drop_first(), ..store };
    rest.lemma_run(command);
    let taken = rest.without_marker(command.entity, command.key);
    assert(taken.entities.dom() =~= store.entities.dom());
    assert forall|i: int| 0 <= i < taken.queue.len() implies (#[trigger] taken.queue[i]).entity
        < taken.next by {
        assert(taken.queue[i] == store.queue[i + 1]);
    }
}

/// Spawning from a bundle of components and one marker adds the entity with
/// both, and records the marker's command.
proof fn lemma_spawn_with_marker<C>(store: Store<C>, data: Seq<C>, key: Key, marker: Marker<C>)
    requires
        store.wf(),
    ensures
        store.spawn(Bundle { data, markers: seq![(key, marker)] }) == (Store {
            entities: store.entities.insert(
                store.next,
                Node {
                    data,
                    markers: Map::<Key, Marker<C>>::empty().insert(key, marker),
                    children: Seq::empty(),
                },
            ),
            next: store.next + 1,
            queue: store.queue.push(Command { entity: store.next, key }),
        }),
{
    let bundle = Bundle { data, markers: seq![(key, marker)] };
    let made = Store {
        entities: store.entities.insert(store.next, Node::bare()),
        next: store.next + 1,
        ..store
    };
    let filled = made.insert_data(store.next, data);
    assert(Seq::<C>::empty() + data =~= data);
    let none = filled.attach_markers(store.next, bundle.markers, 0);
    assert(none == filled);
    let later = store.spawn(bundle);
    assert(later == none.attach_marker(store.next, key, marker));
    assert(!filled.carries(store.next, key));
    assert(later.entities =~= store.entities.insert(
        store.next,
        Node {
            data,
            markers: Map::<Key, Marker<C>>::empty().insert(key, marker),
            children: Seq::empty(),
        },
    ));
}

/// In the order of attachment. Two markers that each ask for a single child,
/// under different keys, attached to `entity` in one go and flushed, give the
/// entity two new children: first the child of the marker that was attached
/// first, then that of the other, whatever order the store keeps its markers
/// in.
pub proof fn law_attachment_order<C>(
    store: Store<C>,
    entity: nat,
    first: Key,
    second: Key,
    one: Bundle<C>,
    other: Bundle<C>,
)
    requires
        ready(store, entity, first),
        ready(store, entity, second),
        first != second,
        first.kind == CommandKind::WithChild,
        second.kind == CommandKind::WithChild,
    ensures
        ({
            let after = store.attach(
                entity,
                Bundle {
                    data: Seq::empty(),
                    markers: seq![
                        (first, Marker::Expand(seq![one])),
                        (second, Marker::Expand(seq![other])),
                    ],
                },
            ).flush();
            &&& after.quiet()
            &&& after.entities[entity] == store.entities[entity].with_children(
                store.entities[entity].children.push(store.next).push(store.next + 1),
            )
            &&& after.alive(store.next)
            &&& after.alive(store.next + 1)
            &&& one.data.is_prefix_of(after.entities[store.next].data)
            &&& other.data.is_prefix_of(after.entities[store.next + 1].data)
            &&& one.markers.len() == 0 && other.markers.len() == 0 ==> {
                &&& after.next == store.next + 2
                &&& after.entities[store.next] == Node::<C>::bare().with_data(one.data)
                &&& after.entities[store.next + 1] == Node::<C>::bare().with_data(other.data)
            }
        }),
{
    let held1 = Marker::Expand(seq![one]);
    let held2 = Marker::Expand(seq![other]);
    let bundle = Bundle::<C> { data: Seq::empty(), markers: seq![(first, held1), (second, held2)] };
    let old = store.entities[entity];
    let c1 = Command { entity, key: first };
    let c2 = Command { entity, key: second };
    // Attaching records both commands, in order.
    let filled = store.insert_data(entity, bundle.data);
    assert(old.data + bundle.data =~= old.data);
    assert(filled.entities =~= store.entities);
    assert(filled == store);
    let none = store.attach_markers(entity, bundle.markers, 0);
    let once = store.attach_markers(entity, bundle.markers, 1);
    assert(once == none.attach_marker(entity, first, held1));
    let begun = store.attach(entity, bundle);
    assert(begun == once.attach_marker(entity, second, held2));
    assert(begun.queue =~= seq![c1, c2]);
    assert(begun.entities.dom() =~= store.entities.dom());
    assert(begun.wf());
    // The first command.
    lemma_front_expands(begun, seq![one]);
    let taken1 = Store { queue: begun.queue.drop_first(), ..begun }.without_marker(entity, first);
    let mid1 = begun.advance();
    taken1.lemma_spawn_children(entity, seq![one]);
    assert(taken1.queue =~= seq![c2]);
    assert(mid1.queue[0] == mid1.queue.subrange(0, 1)[0]);
    assert(mid1.queue[0] == c2);
    assert(mid1.entities[entity].markers == taken1.entities[entity].markers);
    assert(mid1.alive(store.next));
    assert(mid1.entities[(taken1.next + 0) as nat].data == seq![one][0].data);
    // The second command.
    lemma_front_expands(mid1, seq![other]);
    let taken2 = Store { queue: mid1.queue.drop_first(), ..mid1 }.without_marker(entity, second);
    let mid2 = mid1.advance();
    taken2.lemma_spawn_children(entity, seq![other]);
    assert(begun.entities[entity].markers == old.markers.insert(first, held1).insert(
        second,
        held2,
    ));
    assert(taken1.entities[entity].markers == begun.entities[entity].markers.remove(first));
    assert(mid1.alive(entity));
    let rest2 = Store { queue: mid1.queue.drop_first(), ..mid1 };
    assert(rest2.carries(entity, second));
    assert(taken2 == rest2.without_marker(entity, second));
    assert(taken2.entities[entity].markers == mid1.entities[entity].markers.remove(second));
    assert(taken2.entities[entity].markers =~= old.markers);
    assert(mid2.entities[(taken2.next + 0) as nat].data == seq![other][0].data);
    assert(taken2.alive(store.next));
    assert(mid2.entities[store.next] == mid1.entities[store.next]);
    assert(mid2.entities[entity].children =~= old.children.push(store.next).push(store.next + 1))
        by {
        assert(spawned_from(taken1.next, 1) =~= seq![store.next]);
        assert(Seq::new(1, |i: int| (taken1.next + i) as nat) =~= seq![store.next]);
        assert(Seq::new(1, |i: int| (taken2.next + i) as nat) =~= seq![(store.next + 1) as nat]);
    }
    assert(mid2.entities[entity] == old.with_children(
        old.children.push(store.next).push(store.next + 1),
    ));
    // What is left names new entities only.
    assert forall|i: int| 0 <= i < mid2.queue.len() implies store.next <= (
    #[trigger] mid2.queue[i]).entity by {
        if i < taken2.queue.len() {
            assert(mid2.queue[i] == mid2.queue.subrange(0, taken2.queue.len() as int)[i]);
            assert(taken2.queue[i] == mid1.queue[i + 1]);
        }
    }
    mid1.lemma_advance();
    mid2.lemma_flush_frame(store.next);
    let after = begun.flush();
    assert(after == mid1.flush());
    assert(after == mid2.flush());
    assert(mid2.alive(store.next) && mid2.alive(store.next + 1));
    assert(mid2.entities[store.next].data.is_prefix_of(after.entities[store.next].data));
    assert(mid2.entities[store.next + 1].data.is_prefix_of(after.entities[store.next + 1].data));
    if one.markers.len() == 0 && other.markers.len() == 0 {
        assert(Bundle::all_plain(seq![one]));
        assert(Bundle::all_plain(seq![other]));
        assert(mid1.queue == taken1.queue);
        assert(taken2.queue =~= Seq::<Command>::empty());
        assert(mid2.quiet());
        assert(after == mid2);
        assert(mid1.entities[(taken1.next + 0) as nat] == Node::<C>::bare().with_data(
            seq![one][0].data,
        ));
        assert(mid2.entities[(taken2.next + 0) as nat] == Node::<C>::bare().with_data(
            seq![other][0].data,
        ));
    }
}

/// Nesting. A marker that asks for a single child, whose payload holds a
/// marker that asks for a single child in turn, attached to `entity` and
/// flushed once, gives the entity one new child with the components of the
/// outer payload, and gives that child one child of its own with the
/// components of the inner payload.
pub proof fn law_nesting<C>(
    store: Store<C>,
    entity: nat,
    outer: Key,
    inner: Key,
    data: Seq<C>,
    grandchild: Bundle<C>,
)
    requires
        ready(store, entity, outer),
        outer.kind == CommandKind::WithChild,
        inner.kind == CommandKind::WithChild,
    ensures
        ({
            let child = Bundle { data, markers: seq![(inner, Marker::Expand(seq![grandchild]))] };
            let after = store.attach(
                entity,
                Bundle::marker(outer, Marker::Expand(seq![child])),
            ).flush();
            &&& after.quiet()
            &&& after.entities[entity] == store.entities[entity].with_children(
                store.entities[entity].children.push(store.next),
            )
            &&& after.alive(store.next)
            &&& after.entities[store.next] == Node::<C>::bare().with_data(data).with_children(
                seq![(store.next + 1) as nat],
            )
            &&& after.alive(store.next + 1)
            &&& grandchild.data.is_prefix_of(after.entities[store.next + 1].data)
            &&& grandchild.markers.len() == 0 ==> {
                &&& after.next == store.next + 2
                &&& after.entities[store.next + 1] == Node::<C>::bare().with_data(
                    grandchild.data,
                )
            }
        }),
{
    let held = Marker::Expand(seq![grandchild]);
    let child = Bundle { data, markers: seq![(inner, held)] };
    let marker = Marker::Expand(seq![child]);
    let begun = store.attach(entity, Bundle::marker(outer, marker));
    let old = store.entities[entity];
    let born = store.next;
    lemma_attach_one(store, entity, outer, marker);
    // The outer command: the child arrives, with the inner marker on it.
    lemma_front_expands(begun, seq![child]);
    let taken1 = Store { queue: begun.queue.drop_first(), ..begun }.without_marker(entity, outer);
    assert(taken1.entities[entity].markers =~= old.markers);
    assert(taken1.entities =~= store.entities);
    assert(taken1.queue =~= store.queue);
    assert(taken1 == store);
    lemma_spawn_with_marker(store, data, inner, held);
    let spawned = store.spawn(child);
    let linked = spawned.link(entity, born);
    let mid1 = begun.advance();
    assert(seq![child].drop_first() =~= Seq::<Bundle<C>>::empty());
    assert(mid1 == linked.spawn_children(entity, seq![child].drop_first()));
    assert(mid1 == linked);
    assert(mid1.queue =~= seq![Command { entity: born, key: inner }]);
    assert(mid1.wf()) by {
        assert(mid1.entities.dom() =~= store.entities.dom().insert(born));
    }
    // The inner command: the grandchild arrives.
    lemma_front_expands(mid1, seq![grandchild]);
    let taken2 = Store { queue: mid1.queue.drop_first(), ..mid1 }.without_marker(born, inner);
    let mid2 = mid1.advance();
    taken2.lemma_spawn_children(born, seq![grandchild]);
    assert(taken2.queue =~= Seq::<Command>::empty());
    assert(taken2.entities[born].markers =~= Map::<Key, Marker<C>>::empty());
    assert(mid2.entities[born].children =~= seq![(born + 1) as nat]) by {
        assert(Seq::new(1, |i: int| (taken2.next + i) as nat) =~= seq![(born + 1) as nat]);
    }
    assert(mid2.entities[born] == Node::<C>::bare().with_data(data).with_children(
        seq![(born + 1) as nat],
    ));
    assert(taken2.alive(entity));
    assert(mid2.entities[entity] == old.with_children(old.children.push(born)));
    assert(mid2.entities[(taken2.next + 0) as nat].data == seq![grandchild][0].data);
    assert forall|i: int| 0 <= i < mid2.queue.len() implies born + 1 <= (
    #[trigger] mid2.queue[i]).entity by {}
    mid1.lemma_advance();
    mid2.lemma_flush_frame(born + 1);
    let after = begun.flush();
    assert(after == mid1.flush());
    assert(after == mid2.flush());
    assert(mid2.alive(born + 1));
    assert(mid2.entities[born + 1].data.is_prefix_of(after.entities[born + 1].data));
    if grandchild.markers.len() == 0 {
        assert(Bundle::all_plain(seq![grandchild]));
        assert(mid2.quiet());
        assert(after == mid2);
        assert(mid2.entities[(taken2.next + 0) as nat] == Node::<C>::bare().with_data(
            seq![grandchild][0].data,
        ));
    }
}

} // verus!
