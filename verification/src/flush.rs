//! What a run of a command comes to, all requests taken together, and the
//! flush that runs the queue until nothing is left on it.

use crate::expansion::{ExpansionView, Phase, ReplyView, Request};
use crate::maybe::{Maybe, MaybeReply, MaybeRequest, SubstitutionView};
use crate::missing::{CommandKind, Missing};
use crate::store::{Bundle, Command, Key, Marker, Node, Store};
use vstd::prelude::*;

verus! {

impl<C> Store<C> {
    /// Spawns one child of `parent` from each of `payloads`, in order, and
    /// links each as soon as it is spawned.
    pub open spec fn spawn_children(self, parent: nat, payloads: Seq<Bundle<C>>) -> Self
        decreases payloads.len(),
    {
        if payloads.len() == 0 {
            self
        } else {
            self.spawn(payloads[0]).link(parent, self.next).spawn_children(
                parent,
                payloads.drop_first(),
            )
        }
    }

    /// What the run of an expansion comes to: nothing if the entity or the
    /// marker is gone, else the marker leaves and its children arrive.
    pub open spec fn expanded(self, command: Command) -> (Self, Result<(), Missing>) {
        if !self.alive(command.entity) {
            (self, Err(Missing::Entity))
        } else if !self.carries(command.entity, command.key) {
            (self, Err(Missing::Marker))
        } else {
            match self.entities[command.entity].markers[command.key] {
                Marker::Expand(payloads) => (
                    self.without_marker(command.entity, command.key).spawn_children(
                        command.entity,
                        payloads,
                    ),
                    Ok(()),
                ),
                Marker::Insert(_) => (self, Err(Missing::Marker)),
            }
        }
    }

    /// What the run of a substitution comes to: nothing if the entity or the
    /// marker is gone, else the marker leaves and what it wrapped, if
    /// anything, arrives on the same entity.
    pub open spec fn substituted(self, command: Command) -> (Self, Result<(), Missing>) {
        if !self.alive(command.entity) {
            (self, Err(Missing::Entity))
        } else if !self.carries(command.entity, command.key) {
            (self, Err(Missing::Marker))
        } else {
            match self.entities[command.entity].markers[command.key] {
                Marker::Insert(Some(payload)) => (
                    self.without_marker(command.entity, command.key).insert_data(
                        command.entity,
                        payload,
                    ),
                    Ok(()),
                ),
                Marker::Insert(None) => (
                    self.without_marker(command.entity, command.key),
                    Ok(()),
                ),
                Marker::Expand(_) => (self, Err(Missing::Marker)),
            }
        }
    }

    /// Once the marker is taken, the machine hands out its payloads one by
    /// one, each spawned and linked before the next, and then ends well.
    pub proof fn lemma_expand_pending(self, key: Key, parent: nat, payloads: Seq<Bundle<C>>)
        ensures
            ({
                let taken = ExpansionView { parent, phase: Phase::Take, pending: payloads };
                self.expand(key, taken.proceed().0, taken.proceed().1)
            }) == (self.spawn_children(parent, payloads), Ok::<(), Missing>(())),
        decreases payloads.len(),
    {
        let taken = ExpansionView { parent, phase: Phase::Take, pending: payloads };
        if payloads.len() > 0 {
            let rest = payloads.drop_first();
            let spawning = taken.proceed().0;
            let spawned = self.spawn(payloads[0]);
            let linking = spawning.step(ReplyView::Spawned(self.next)).0;
            let linked = spawned.link(parent, self.next);
            let again = ExpansionView { parent, phase: Phase::Take, pending: rest };
            assert(linking.step(ReplyView::Linked) == again.proceed());
            linked.lemma_expand_pending(key, parent, rest);
            assert(self.expand(key, spawning, taken.proceed().1) == spawned.expand(
                key,
                linking,
                Request::Link { parent, child: self.next },
            ));
            assert(spawned.expand(key, linking, Request::Link { parent, child: self.next })
                == linked.expand(key, again.proceed().0, again.proceed().1));
        }
    }

    /// The run of a command, request by request, comes to what `expanded`
    /// and `substituted` say.
    pub proof fn lemma_run(self, command: Command)
        ensures
            command.key.kind != CommandKind::Maybe ==> self.run(command) == self.expanded(command),
            command.key.kind == CommandKind::Maybe ==> self.run(command) == self.substituted(
                command,
            ),
    {
        let entity = command.entity;
        let key = command.key;
        if key.kind == CommandKind::Maybe {
            let begun = SubstitutionView::initial(entity);
            let (looked, take) = begun.step(MaybeReply::<Seq<C>>::Found(self.alive(entity)));
            assert(self.run(command) == self.substitute(key, looked, take));
            if self.alive(entity) {
                let (store, reply) = self.answer_maybe(key, take);
                let (took, then) = looked.step(reply);
                assert(self.substitute(key, looked, take) == store.substitute(key, took, then));
                if let MaybeRequest::Insert { entity: onto, payload } = then {
                    let (after, done) = store.answer_maybe(key, then);
                    let (ended, finish) = took.step(done);
                    assert(store.substitute(key, took, then) == after.substitute(
                        key,
                        ended,
                        finish,
                    ));
                }
            }
        } else {
            let begun = ExpansionView::<nat, Bundle<C>>::initial(entity);
            let (looked, take) = begun.step(ReplyView::Found(self.alive(entity)));
            assert(self.run(command) == self.expand(key, looked, take));
            if self.alive(entity) {
                let (store, reply) = self.answer(key, take);
                let (took, then) = looked.step(reply);
                assert(self.expand(key, looked, take) == store.expand(key, took, then));
                if let ReplyView::Taken(Some(payloads)) = reply {
                    store.lemma_expand_pending(key, entity, payloads);
                    let taken = ExpansionView { parent: entity, phase: Phase::Take, pending: payloads };
                    assert(looked.step(reply) == taken.proceed());
                }
            }
        }
    }
}

impl<C> Marker<C> {
    /// How many commands will be recorded, all told, once this marker is
    /// expanded: those of the markers in its payloads, and of the markers in
    /// theirs, and so on.
    pub open spec fn offspring(self) -> nat
        decreases self,
    {
        match self {
            Marker::Expand(payloads) => Bundle::offspring_of_all(payloads),
            Marker::Insert(_) => 0,
        }
    }
}

impl<C> Bundle<C> {
    /// How many commands will be recorded, all told, once this bundle is
    /// attached: one for each of its markers, and the offspring of each.
    pub open spec fn offspring(self) -> nat
        decreases self,
    {
        Self::offspring_of_markers(self.markers, self.markers.len())
    }

    /// The same for the first `upto` of `markers`.
    pub open spec fn offspring_of_markers(markers: Seq<(Key, Marker<C>)>, upto: nat) -> nat
        decreases markers, upto,
    {
        if upto == 0 || upto > markers.len() {
            0
        } else {
            Self::offspring_of_markers(markers, (upto - 1) as nat) + 1 + markers[upto
                - 1].1.offspring()
        }
    }

    /// Whether none of `bundles` holds a marker.
    pub open spec fn all_plain(bundles: Seq<Bundle<C>>) -> bool {
        forall|i: int| 0 <= i < bundles.len() ==> (#[trigger] bundles[i]).markers.len() == 0
    }

    /// The same for all of `bundles` together.
    pub open spec fn offspring_of_all(bundles: Seq<Bundle<C>>) -> nat
        decreases bundles,
    {
        if bundles.len() == 0 {
            0
        } else {
            bundles[0].offspring() + Self::offspring_of_all(bundles.drop_first())
        }
    }
}

impl<C> Store<C> {
    /// How many commands the run of `command` will cause to be recorded, all
    /// told: the offspring of its marker, if that is still there.
    pub open spec fn offspring_of(self, command: Command) -> nat {
        if self.carries(command.entity, command.key) {
            self.entities[command.entity].markers[command.key].offspring()
        } else {
            0
        }
    }

    /// How many commands are still to run before `commands` and all that they
    /// cause are done.
    pub open spec fn work(self, commands: Seq<Command>) -> nat
        decreases commands.len(),
    {
        if commands.len() == 0 {
            0
        } else {
            self.work(commands.drop_last()) + 1 + self.offspring_of(commands.last())
        }
    }

    proof fn lemma_work_concat(self, front: Seq<Command>, back: Seq<Command>)
        ensures
            self.work(front + back) == self.work(front) + self.work(back),
        decreases back.len(),
    {
        if back.len() == 0 {
            assert(front + back =~= front);
        } else {
            self.lemma_work_concat(front, back.drop_last());
            assert((front + back).drop_last() =~= front + back.drop_last());
            assert((front + back).last() == back.last());
        }
    }

    proof fn lemma_work_shrinks(self, other: Self, commands: Seq<Command>)
        requires
            forall|i: int|
                0 <= i < commands.len() ==> other.offspring_of(#[trigger] commands[i])
                    <= self.offspring_of(commands[i]),
        ensures
            other.work(commands) <= self.work(commands),
        decreases commands.len(),
    {
        if commands.len() > 0 {
            let fewer = commands.drop_last();
            assert forall|i: int| 0 <= i < fewer.len() implies other.offspring_of(
                #[trigger] fewer[i],
            ) <= self.offspring_of(fewer[i]) by {
                assert(fewer[i] == commands[i]);
            }
            self.lemma_work_shrinks(other, fewer);
            assert(commands.last() == commands[commands.len() - 1]);
        }
    }
}

impl<C> Store<C> {
    /// The commands recorded since `earlier`.
    pub open spec fn recorded_since(self, earlier: Self) -> Seq<Command> {
        self.queue.subrange(earlier.queue.len() as int, self.queue.len() as int)
    }

    /// Whether this store has all the commands of `earlier` at the front of
    /// its queue, in the same order.
    pub open spec fn queue_extends(self, earlier: Self) -> bool {
        &&& earlier.queue.len() <= self.queue.len()
        &&& self.queue.subrange(0, earlier.queue.len() as int) == earlier.queue
    }

    proof fn lemma_work_same(self, other: Self, commands: Seq<Command>)
        requires
            forall|i: int|
                0 <= i < commands.len() ==> other.offspring_of(#[trigger] commands[i])
                    == self.offspring_of(commands[i]),
        ensures
            other.work(commands) == self.work(commands),
    {
        self.lemma_work_shrinks(other, commands);
        other.lemma_work_shrinks(self, commands);
    }

    /// Attaching markers to an entity changes the markers of that entity
    /// alone, and none that it carried; it records commands for that entity
    /// alone, behind those already recorded; and the work recorded is no more
    /// than the offspring of the markers.
    proof fn lemma_attach_markers(self, entity: nat, markers: Seq<(Key, Marker<C>)>, upto: nat)
        requires
            self.alive(entity),
            upto <= markers.len(),
        ensures
            ({
                let later = self.attach_markers(entity, markers, upto);
                &&& later.next == self.next
                &&& later.entities.dom() == self.entities.dom()
                &&& forall|x: nat|
                    x != entity && self.alive(x) ==> #[trigger] later.entities[x]
                        == self.entities[x]
                &&& later.entities[entity].data == self.entities[entity].data
                &&& later.entities[entity].children == self.entities[entity].children
                &&& forall|k: Key| #[trigger]
                    self.carries(entity, k) ==> later.carries(entity, k)
                        && later.entities[entity].markers[k] == self.entities[entity].markers[k]
                &&& later.queue_extends(self)
                &&& forall|i: int|
                    self.queue.len() <= i < later.queue.len() ==> (#[trigger] later.queue[i]).entity
                        == entity && later.carries(entity, later.queue[i].key)
                &&& later.work(later.recorded_since(self)) <= Bundle::offspring_of_markers(
                    markers,
                    upto,
                )
            }),
        decreases upto,
    {
        let later = self.attach_markers(entity, markers, upto);
        if upto == 0 {
            assert(later.queue.subrange(0, self.queue.len() as int) =~= self.queue);
        } else {
            let fewer = (upto - 1) as nat;
            let mid = self.attach_markers(entity, markers, fewer);
            self.lemma_attach_markers(entity, markers, fewer);
            let key = markers[upto - 1].0;
            let marker = markers[upto - 1].1;
            assert(later == mid.attach_marker(entity, key, marker));
            if mid.carries(entity, key) {
                assert(later == mid);
            } else {
                let command = Command { entity, key };
                let before = mid.recorded_since(self);
                let after = later.recorded_since(self);
                assert(later.queue == mid.queue.push(command));
                assert(after =~= before.push(command));
                assert(after.drop_last() =~= before);
                assert(later.queue.subrange(0, self.queue.len() as int) =~= mid.queue.subrange(
                    0,
                    self.queue.len() as int,
                ));
                assert(later.entities.dom() =~= mid.entities.dom());
                assert forall|i: int| 0 <= i < before.len() implies later.offspring_of(
                    #[trigger] before[i],
                ) == mid.offspring_of(before[i]) by {
                    assert(before[i] == mid.queue[self.queue.len() + i]);
                }
                mid.lemma_work_same(later, before);
                assert(later.offspring_of(command) == marker.offspring());
                assert forall|i: int| self.queue.len() <= i < later.queue.len() implies (
                #[trigger] later.queue[i]).entity == entity && later.carries(
                    entity,
                    later.queue[i].key,
                ) by {
                    if i < mid.queue.len() {
                        assert(later.queue[i] == mid.queue[i]);
                    }
                }
            }
        }
    }
}

impl<C> Store<C> {
    /// Spawning leaves every entity that was there as it was, and adds one
    /// under the next number, with the bundle's components; it records
    /// commands for that entity alone, and no more work than the offspring of
    /// the bundle.
    proof fn lemma_spawn(self, bundle: Bundle<C>)
        requires
            self.wf(),
        ensures
            ({
                let later = self.spawn(bundle);
                &&& later.wf()
                &&& later.next == self.next + 1
                &&& later.entities.dom() == self.entities.dom().insert(self.next)
                &&& forall|x: nat| self.alive(x) ==> #[trigger] later.entities[x] == self.entities[x]
                &&& later.entities[self.next].data == bundle.data
                &&& later.entities[self.next].children == Seq::<nat>::empty()
                &&& later.queue_extends(self)
                &&& forall|i: int|
                    self.queue.len() <= i < later.queue.len() ==> (#[trigger] later.queue[i]).entity
                        == self.next
                &&& later.work(later.recorded_since(self)) <= bundle.offspring()
                &&& bundle.markers.len() == 0 ==> later.queue == self.queue
                    && later.entities[self.next] == Node::<C>::bare().with_data(bundle.data)
            }),
    {
        let made = Store {
            entities: self.entities.insert(self.next, Node::bare()),
            next: self.next + 1,
            ..self
        };
        let filled = made.insert_data(self.next, bundle.data);
        let later = self.spawn(bundle);
        assert(later == filled.attach_markers(self.next, bundle.markers, bundle.markers.len()));
        filled.lemma_attach_markers(self.next, bundle.markers, bundle.markers.len());
        assert(filled.entities[self.next].data =~= bundle.data);
        assert(filled.entities[self.next] == Node::<C>::bare().with_data(bundle.data));
        assert(later.entities.dom() =~= self.entities.dom().insert(self.next));
        assert(later.recorded_since(self) == later.recorded_since(filled));
        assert forall|i: int| 0 <= i < later.queue.len() implies (#[trigger] later.queue[i]).entity
            < later.next by {
            if i < self.queue.len() {
                assert(later.queue[i] == later.queue.subrange(0, self.queue.len() as int)[i]);
            }
        }
    }

    /// Spawning children leaves every entity that was there as it was, but
    /// for the parent, whose child list grows by the new entities in order;
    /// it adds one entity per payload, numbered from the next number on, with
    /// that payload's components; it records commands for the new entities
    /// alone, and no more work than the offspring of the payloads.
    pub proof fn lemma_spawn_children(self, parent: nat, payloads: Seq<Bundle<C>>)
        requires
            self.wf(),
            parent < self.next,
        ensures
            ({
                let later = self.spawn_children(parent, payloads);
                &&& later.wf()
                &&& later.next == self.next + payloads.len()
                &&& forall|x: nat| #[trigger]
                    later.alive(x) <==> self.alive(x) || self.next <= x < later.next
                &&& forall|x: nat|
                    self.alive(x) && x != parent ==> #[trigger] later.entities[x]
                        == self.entities[x]
                &&& self.alive(parent) ==> {
                    &&& later.entities[parent].data == self.entities[parent].data
                    &&& later.entities[parent].markers == self.entities[parent].markers
                    &&& later.entities[parent].children == self.entities[parent].children
                        + Seq::new(payloads.len(), |i: int| (self.next + i) as nat)
                }
                &&& forall|i: int|
                    0 <= i < payloads.len() ==> {
                        &&& (#[trigger] later.entities[(self.next + i) as nat]).data
                            == payloads[i].data
                        &&& later.entities[(self.next + i) as nat].children == Seq::<nat>::empty()
                    }
                &&& later.queue_extends(self)
                &&& forall|i: int|
                    self.queue.len() <= i < later.queue.len() ==> self.next <= (
                    #[trigger] later.queue[i]).entity
                &&& later.work(later.recorded_since(self)) <= Bundle::offspring_of_all(payloads)
                &&& Bundle::all_plain(payloads) ==> {
                    &&& later.queue == self.queue
                    &&& forall|i: int|
                        0 <= i < payloads.len() ==> #[trigger] later.entities[(self.next + i) as nat]
                            == Node::<C>::bare().with_data(payloads[i].data)
                }
            }),
        decreases payloads.len(),
    {
        let later = self.spawn_children(parent, payloads);
        if payloads.len() == 0 {
            assert(later.queue.subrange(0, self.queue.len() as int) =~= self.queue);
            if self.alive(parent) {
                assert(self.entities[parent].children + Seq::new(
                    payloads.len(),
                    |i: int| (self.next + i) as nat,
                ) =~= self.entities[parent].children);
            }
        } else {
            let rest = payloads.drop_first();
            let first = self.spawn(payloads[0]);
            let linked = first.link(parent, self.next);
            self.lemma_spawn(payloads[0]);
            assert(linked.wf()) by {
                assert(linked.queue == first.queue);
                assert(linked.entities.dom() =~= first.entities.dom());
            }
            linked.lemma_spawn_children(parent, rest);
            assert(later == linked.spawn_children(parent, rest));
            // The queue: what the first child recorded, then what the others did.
            let part1 = linked.recorded_since(self);
            let part2 = later.recorded_since(linked);
            assert(later.queue.subrange(0, self.queue.len() as int) =~= self.queue) by {
                assert forall|i: int| 0 <= i < self.queue.len() implies later.queue[i]
                    == self.queue[i] by {
                    assert(later.queue[i] == later.queue.subrange(0, linked.queue.len() as int)[i]);
                    assert(first.queue[i] == first.queue.subrange(0, self.queue.len() as int)[i]);
                }
            }
            assert(later.recorded_since(self) =~= part1 + part2) by {
                assert forall|i: int| 0 <= i < part1.len() implies later.recorded_since(self)[i]
                    == part1[i] by {
                    assert(later.queue[self.queue.len() + i] == later.queue.subrange(
                        0,
                        linked.queue.len() as int,
                    )[self.queue.len() + i]);
                }
            }
            later.lemma_work_concat(part1, part2);
            assert forall|i: int| 0 <= i < part1.len() implies later.offspring_of(
                #[trigger] part1[i],
            ) == first.offspring_of(part1[i]) by {
                assert(part1[i] == first.queue[self.queue.len() + i]);
                assert(part1[i].entity == self.next);
                assert(linked.alive(self.next));
                assert(later.entities[self.next] == linked.entities[self.next]);
            }
            first.lemma_work_same(later, part1);
            assert(part1 == first.recorded_since(self));
            assert forall|i: int| self.queue.len() <= i < later.queue.len() implies self.next <= (
            #[trigger] later.queue[i]).entity by {
                if i < linked.queue.len() {
                    assert(later.queue[i] == later.queue.subrange(0, linked.queue.len() as int)[i]);
                    assert(linked.queue[i] == first.queue[i]);
                }
            }
            // The entities.
            assert forall|x: nat| #[trigger]
                later.alive(x) <==> self.alive(x) || self.next <= x < later.next by {
                assert(linked.alive(x) <==> first.alive(x));
            }
            assert forall|x: nat| self.alive(x) && x != parent implies #[trigger] later.entities[x]
                == self.entities[x] by {
                assert(linked.alive(x));
                assert(linked.entities[x] == first.entities[x]);
            }
            if self.alive(parent) {
                assert(linked.alive(parent));
                assert(first.entities[parent] == self.entities[parent]);
                assert(linked.entities[parent].children == self.entities[parent].children.push(
                    self.next,
                ));
                assert(later.entities[parent].children =~= self.entities[parent].children
                    + Seq::new(payloads.len(), |i: int| (self.next + i) as nat));
            }
            assert forall|i: int| 0 <= i < payloads.len() implies {
                &&& (#[trigger] later.entities[(self.next + i) as nat]).data == payloads[i].data
                &&& later.entities[(self.next + i) as nat].children == Seq::<nat>::empty()
            } by {
                if i == 0 {
                    assert(linked.alive(self.next));
                    assert(linked.entities[self.next] == first.entities[self.next]);
                    assert(later.entities[self.next] == linked.entities[self.next]);
                } else {
                    assert(later.entities[(linked.next + (i - 1)) as nat].data == rest[i - 1].data);
                }
            }
            if Bundle::all_plain(payloads) {
                assert(payloads[0].markers.len() == 0);
                assert(Bundle::all_plain(rest)) by {
                    assert forall|i: int| 0 <= i < rest.len() implies (#[trigger] rest[i]).markers.len()
                        == 0 by {
                        assert(rest[i] == payloads[i + 1]);
                    }
                }
                assert forall|i: int| 0 <= i < payloads.len() implies #[trigger] later.entities[(
                self.next + i) as nat] == Node::<C>::bare().with_data(payloads[i].data) by {
                    if i == 0 {
                        assert(linked.alive(self.next));
                        assert(linked.entities[self.next] == first.entities[self.next]);
                        assert(later.entities[self.next] == linked.entities[self.next]);
                    } else {
                        assert(later.entities[(linked.next + (i - 1)) as nat] == Node::<
                            C,
                        >::bare().with_data(rest[i - 1].data));
                    }
                }
            }
        }
    }
}

impl<C> Store<C> {
    /// How many commands are still to run before the queue and all that it
    /// causes are done.
    pub open spec fn pending_work(self) -> nat {
        self.work(self.queue)
    }

    /// Running the oldest command leaves less work than there was.
    pub proof fn lemma_advance(self)
        requires
            self.wf(),
            !self.quiet(),
        ensures
            self.advance().wf(),
            self.advance().pending_work() < self.pending_work(),
    {
        let command = self.queue[0];
        let entity = command.entity;
        let key = command.key;
        let rest = Store { queue: self.queue.drop_first(), ..self };
        let later = self.advance();
        rest.lemma_run(command);
        assert(rest.wf()) by {
            assert forall|i: int| 0 <= i < rest.queue.len() implies (#[trigger] rest.queue[i]).entity
                < rest.next by {
                assert(rest.queue[i] == self.queue[i + 1]);
            }
        }
        assert(self.pending_work() == 1 + self.offspring_of(command) + rest.pending_work()) by {
            let first = seq![command];
            assert(self.queue =~= first + rest.queue);
            self.lemma_work_concat(first, rest.queue);
            assert(first.drop_last() =~= Seq::<Command>::empty());
            assert(self.work(first) == self.work(first.drop_last()) + 1 + self.offspring_of(
                first.last(),
            ));
            assert forall|i: int| 0 <= i < rest.queue.len() implies rest.offspring_of(
                #[trigger] rest.queue[i],
            ) == self.offspring_of(rest.queue[i]) by {}
            self.lemma_work_same(rest, rest.queue);
        }
        let taken = rest.without_marker(entity, key);
        assert(taken.wf()) by {
            assert(taken.entities.dom() =~= rest.entities.dom());
        }
        assert forall|x: Command| taken.offspring_of(x) <= #[trigger] rest.offspring_of(x) by {}
        if later == rest {
        } else if key.kind == CommandKind::Maybe {
            assert(later.queue == rest.queue);
            assert(later.wf()) by {
                assert(later.entities.dom() =~= rest.entities.dom());
            }
            assert forall|i: int| 0 <= i < rest.queue.len() implies later.offspring_of(
                #[trigger] rest.queue[i],
            ) <= rest.offspring_of(rest.queue[i]) by {
                assert(later.offspring_of(rest.queue[i]) == taken.offspring_of(rest.queue[i]));
            }
            rest.lemma_work_shrinks(later, rest.queue);
        } else {
            let payloads = rest.entities[entity].markers[key]->Expand_0;
            assert(later == taken.spawn_children(entity, payloads));
            taken.lemma_spawn_children(entity, payloads);
            let fresh = later.recorded_since(taken);
            assert(later.queue =~= rest.queue + fresh) by {
                assert forall|i: int| 0 <= i < rest.queue.len() implies later.queue[i]
                    == rest.queue[i] by {
                    assert(later.queue[i] == later.queue.subrange(0, taken.queue.len() as int)[i]);
                }
            }
            later.lemma_work_concat(rest.queue, fresh);
            assert forall|i: int| 0 <= i < rest.queue.len() implies later.offspring_of(
                #[trigger] rest.queue[i],
            ) <= rest.offspring_of(rest.queue[i]) by {
                let x = rest.queue[i];
                assert(x.entity < taken.next);
                assert(later.alive(x.entity) <==> taken.alive(x.entity));
                if taken.alive(x.entity) {
                    assert(later.entities[x.entity].markers == taken.entities[x.entity].markers);
                }
                assert(later.offspring_of(x) == taken.offspring_of(x));
            }
            rest.lemma_work_shrinks(later, rest.queue);
            assert(rest.entities[entity].markers[key].offspring() == Bundle::offspring_of_all(
                payloads,
            ));
        }
    }

    /// Runs the queue from the front until nothing is left on it, commands
    /// recorded on the way included.
    pub open spec fn flush(self) -> Self
        decreases self.pending_work(),
        when self.wf()
        via Self::flush_ends
    {
        if self.quiet() {
            self
        } else {
            self.advance().flush()
        }
    }

    #[via_fn]
    proof fn flush_ends(self) {
        if !self.quiet() {
            self.lemma_advance();
        }
    }
}

impl<C> Store<C> {
    /// Running the oldest command touches the entity that the command names
    /// and no other that was there; it destroys nothing; it only ever adds to
    /// the components of an entity; and the commands it records name new
    /// entities and go behind those that waited.
    pub proof fn lemma_advance_frame(self)
        requires
            self.wf(),
            !self.quiet(),
        ensures
            ({
                let later = self.advance();
                let target = self.queue[0].entity;
                &&& later.next >= self.next
                &&& forall|x: nat| #[trigger]
                    later.alive(x) <==> self.alive(x) || self.next <= x < later.next
                &&& forall|x: nat|
                    self.alive(x) && x != target ==> #[trigger] later.entities[x]
                        == self.entities[x]
                &&& forall|x: nat|
                    self.alive(x) ==> self.entities[x].data.is_prefix_of(
                        (#[trigger] later.entities[x]).data,
                    )
                &&& later.queue.len() >= self.queue.len() - 1
                &&& later.queue.subrange(0, self.queue.len() - 1) == self.queue.drop_first()
                &&& forall|i: int|
                    self.queue.len() - 1 <= i < later.queue.len() ==> self.next <= (
                    #[trigger] later.queue[i]).entity
            }),
    {
        let command = self.queue[0];
        let entity = command.entity;
        let key = command.key;
        let rest = Store { queue: self.queue.drop_first(), ..self };
        let later = self.advance();
        rest.lemma_run(command);
        assert(rest.wf()) by {
            assert forall|i: int| 0 <= i < rest.queue.len() implies (#[trigger] rest.queue[i]).entity
                < rest.next by {
                assert(rest.queue[i] == self.queue[i + 1]);
            }
        }
        assert(rest.queue.subrange(0, rest.queue.len() as int) =~= rest.queue);
        let taken = rest.without_marker(entity, key);
        assert(taken.wf()) by {
            assert(taken.entities.dom() =~= rest.entities.dom());
        }
        if later == rest {
        } else if key.kind == CommandKind::Maybe {
            assert(later.entities.dom() =~= rest.entities.dom());
        } else {
            let payloads = rest.entities[entity].markers[key]->Expand_0;
            taken.lemma_spawn_children(entity, payloads);
            assert forall|x: nat| #[trigger]
                later.alive(x) <==> self.alive(x) || self.next <= x < later.next by {
                assert(taken.alive(x) <==> self.alive(x));
            }
            assert forall|x: nat| self.alive(x) && x != entity implies #[trigger] later.entities[x]
                == self.entities[x] by {
                assert(taken.alive(x));
            }
            assert forall|x: nat| self.alive(x) implies self.entities[x].data.is_prefix_of(
                (#[trigger] later.entities[x]).data,
            ) by {
                assert(taken.alive(x));
                if x != entity {
                    assert(later.entities[x] == taken.entities[x]);
                }
            }
        }
    }

    /// A flush ends with nothing left on the queue. It leaves alone every
    /// entity numbered below `bound`, if no command that waits names one of
    /// those; it destroys nothing; and it only ever adds to the components of
    /// an entity.
    pub proof fn lemma_flush_frame(self, bound: nat)
        requires
            self.wf(),
            bound <= self.next,
            forall|i: int| 0 <= i < self.queue.len() ==> bound <= (#[trigger] self.queue[i]).entity,
        ensures
            ({
                let after = self.flush();
                &&& after.wf()
                &&& after.quiet()
                &&& after.next >= self.next
                &&& forall|x: nat| #[trigger]
                    after.alive(x) <==> self.alive(x) || self.next <= x < after.next
                &&& forall|x: nat|
                    self.alive(x) && x < bound ==> #[trigger] after.entities[x] == self.entities[x]
                &&& forall|x: nat|
                    self.alive(x) ==> self.entities[x].data.is_prefix_of(
                        (#[trigger] after.entities[x]).data,
                    )
            }),
        decreases self.pending_work(),
    {
        if !self.quiet() {
            let later = self.advance();
            self.lemma_advance();
            self.lemma_advance_frame();
            assert forall|i: int| 0 <= i < later.queue.len() implies bound <= (
            #[trigger] later.queue[i]).entity by {
                if i < self.queue.len() - 1 {
                    assert(later.queue[i] == later.queue.subrange(0, self.queue.len() - 1)[i]);
                    assert(later.queue[i] == self.queue[i + 1]);
                }
            }
            later.lemma_flush_frame(bound);
            let after = self.flush();
            assert(after == later.flush());
            assert(bound <= self.queue[0].entity);
            assert forall|x: nat| self.alive(x) implies self.entities[x].data.is_prefix_of(
                (#[trigger] after.entities[x]).data,
            ) by {
                assert(later.alive(x));
                assert(self.entities[x].data.is_prefix_of(later.entities[x].data));
                assert(later.entities[x].data.is_prefix_of(after.entities[x].data));
            }
            assert forall|x: nat| #[trigger]
                after.alive(x) <==> self.alive(x) || self.next <= x < after.next by {
                assert(later.alive(x) <==> self.alive(x) || self.next <= x < later.next);
            }
            assert forall|x: nat| self.alive(x) && x < bound implies #[trigger] after.entities[x]
                == self.entities[x] by {
                assert(later.alive(x));
                assert(later.entities[x] == self.entities[x]);
            }
        }
    }
}

} // verus!
