//! A reference model of the store that the commands talk to.
//!
//! The model says what the requests of a command mean: what a lookup finds,
//! what taking a marker leaves behind, what spawning and linking add. It also
//! plays the store's part around the commands: attaching a marker runs its
//! hook, which records a command at the end of the queue, and a flush runs
//! the queue from the front until it is empty, commands that were recorded in
//! the meantime included.
//!
//! Entities are numbered as they are spawned. Components are values of any
//! type `C`; a payload is a [`Bundle`] of components and of further markers.
//! The payload of a conditional insertion is plain components here.
//!
//! All of this is specification: nothing in it runs. The laws of the library
//! are stated over it.

use crate::expansion::{ExpansionView, Phase, ReplyView, Request};
use crate::maybe::{Maybe, MaybePhase, MaybeReply, MaybeRequest, SubstitutionView};
use crate::missing::{CommandKind, Missing};
use vstd::prelude::*;

verus! {

/// Names one marker of an entity. The store keeps at most one marker per
/// kind, payload type and tag on an entity.
pub struct Key {
    pub kind: CommandKind,
    pub payload_type: nat,
    pub tag: u8,
}

/// What a marker holds.
pub enum Marker<C> {
    /// The payloads of the children that it declares, in order.
    Expand(Seq<Bundle<C>>),
    /// The components to put on the entity itself, if any.
    Insert(Option<Seq<C>>),
}

/// What is attached to an entity in one go: plain components, and markers
/// under their keys, in the order of attachment.
pub struct Bundle<C> {
    pub data: Seq<C>,
    pub markers: Seq<(Key, Marker<C>)>,
}

/// An entity of the store: its components, the markers that wait on it, and
/// its child list.
pub struct Node<C> {
    pub data: Seq<C>,
    pub markers: Map<Key, Marker<C>>,
    pub children: Seq<nat>,
}

/// A recorded command: the entity that a marker arrived on, and which marker.
pub struct Command {
    pub entity: nat,
    pub key: Key,
}

/// The store: its entities by number, the number that the next entity will
/// get, and the queue of recorded commands, oldest first.
pub struct Store<C> {
    pub entities: Map<nat, Node<C>>,
    pub next: nat,
    pub queue: Seq<Command>,
}

impl<C> Bundle<C> {
    /// A bundle of one marker.
    pub open spec fn marker(key: Key, marker: Marker<C>) -> Self {
        Bundle { data: Seq::empty(), markers: seq![(key, marker)] }
    }
}

impl<C> Node<C> {
    /// An entity that carries nothing.
    pub open spec fn bare() -> Self {
        Node { data: Seq::empty(), markers: Map::empty(), children: Seq::empty() }
    }

    /// This entity with `data` for its components.
    pub open spec fn with_data(self, data: Seq<C>) -> Self {
        Node { data, ..self }
    }

    /// This entity with `children` for its child list.
    pub open spec fn with_children(self, children: Seq<nat>) -> Self {
        Node { children, ..self }
    }
}

impl<C> Store<C> {
    /// Every entity, and every entity that a command names, has a number
    /// below the next to be given.
    pub open spec fn wf(self) -> bool {
        &&& forall|e: nat| self.entities.dom().contains(e) ==> e < self.next
        &&& forall|i: int| 0 <= i < self.queue.len() ==> (#[trigger] self.queue[i]).entity < self.next
    }

    /// Whether nothing waits to be run.
    pub open spec fn quiet(self) -> bool {
        self.queue.len() == 0
    }

    /// Whether `entity` is in the store.
    pub open spec fn alive(self, entity: nat) -> bool {
        self.entities.dom().contains(entity)
    }

    /// Whether `entity` is in the store and carries a marker under `key`.
    pub open spec fn carries(self, entity: nat, key: Key) -> bool {
        self.alive(entity) && self.entities[entity].markers.dom().contains(key)
    }

    /// The store with `entity` replaced by `state`.
    pub open spec fn with_entity(self, entity: nat, state: Node<C>) -> Self {
        Store { entities: self.entities.insert(entity, state), ..self }
    }

    /// Attaches one marker to `entity`, which runs the marker's hook: the
    /// command it answers with goes to the end of the queue. Nothing happens
    /// if the entity is gone, or carries a marker under `key` already.
    pub open spec fn attach_marker(self, entity: nat, key: Key, marker: Marker<C>) -> Self {
        if self.alive(entity) && !self.carries(entity, key) {
            let state = self.entities[entity];
            Store {
                entities: self.entities.insert(
                    entity,
                    Node { markers: state.markers.insert(key, marker), ..state },
                ),
                queue: self.queue.push(Command { entity, key }),
                ..self
            }
        } else {
            self
        }
    }

    /// Attaches the first `upto` of `markers` to `entity`, in order.
    pub open spec fn attach_markers(
        self,
        entity: nat,
        markers: Seq<(Key, Marker<C>)>,
        upto: nat,
    ) -> Self
        decreases upto,
    {
        if upto == 0 || upto > markers.len() {
            self
        } else {
            self.attach_markers(entity, markers, (upto - 1) as nat).attach_marker(
                entity,
                markers[upto - 1].0,
                markers[upto - 1].1,
            )
        }
    }

    /// Puts plain components on `entity`, after those it has.
    pub open spec fn insert_data(self, entity: nat, data: Seq<C>) -> Self {
        if self.alive(entity) {
            let state = self.entities[entity];
            self.with_entity(entity, Node { data: state.data + data, ..state })
        } else {
            self
        }
    }

    /// Attaches `bundle` to `entity`: its components, then its markers in
    /// order, each with its hook.
    pub open spec fn attach(self, entity: nat, bundle: Bundle<C>) -> Self {
        self.insert_data(entity, bundle.data).attach_markers(
            entity,
            bundle.markers,
            bundle.markers.len(),
        )
    }

    /// Spawns a new entity from `bundle`. Its number is `self.next`.
    pub open spec fn spawn(self, bundle: Bundle<C>) -> Self {
        Store {
            entities: self.entities.insert(self.next, Node::bare()),
            next: self.next + 1,
            ..self
        }.attach(self.next, bundle)
    }

    /// Destroys `entity`, with all that it carries.
    pub open spec fn despawn(self, entity: nat) -> Self {
        Store { entities: self.entities.remove(entity), ..self }
    }

    /// Removes the marker under `key` from `entity`.
    pub open spec fn without_marker(self, entity: nat, key: Key) -> Self {
        if self.carries(entity, key) {
            let state = self.entities[entity];
            self.with_entity(entity, Node { markers: state.markers.remove(key), ..state })
        } else {
            self
        }
    }

    /// Appends `child` to the child list of `parent`.
    pub open spec fn link(self, parent: nat, child: nat) -> Self {
        if self.alive(parent) {
            let state = self.entities[parent];
            self.with_entity(parent, Node { children: state.children.push(child), ..state })
        } else {
            self
        }
    }
}

/// How far a run of an expansion is from its end, coarsely: the requests that
/// come before any payload is handed out rank highest.
pub open spec fn expansion_rank<E, B>(machine: ExpansionView<E, B>, request: Request<E, B>) -> nat {
    if request is Finish {
        0
    } else {
        match machine.phase {
            Phase::Lookup => 4,
            Phase::Take => 3,
            Phase::Spawn => 2,
            Phase::Link => 2,
            Phase::Done => 1,
        }
    }
}

/// How far a run of a substitution is from its end.
pub open spec fn substitution_rank<E, B>(
    machine: SubstitutionView<E>,
    request: MaybeRequest<E, B>,
) -> nat {
    if request is Finish {
        0
    } else {
        match machine.phase {
            MaybePhase::Lookup => 4,
            MaybePhase::Take => 3,
            MaybePhase::Insert => 2,
            MaybePhase::Done => 1,
        }
    }
}

impl<C> Store<C> {
    /// What the store answers to one request of the expansion of the marker
    /// under `key`, and the store after it did what was asked.
    pub open spec fn answer(self, key: Key, request: Request<nat, Bundle<C>>) -> (
        Self,
        ReplyView<nat, Bundle<C>>,
    ) {
        match request {
            Request::Lookup(entity) => (self, ReplyView::Found(self.alive(entity))),
            Request::Take(entity) => {
                if self.carries(entity, key) {
                    match self.entities[entity].markers[key] {
                        Marker::Expand(payloads) => (
                            self.without_marker(entity, key),
                            ReplyView::Taken(Some(payloads)),
                        ),
                        Marker::Insert(_) => (self, ReplyView::Taken(None)),
                    }
                } else {
                    (self, ReplyView::Taken(None))
                }
            },
            Request::Spawn(payload) => (self.spawn(payload), ReplyView::Spawned(self.next)),
            Request::Link { parent, child } => (self.link(parent, child), ReplyView::Linked),
            Request::Finish(_) => (self, ReplyView::Linked),
        }
    }

    /// Runs an expansion from `machine` and its pending `request` to the end,
    /// the store answering each request: the store after the run, and how the
    /// run ended.
    pub open spec fn expand(
        self,
        key: Key,
        machine: ExpansionView<nat, Bundle<C>>,
        request: Request<nat, Bundle<C>>,
    ) -> (Self, Result<(), Missing>)
        decreases
                expansion_rank(machine, request),
                machine.pending.len(),
                (if machine.phase == Phase::Spawn {
                    1nat
                } else {
                    0nat
                }),
    {
        match request {
            Request::Finish(end) => (self, end),
            _ => {
                let (store, reply) = self.answer(key, request);
                let (machine, request) = machine.step(reply);
                store.expand(key, machine, request)
            },
        }
    }

    /// What the store answers to one request of the substitution of the
    /// marker under `key`, and the store after it did what was asked.
    pub open spec fn answer_maybe(self, key: Key, request: MaybeRequest<nat, Seq<C>>) -> (
        Self,
        MaybeReply<Seq<C>>,
    ) {
        match request {
            MaybeRequest::Lookup(entity) => (self, MaybeReply::Found(self.alive(entity))),
            MaybeRequest::Take(entity) => {
                if self.carries(entity, key) {
                    match self.entities[entity].markers[key] {
                        Marker::Insert(payload) => (
                            self.without_marker(entity, key),
                            MaybeReply::Taken(Some(Maybe(payload))),
                        ),
                        Marker::Expand(_) => (self, MaybeReply::Taken(None)),
                    }
                } else {
                    (self, MaybeReply::Taken(None))
                }
            },
            MaybeRequest::Insert { entity, payload } => (
                self.insert_data(entity, payload),
                MaybeReply::Inserted,
            ),
            MaybeRequest::Finish(_) => (self, MaybeReply::Inserted),
        }
    }

    /// Runs a substitution from `machine` and its pending `request` to the
    /// end, the store answering each request.
    pub open spec fn substitute(
        self,
        key: Key,
        machine: SubstitutionView<nat>,
        request: MaybeRequest<nat, Seq<C>>,
    ) -> (Self, Result<(), Missing>)
        decreases substitution_rank(machine, request),
    {
        match request {
            MaybeRequest::Finish(end) => (self, end),
            _ => {
                let (store, reply) = self.answer_maybe(key, request);
                let (machine, request) = machine.step(reply);
                store.substitute(key, machine, request)
            },
        }
    }

    /// Runs `command` from its start to its end.
    pub open spec fn run(self, command: Command) -> (Self, Result<(), Missing>) {
        if command.key.kind == CommandKind::Maybe {
            self.substitute(
                command.key,
                SubstitutionView::initial(command.entity),
                MaybeRequest::Lookup(command.entity),
            )
        } else {
            self.expand(
                command.key,
                ExpansionView::initial(command.entity),
                Request::Lookup(command.entity),
            )
        }
    }

    /// Takes the oldest command off the queue and runs it. A run that finds
    /// its entity or marker gone leaves the store as it was, and the store
    /// goes on.
    pub open spec fn advance(self) -> Self {
        if self.queue.len() == 0 {
            self
        } else {
            Store { queue: self.queue.drop_first(), ..self }.run(self.queue[0]).0
        }
    }
}

} // verus!
