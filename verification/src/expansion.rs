//! The deferred command that expands declarative children, as a machine that
//! talks to the store one request at a time.
//!
//! A run looks the parent up, takes the marker from it, and then, for each
//! payload that the marker declared, has a child spawned and linked to the
//! parent, in the order of declaration. It stops early, and touches nothing
//! further, if the parent or the marker is gone.

use crate::missing::Missing;
use vstd::prelude::*;

verus! {

/// What the machine waits for.
#[derive(Clone, Copy, Debug, PartialEq, Eq, Structural)]
pub enum Phase {
    /// Whether the parent is in the store.
    Lookup,
    /// The marker taken from the parent.
    Take,
    /// The child spawned from the payload it handed out.
    Spawn,
    /// The child to be linked to the parent.
    Link,
    /// Nothing: the run is over.
    Done,
}

/// What the machine asks of the store.
#[derive(Debug, PartialEq, Eq)]
pub enum Request<E, B> {
    /// Say whether this entity is in the store.
    Lookup(E),
    /// Remove the marker from this entity and hand over the payloads that it
    /// declares, or say that the entity carries no such marker.
    Take(E),
    /// Spawn a new entity from this payload and name it.
    Spawn(B),
    /// Append `child` to the child list of `parent`.
    Link { parent: E, child: E },
    /// Nothing more: the run ended this way.
    Finish(Result<(), Missing>),
}

/// What the store answers.
#[derive(Debug, PartialEq, Eq)]
pub enum Reply<E, B> {
    /// To `Lookup`: whether the entity is there.
    Found(bool),
    /// To `Take`: the payloads that the removed marker declared, in order, or
    /// `None` if there was no marker.
    Taken(Option<Vec<B>>),
    /// To `Spawn`: the new entity.
    Spawned(E),
    /// To `Link`: done.
    Linked,
}

/// A [`Reply`] as specifications see it.
pub enum ReplyView<E, B> {
    Found(bool),
    Taken(Option<Seq<B>>),
    Spawned(E),
    Linked,
}

impl<E, B> View for Reply<E, B> {
    type V = ReplyView<E, B>;

    open spec fn view(&self) -> ReplyView<E, B> {
        match *self {
            Reply::Found(present) => ReplyView::Found(present),
            Reply::Taken(None) => ReplyView::Taken(None),
            Reply::Taken(Some(payloads)) => ReplyView::Taken(Some(payloads@)),
            Reply::Spawned(child) => ReplyView::Spawned(child),
            Reply::Linked => ReplyView::Linked,
        }
    }
}

/// The state of a run: the parent, what the run waits for, and the payloads
/// not yet handed out, next first.
pub struct ExpansionView<E, B> {
    pub parent: E,
    pub phase: Phase,
    pub pending: Seq<B>,
}

impl<E, B> ExpansionView<E, B> {
    /// The state in which a run for `parent` begins.
    pub open spec fn initial(parent: E) -> Self {
        ExpansionView { parent, phase: Phase::Lookup, pending: Seq::empty() }
    }

    /// Whether `reply` answers the request that led to this state.
    pub open spec fn awaits(self, reply: ReplyView<E, B>) -> bool {
        match (self.phase, reply) {
            (Phase::Lookup, ReplyView::Found(_)) => true,
            (Phase::Take, ReplyView::Taken(_)) => true,
            (Phase::Spawn, ReplyView::Spawned(_)) => true,
            (Phase::Link, ReplyView::Linked) => true,
            _ => false,
        }
    }

    /// The end of a run, with nothing left to hand out.
    pub open spec fn halt(self, end: Result<(), Missing>) -> (Self, Request<E, B>) {
        (
            ExpansionView { parent: self.parent, phase: Phase::Done, pending: Seq::empty() },
            Request::Finish(end),
        )
    }

    /// Hands out the next pending payload to be spawned, or ends the run if
    /// none is left.
    pub open spec fn proceed(self) -> (Self, Request<E, B>) {
        if self.pending.len() == 0 {
            self.halt(Ok(()))
        } else {
            (
                ExpansionView {
                    parent: self.parent,
                    phase: Phase::Spawn,
                    pending: self.pending.drop_first(),
                },
                Request::Spawn(self.pending[0]),
            )
        }
    }

    /// The state that follows this one on `reply`, and the next request.
    ///
    /// A reply that this state does not await ends the run;
    /// `Expansion::step` never sees one.
    pub open spec fn step(self, reply: ReplyView<E, B>) -> (Self, Request<E, B>) {
        match (self.phase, reply) {
            (Phase::Lookup, ReplyView::Found(present)) => {
                if present {
                    (
                        ExpansionView { parent: self.parent, phase: Phase::Take, pending: self.pending },
                        Request::Take(self.parent),
                    )
                } else {
                    self.halt(Err(Missing::Entity))
                }
            },
            (Phase::Take, ReplyView::Taken(None)) => self.halt(Err(Missing::Marker)),
            (Phase::Take, ReplyView::Taken(Some(payloads))) => {
                ExpansionView { parent: self.parent, phase: self.phase, pending: payloads }.proceed()
            },
            (Phase::Spawn, ReplyView::Spawned(child)) => {
                (
                    ExpansionView { parent: self.parent, phase: Phase::Link, pending: self.pending },
                    Request::Link { parent: self.parent, child },
                )
            },
            (Phase::Link, ReplyView::Linked) => self.proceed(),
            _ => self.halt(Ok(())),
        }
    }
}

/// A run of the command that expands the children declared on one parent.
pub struct Expansion<E, B> {
    parent: E,
    phase: Phase,
    pending: Vec<B>,
}

impl<E, B> View for Expansion<E, B> {
    type V = ExpansionView<E, B>;

    closed spec fn view(&self) -> ExpansionView<E, B> {
        ExpansionView { parent: self.parent, phase: self.phase, pending: self.pending@ }
    }
}

impl<E: Copy, B> Expansion<E, B> {
    /// Begins a run for `parent`: the first request asks whether it is there.
    pub fn start(parent: E) -> (begun: (Self, Request<E, B>))
        ensures
            begun.0@ == ExpansionView::<E, B>::initial(parent),
            begun.1 == Request::<E, B>::Lookup(parent),
    {
        (Expansion { parent, phase: Phase::Lookup, pending: Vec::new() }, Request::Lookup(parent))
    }

    /// What the run waits for.
    pub fn phase(&self) -> (phase: Phase)
        ensures
            phase == self@.phase,
    {
        self.phase
    }

    /// Whether `reply` answers the request that the run made last.
    pub fn awaits(&self, reply: &Reply<E, B>) -> (awaited: bool)
        ensures
            awaited == self@.awaits(reply@),
    {
        match (self.phase, reply) {
            (Phase::Lookup, Reply::Found(_)) => true,
            (Phase::Take, Reply::Taken(_)) => true,
            (Phase::Spawn, Reply::Spawned(_)) => true,
            (Phase::Link, Reply::Linked) => true,
            _ => false,
        }
    }

    /// Takes the store's answer to the last request and decides the next one.
    pub fn step(&mut self, reply: Reply<E, B>) -> (request: Request<E, B>)
        requires
            old(self)@.awaits(reply@),
        ensures
            (final(self)@, request) == old(self)@.step(reply@),
    {
        match reply {
            Reply::Found(present) => {
                if present {
                    self.phase = Phase::Take;
                    Request::Take(self.parent)
                } else {
                    self.halt(Err(Missing::Entity))
                }
            },
            Reply::Taken(None) => self.halt(Err(Missing::Marker)),
            Reply::Taken(Some(payloads)) => {
                self.pending = payloads;
                self.proceed()
            },
            Reply::Spawned(child) => {
                self.phase = Phase::Link;
                Request::Link { parent: self.parent, child }
            },
            Reply::Linked => self.proceed(),
        }
    }

    fn halt(&mut self, end: Result<(), Missing>) -> (request: Request<E, B>)
        ensures
            (final(self)@, request) == old(self)@.halt(end),
    {
        self.phase = Phase::Done;
        self.pending = Vec::new();
        Request::Finish(end)
    }

    fn proceed(&mut self) -> (request: Request<E, B>)
        ensures
            (final(self)@, request) == old(self)@.proceed(),
    {
        if self.pending.len() == 0 {
            self.halt(Ok(()))
        } else {
            let payload = self.pending.remove(0);
            self.phase = Phase::Spawn;
            assert(self.pending@ =~= old(self).pending@.drop_first());
            Request::Spawn(payload)
        }
    }
}

} // verus!
