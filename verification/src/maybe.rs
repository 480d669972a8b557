//! Conditional insertion: a marker that is replaced by what it wraps, if
//! anything, on the entity that carried it.

use crate::missing::Missing;
use vstd::prelude::*;

verus! {

/// When attached to an entity, is removed from it again and replaced by the
/// wrapped payload, if there is one, on the same entity.
#[derive(Clone, Copy, Debug, PartialEq, Eq, Hash)]
pub struct Maybe<B>(pub Option<B>);

impl<B> Maybe<B> {
    /// A marker that wraps nothing.
    pub fn none() -> (marker: Self)
        ensures
            marker.0 is None,
    {
        Maybe(None)
    }

    /// A marker that wraps `bundle`.
    pub fn new(bundle: B) -> (marker: Self)
        ensures
            marker.0 == Some(bundle),
    {
        Maybe(Some(bundle))
    }

    /// What the marker wraps, if anything.
    pub fn into_inner(self) -> (inner: Option<B>)
        ensures
            inner == self.0,
    {
        self.0
    }
}

impl<B> Default for Maybe<B> {
    /// A marker that wraps nothing.
    fn default() -> (marker: Self)
        ensures
            marker.0 is None,
    {
        Maybe(None)
    }
}

/// What the substitution waits for.
#[derive(Clone, Copy, Debug, PartialEq, Eq, Structural)]
pub enum MaybePhase {
    /// Whether the entity is in the store.
    Lookup,
    /// The marker taken from the entity.
    Take,
    /// The payload to be put on the entity.
    Insert,
    /// Nothing: the run is over.
    Done,
}

/// What the substitution asks of the store.
#[derive(Debug, PartialEq, Eq)]
pub enum MaybeRequest<E, B> {
    /// Say whether this entity is in the store.
    Lookup(E),
    /// Remove the marker from this entity and hand it over, or say that the
    /// entity carries none.
    Take(E),
    /// Put the components of `payload` on `entity`.
    Insert { entity: E, payload: B },
    /// Nothing more: the run ended this way.
    Finish(Result<(), Missing>),
}

/// What the store answers.
#[derive(Debug, PartialEq, Eq)]
pub enum MaybeReply<B> {
    /// To `Lookup`: whether the entity is there.
    Found(bool),
    /// To `Take`: the marker that was removed, or `None` if there was none.
    Taken(Option<Maybe<B>>),
    /// To `Insert`: done.
    Inserted,
}

/// The state of a substitution: the entity and what the run waits for.
pub struct SubstitutionView<E> {
    pub entity: E,
    pub phase: MaybePhase,
}

impl<E> SubstitutionView<E> {
    /// The state in which a run for `entity` begins.
    pub open spec fn initial(entity: E) -> Self {
        SubstitutionView { entity, phase: MaybePhase::Lookup }
    }

    /// Whether `reply` answers the request that led to this state.
    pub open spec fn awaits<B>(self, reply: MaybeReply<B>) -> bool {
        match (self.phase, reply) {
            (MaybePhase::Lookup, MaybeReply::Found(_)) => true,
            (MaybePhase::Take, MaybeReply::Taken(_)) => true,
            (MaybePhase::Insert, MaybeReply::Inserted) => true,
            _ => false,
        }
    }

    /// The end of a run.
    pub open spec fn halt<B>(self, end: Result<(), Missing>) -> (Self, MaybeRequest<E, B>) {
        (SubstitutionView { entity: self.entity, phase: MaybePhase::Done }, MaybeRequest::Finish(end))
    }

    /// The state that follows this one on `reply`, and the next request.
    ///
    /// A reply that this state does not await ends the run;
    /// `Substitution::step` never sees one.
    pub open spec fn step<B>(self, reply: MaybeReply<B>) -> (Self, MaybeRequest<E, B>) {
        match (self.phase, reply) {
            (MaybePhase::Lookup, MaybeReply::Found(present)) => {
                if present {
                    (
                        SubstitutionView { entity: self.entity, phase: MaybePhase::Take },
                        MaybeRequest::Take(self.entity),
                    )
                } else {
                    self.halt(Err(Missing::Entity))
                }
            },
            (MaybePhase::Take, MaybeReply::Taken(None)) => self.halt(Err(Missing::Marker)),
            (MaybePhase::Take, MaybeReply::Taken(Some(marker))) => {
                match marker.0 {
                    Some(payload) => (
                        SubstitutionView { entity: self.entity, phase: MaybePhase::Insert },
                        MaybeRequest::Insert { entity: self.entity, payload },
                    ),
                    None => self.halt(Ok(())),
                }
            },
            _ => self.halt(Ok(())),
        }
    }
}

/// A run of the command that replaces a [`Maybe`] by what it wraps.
pub struct Substitution<E> {
    entity: E,
    phase: MaybePhase,
}

impl<E> View for Substitution<E> {
    type V = SubstitutionView<E>;

    closed spec fn view(&self) -> SubstitutionView<E> {
        SubstitutionView { entity: self.entity, phase: self.phase }
    }
}

impl<E: Copy> Substitution<E> {
    /// Begins a run for `entity`: the first request asks whether it is there.
    pub fn start<B>(entity: E) -> (begun: (Self, MaybeRequest<E, B>))
        ensures
            begun.0@ == SubstitutionView::initial(entity),
            begun.1 == MaybeRequest::<E, B>::Lookup(entity),
    {
        (Substitution { entity, phase: MaybePhase::Lookup }, MaybeRequest::Lookup(entity))
    }

    /// What the run waits for.
    pub fn phase(&self) -> (phase: MaybePhase)
        ensures
            phase == self@.phase,
    {
        self.phase
    }

    /// Whether `reply` answers the request that the run made last.
    pub fn awaits<B>(&self, reply: &MaybeReply<B>) -> (awaited: bool)
        ensures
            awaited == self@.awaits(*reply),
    {
        match (self.phase, reply) {
            (MaybePhase::Lookup, MaybeReply::Found(_)) => true,
            (MaybePhase::Take, MaybeReply::Taken(_)) => true,
            (MaybePhase::Insert, MaybeReply::Inserted) => true,
            _ => false,
        }
    }

    /// Takes the store's answer to the last request and decides the next one.
    pub fn step<B>(&mut self, reply: MaybeReply<B>) -> (request: MaybeRequest<E, B>)
        requires
            old(self)@.awaits(reply),
        ensures
            (final(self)@, request) == old(self)@.step(reply),
    {
        match reply {
            MaybeReply::Found(present) => {
                if present {
                    self.phase = MaybePhase::Take;
                    MaybeRequest::Take(self.entity)
                } else {
                    self.phase = MaybePhase::Done;
                    MaybeRequest::Finish(Err(Missing::Entity))
                }
            },
            MaybeReply::Taken(None) => {
                self.phase = MaybePhase::Done;
                MaybeRequest::Finish(Err(Missing::Marker))
            },
            MaybeReply::Taken(Some(marker)) => {
                match marker.into_inner() {
                    Some(payload) => {
                        self.phase = MaybePhase::Insert;
                        MaybeRequest::Insert { entity: self.entity, payload }
                    },
                    None => {
                        self.phase = MaybePhase::Done;
                        MaybeRequest::Finish(Ok(()))
                    },
                }
            },
            MaybeReply::Inserted => {
                self.phase = MaybePhase::Done;
                MaybeRequest::Finish(Ok(()))
            },
        }
    }
}

} // verus!
