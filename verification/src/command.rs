//! The hooks that see a marker arrive on an entity, and the commands they
//! record.
//!
//! A hook runs while the store is in the middle of attaching the marker, when
//! nothing structural may be done. So it does no work: it answers with the
//! command to put on the store's queue. The command names the entity, and its
//! type names the marker; the marker's data stays on the entity until the
//! command runs.

use crate::expansion::{Expansion, Reply, ReplyView, Request};
use crate::maybe::{MaybeRequest, Substitution};
use crate::missing::CommandKind;
use crate::slots::{SlotPayload, WithChildSlots};
use crate::{WithChildN, WithChildrenN};
use core::marker::PhantomData;
use vstd::prelude::*;
use vstd::std_specs::iter::IteratorSpec;

verus! {

/// The command recorded for a [`WithChildN`] that arrived on `parent_entity`.
#[derive(Debug)]
pub struct WithChildCommand<E, B, const N: u8> {
    parent_entity: E,
    _phantom: PhantomData<B>,
}

/// The command recorded for a [`WithChildrenN`] that arrived on
/// `parent_entity`.
#[derive(Debug)]
pub struct WithChildrenCommand<E, B, I, const N: u8> {
    parent_entity: E,
    _phantom: PhantomData<(B, I)>,
}

/// The command recorded for a [`WithChildSlots`] that arrived on
/// `parent_entity`.
#[derive(Debug)]
pub struct WithChildSlotsCommand<E, B1, B2, B3, B4, B5, B6, B7, B8> {
    parent_entity: E,
    _phantom: PhantomData<(B1, B2, B3, B4, B5, B6, B7, B8)>,
}

/// The command recorded for a [`Maybe`](crate::maybe::Maybe) that arrived on
/// `entity`.
#[derive(Debug)]
pub struct MaybeCommand<E, B> {
    entity: E,
    _phantom: PhantomData<B>,
}

/// Runs when a [`WithChildN`] arrives on `entity`: answers with the command
/// to record.
pub fn with_child_hook<E, B, const N: u8>(entity: E) -> (command: WithChildCommand<E, B, N>)
    ensures
        command.parent() == entity,
{
    WithChildCommand { parent_entity: entity, _phantom: PhantomData }
}

/// Runs when a [`WithChildrenN`] arrives on `entity`: answers with the command
/// to record.
pub fn with_children_hook<E, B, I, const N: u8>(entity: E) -> (command: WithChildrenCommand<
    E,
    B,
    I,
    N,
>)
    ensures
        command.parent() == entity,
{
    WithChildrenCommand { parent_entity: entity, _phantom: PhantomData }
}

/// Runs when a [`WithChildSlots`] arrives on `entity`: answers with the
/// command to record.
pub fn with_child_slots_hook<E, B1, B2, B3, B4, B5, B6, B7, B8>(entity: E) -> (command:
    WithChildSlotsCommand<E, B1, B2, B3, B4, B5, B6, B7, B8>)
    ensures
        command.parent() == entity,
{
    WithChildSlotsCommand { parent_entity: entity, _phantom: PhantomData }
}

/// Runs when a [`Maybe`](crate::maybe::Maybe) arrives on `entity`: answers
/// with the command to record.
pub fn maybe_hook<E, B>(entity: E) -> (command: MaybeCommand<E, B>)
    ensures
        command.target() == entity,
{
    MaybeCommand { entity, _phantom: PhantomData }
}

impl<E, B, const N: u8> WithChildCommand<E, B, N> {
    /// The entity that the marker arrived on.
    pub closed spec fn parent(&self) -> E {
        self.parent_entity
    }
}

impl<E: Copy, B, const N: u8> WithChildCommand<E, B, N> {
    /// The kind of this command.
    pub fn kind(&self) -> (kind: CommandKind)
        ensures
            kind == CommandKind::WithChild,
    {
        CommandKind::WithChild
    }

    /// Begins the run of this command.
    pub fn start(&self) -> (begun: (Expansion<E, B>, Request<E, B>))
        ensures
            begun.0@ == crate::expansion::ExpansionView::<E, B>::initial(self.parent()),
            begun.1 == Request::<E, B>::Lookup(self.parent()),
    {
        Expansion::start(self.parent_entity)
    }

    /// The answer to `Take`, from what the store found on the parent.
    pub fn taken(marker: Option<WithChildN<B, N>>) -> (reply: Reply<E, B>)
        ensures
            reply@ == (match marker {
                Some(marker) => ReplyView::<E, B>::Taken(Some(marker.payloads())),
                None => ReplyView::<E, B>::Taken(None),
            }),
    {
        match marker {
            Some(marker) => Reply::Taken(Some(marker.into_payloads())),
            None => Reply::Taken(None),
        }
    }
}

impl<E, B, I, const N: u8> WithChildrenCommand<E, B, I, N> {
    /// The entity that the marker arrived on.
    pub closed spec fn parent(&self) -> E {
        self.parent_entity
    }
}

impl<E: Copy, B, I, const N: u8> WithChildrenCommand<E, B, I, N> {
    /// The kind of this command.
    pub fn kind(&self) -> (kind: CommandKind)
        ensures
            kind == CommandKind::WithChildren,
    {
        CommandKind::WithChildren
    }

    /// Begins the run of this command.
    pub fn start(&self) -> (begun: (Expansion<E, B>, Request<E, B>))
        ensures
            begun.0@ == crate::expansion::ExpansionView::<E, B>::initial(self.parent()),
            begun.1 == Request::<E, B>::Lookup(self.parent()),
    {
        Expansion::start(self.parent_entity)
    }

}

impl<E, B, I: Iterator<Item = B>, const N: u8> WithChildrenCommand<E, B, I, N> {
    /// The answer to `Take`, from what the store found on the parent: the
    /// producer is run to its end here.
    pub fn taken(marker: Option<WithChildrenN<B, I, N>>) -> (reply: Reply<E, B>)
        requires
            marker is Some ==> marker->0.finite(),
        ensures
            reply@ == (match marker {
                Some(marker) => ReplyView::<E, B>::Taken(Some(marker.0.remaining())),
                None => ReplyView::<E, B>::Taken(None),
            }),
    {
        match marker {
            Some(marker) => Reply::Taken(Some(marker.into_payloads())),
            None => Reply::Taken(None),
        }
    }
}

impl<E, B1, B2, B3, B4, B5, B6, B7, B8> WithChildSlotsCommand<E, B1, B2, B3, B4, B5, B6, B7, B8> {
    /// The entity that the marker arrived on.
    pub closed spec fn parent(&self) -> E {
        self.parent_entity
    }
}

impl<E: Copy, B1, B2, B3, B4, B5, B6, B7, B8> WithChildSlotsCommand<
    E,
    B1,
    B2,
    B3,
    B4,
    B5,
    B6,
    B7,
    B8,
> {
    /// The kind of this command.
    pub fn kind(&self) -> (kind: CommandKind)
        ensures
            kind == CommandKind::WithChildSlots,
    {
        CommandKind::WithChildSlots
    }

    /// Begins the run of this command.
    pub fn start(&self) -> (begun: (
        Expansion<E, SlotPayload<B1, B2, B3, B4, B5, B6, B7, B8>>,
        Request<E, SlotPayload<B1, B2, B3, B4, B5, B6, B7, B8>>,
    ))
        ensures
            begun.0@ == crate::expansion::ExpansionView::<
                E,
                SlotPayload<B1, B2, B3, B4, B5, B6, B7, B8>,
            >::initial(self.parent()),
            begun.1 == Request::<E, SlotPayload<B1, B2, B3, B4, B5, B6, B7, B8>>::Lookup(
                self.parent(),
            ),
    {
        Expansion::start(self.parent_entity)
    }

    /// The answer to `Take`, from what the store found on the parent.
    pub fn taken(marker: Option<WithChildSlots<B1, B2, B3, B4, B5, B6, B7, B8>>) -> (reply: Reply<
        E,
        SlotPayload<B1, B2, B3, B4, B5, B6, B7, B8>,
    >)
        ensures
            reply@ == (match marker {
                Some(marker) => ReplyView::<
                    E,
                    SlotPayload<B1, B2, B3, B4, B5, B6, B7, B8>,
                >::Taken(Some(marker.payloads())),
                None => ReplyView::<E, SlotPayload<B1, B2, B3, B4, B5, B6, B7, B8>>::Taken(None),
            }),
    {
        match marker {
            Some(marker) => Reply::Taken(Some(marker.into_payloads())),
            None => Reply::Taken(None),
        }
    }
}

impl<E, B> MaybeCommand<E, B> {
    /// The entity that the marker arrived on.
    pub closed spec fn target(&self) -> E {
        self.entity
    }
}

impl<E: Copy, B> MaybeCommand<E, B> {
    /// The kind of this command.
    pub fn kind(&self) -> (kind: CommandKind)
        ensures
            kind == CommandKind::Maybe,
    {
        CommandKind::Maybe
    }

    /// Begins the run of this command.
    pub fn start(&self) -> (begun: (Substitution<E>, MaybeRequest<E, B>))
        ensures
            begun.0@ == crate::maybe::SubstitutionView::initial(self.target()),
            begun.1 == MaybeRequest::<E, B>::Lookup(self.target()),
    {
        Substitution::start(self.entity)
    }
}

} // verus!
