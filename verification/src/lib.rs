//! Declarative children for an entity-component store.
//!
//! A marker attached to an entity asks for child entities to be spawned from
//! the payloads it wraps and linked to that entity. The request is data: the
//! hook that sees the marker arrive only records a command, and the command
//! does the structural work when the store next flushes.
//!
//! The store itself is a collaborator. Each command is a small machine that
//! asks the store for one thing at a time and decides from the answer what to
//! ask next, so that every decision made between two store operations is
//! stated and proved here, for any store.
//!
//! - This file, [`slots`] and [`maybe`] hold the markers.
//! - [`command`] holds the hooks and the commands they record.
//! - [`expansion`] and [`maybe`] hold the machines; [`missing`] says what a
//!   command may find gone, and what to do about it.
//! - [`world`] answers, against a `bevy_ecs` world, the requests that do not
//!   depend on the caller's component types.
//! - [`store`], [`flush`] and [`laws`] say what the store is taken to do, and
//!   prove what then holds of markers, commands and flushes together.

use vstd::prelude::*;
use vstd::std_specs::iter::IteratorSpec;

pub mod command;
pub mod expansion;
pub mod flush;
pub mod laws;
pub mod maybe;
pub mod missing;
pub mod slots;
pub mod store;
pub mod world;

verus! {

/// When attached to an entity, asks for one child entity spawned from the
/// wrapped payload.
///
/// The marker leaves the entity when its command runs: the payload moves into
/// the child.
///
/// The tag `N` tells apart markers that wrap the same payload type, so that one
/// entity can carry several of them: the store keeps one marker per pair of
/// payload type and tag.
#[derive(Debug, Clone, Default)]
pub struct WithChildN<B, const N: u8>(pub B);

/// When attached to an entity, asks for one child entity per payload that the
/// wrapped producer yields, in the order in which it yields them.
///
/// The producer is run once, to its end, when the command runs.
#[derive(Debug, Clone, Default)]
#[verifier::reject_recursive_types(B)]
pub struct WithChildrenN<B, I: Iterator<Item = B>, const N: u8>(pub I);

/// A [`WithChildN`] with tag zero.
pub type WithChild<B> = WithChildN<B, 0>;

/// A [`WithChildrenN`] with tag zero.
pub type WithChildren<B, I> = WithChildrenN<B, I, 0>;

/// Wraps `bundle` as the payload of a single child, with tag zero.
pub fn spawn_child<B>(bundle: B) -> (marker: WithChild<B>)
    ensures
        marker.0 == bundle,
{
    WithChildN(bundle)
}

/// Wraps the producer `iter` as the payloads of a run of children, with tag
/// zero.
pub fn spawn_children<B, I: Iterator<Item = B>>(iter: I) -> (marker: WithChildren<B, I>)
    ensures
        marker.0 == iter,
{
    WithChildrenN(iter)
}

/// Wraps `bundle` as the payload of a single child, with the tag `N`.
pub fn spawn_repeated_child<B, const N: u8>(bundle: B) -> (marker: WithChildN<B, N>)
    ensures
        marker.0 == bundle,
{
    WithChildN(bundle)
}

/// Wraps the producer `iter` as the payloads of a run of children, with the
/// tag `N`.
pub fn spawn_repeated_children<B, I: Iterator<Item = B>, const N: u8>(iter: I) -> (marker:
    WithChildrenN<B, I, N>)
    ensures
        marker.0 == iter,
{
    WithChildrenN(iter)
}

impl<B, const N: u8> WithChildN<B, N> {
    /// The payloads that the marker declares: the one it wraps.
    pub open spec fn payloads(self) -> Seq<B> {
        seq![self.0]
    }

    /// Takes the marker apart into the payloads it declares.
    pub fn into_payloads(self) -> (list: Vec<B>)
        ensures
            list@ == self.payloads(),
    {
        let mut list: Vec<B> = Vec::new();
        list.push(self.0);
        assert(list@ =~= self.payloads());
        list
    }
}

impl<B, I: Iterator<Item = B>, const N: u8> WithChildrenN<B, I, N> {
    /// Whether the wrapped producer can be run to its end: it yields its
    /// payloads one after the other and then stops for good.
    pub open spec fn finite(self) -> bool {
        self.0.obeys_prophetic_iter_laws() && self.0.decrease() is Some
    }

    /// Runs the producer to its end and returns what it yielded, in order.
    pub fn into_payloads(self) -> (list: Vec<B>)
        requires
            self.finite(),
        ensures
            list@ == self.0.remaining(),
    {
        let mut list: Vec<B> = Vec::new();
        let mut producer = self.0;
        loop
            invariant_except_break
                producer.obeys_prophetic_iter_laws(),
                producer.decrease() is Some,
                list@ + producer.remaining() == self.0.remaining(),
            ensures
                list@ == self.0.remaining(),
            decreases producer.decrease()->0,
        {
            let ghost before = producer.remaining();
            match producer.next() {
                Some(payload) => {
                    list.push(payload);
                    assert(list@ + producer.remaining() =~= (list@.drop_last() + before));
                },
                None => {
                    assert(list@ + before =~= list@);
                    break ;
                },
            }
        }
        list
    }
}

} // verus!
