//! Declarative children of different payload types in one marker: up to eight
//! slots, each empty or holding the payload of one child.

use vstd::prelude::*;

verus! {

/// When attached to an entity, asks for one child entity per slot that holds a
/// payload, in the order of the slots. An empty slot asks for nothing.
///
/// Each slot has a payload type of its own, so one marker can ask for children
/// that are built differently. For a run of children of one type, use
/// [`WithChildrenN`](crate::WithChildrenN).
#[derive(Debug, Clone, Default)]
pub struct WithChildSlots<B1, B2, B3, B4, B5, B6, B7, B8>(
    pub Option<B1>,
    pub Option<B2>,
    pub Option<B3>,
    pub Option<B4>,
    pub Option<B5>,
    pub Option<B6>,
    pub Option<B7>,
    pub Option<B8>,
);

/// The payload of one child that a [`WithChildSlots`] asks for, under the slot
/// that held it.
#[derive(Debug, Clone, PartialEq, Eq)]
pub enum SlotPayload<B1, B2, B3, B4, B5, B6, B7, B8> {
    First(B1),
    Second(B2),
    Third(B3),
    Fourth(B4),
    Fifth(B5),
    Sixth(B6),
    Seventh(B7),
    Eighth(B8),
}

impl<B1, B2, B3, B4, B5, B6, B7, B8> SlotPayload<B1, B2, B3, B4, B5, B6, B7, B8> {
    /// The number of the slot that held the payload, from 1 to 8.
    pub open spec fn slot(self) -> nat {
        match self {
            SlotPayload::First(_) => 1,
            SlotPayload::Second(_) => 2,
            SlotPayload::Third(_) => 3,
            SlotPayload::Fourth(_) => 4,
            SlotPayload::Fifth(_) => 5,
            SlotPayload::Sixth(_) => 6,
            SlotPayload::Seventh(_) => 7,
            SlotPayload::Eighth(_) => 8,
        }
    }

    /// The number of the slot that held the payload, from 1 to 8.
    pub fn slot_number(&self) -> (number: u8)
        ensures
            number == self.slot(),
    {
        match self {
            SlotPayload::First(_) => 1,
            SlotPayload::Second(_) => 2,
            SlotPayload::Third(_) => 3,
            SlotPayload::Fourth(_) => 4,
            SlotPayload::Fifth(_) => 5,
            SlotPayload::Sixth(_) => 6,
            SlotPayload::Seventh(_) => 7,
            SlotPayload::Eighth(_) => 8,
        }
    }
}

impl<B1, B2, B3, B4, B5, B6, B7, B8> WithChildSlots<B1, B2, B3, B4, B5, B6, B7, B8> {
    /// What slot `number` holds, wrapped; `None` if the slot is empty or there
    /// is no such slot.
    pub open spec fn at(self, number: nat) -> Option<SlotPayload<B1, B2, B3, B4, B5, B6, B7, B8>> {
        if number == 1 && self.0 is Some {
            Some(SlotPayload::First(self.0->0))
        } else if number == 2 && self.1 is Some {
            Some(SlotPayload::Second(self.1->0))
        } else if number == 3 && self.2 is Some {
            Some(SlotPayload::Third(self.2->0))
        } else if number == 4 && self.3 is Some {
            Some(SlotPayload::Fourth(self.3->0))
        } else if number == 5 && self.4 is Some {
            Some(SlotPayload::Fifth(self.4->0))
        } else if number == 6 && self.5 is Some {
            Some(SlotPayload::Sixth(self.5->0))
        } else if number == 7 && self.6 is Some {
            Some(SlotPayload::Seventh(self.6->0))
        } else if number == 8 && self.7 is Some {
            Some(SlotPayload::Eighth(self.7->0))
        } else {
            None
        }
    }

    /// How many of the first `upto` slots hold a payload.
    pub open spec fn present_among(self, upto: nat) -> nat
        decreases upto,
    {
        if upto == 0 {
            0
        } else if self.at(upto) is Some {
            self.present_among((upto - 1) as nat) + 1
        } else {
            self.present_among((upto - 1) as nat)
        }
    }

    /// The payloads of the first `upto` slots that hold one, first slot first.
    pub open spec fn payloads_among(self, upto: nat) -> Seq<
        SlotPayload<B1, B2, B3, B4, B5, B6, B7, B8>,
    >
        decreases upto,
    {
        if upto == 0 {
            Seq::empty()
        } else if self.at(upto) is Some {
            self.payloads_among((upto - 1) as nat).push(self.at(upto)->0)
        } else {
            self.payloads_among((upto - 1) as nat)
        }
    }

    /// How many slots hold a payload.
    pub open spec fn present(self) -> nat {
        self.present_among(8)
    }

    /// The payloads that the marker declares: those of the slots that hold
    /// one, first slot first.
    pub open spec fn payloads(self) -> Seq<SlotPayload<B1, B2, B3, B4, B5, B6, B7, B8>> {
        self.payloads_among(8)
    }

    /// Takes the marker apart into the payloads it declares.
    pub fn into_payloads(self) -> (list: Vec<SlotPayload<B1, B2, B3, B4, B5, B6, B7, B8>>)
        ensures
            list@ == self.payloads(),
    {
        let mut list: Vec<SlotPayload<B1, B2, B3, B4, B5, B6, B7, B8>> = Vec::new();
        assert(list@ == self.payloads_among(0));
        if let Some(payload) = self.0 {
            list.push(SlotPayload::First(payload));
        }
        assert(list@ == self.payloads_among(1));
        if let Some(payload) = self.1 {
            list.push(SlotPayload::Second(payload));
        }
        assert(list@ == self.payloads_among(2));
        if let Some(payload) = self.2 {
            list.push(SlotPayload::Third(payload));
        }
        assert(list@ == self.payloads_among(3));
        if let Some(payload) = self.3 {
            list.push(SlotPayload::Fourth(payload));
        }
        assert(list@ == self.payloads_among(4));
        if let Some(payload) = self.4 {
            list.push(SlotPayload::Fifth(payload));
        }
        assert(list@ == self.payloads_among(5));
        if let Some(payload) = self.5 {
            list.push(SlotPayload::Sixth(payload));
        }
        assert(list@ == self.payloads_among(6));
        if let Some(payload) = self.6 {
            list.push(SlotPayload::Seventh(payload));
        }
        assert(list@ == self.payloads_among(7));
        if let Some(payload) = self.7 {
            list.push(SlotPayload::Eighth(payload));
        }
        assert(list@ == self.payloads_among(8));
        list
    }

    /// Among the first `upto` slots: the payloads are as many as the slots
    /// that hold one, they come in the order of the slots, each is what its
    /// slot holds, and no slot that holds one is left out.
    pub proof fn lemma_payloads_among(self, upto: nat)
        requires
            upto <= 8,
        ensures
            self.payloads_among(upto).len() == self.present_among(upto),
            forall|i: int|
                0 <= i < self.payloads_among(upto).len() ==> 1 <= (
                #[trigger] self.payloads_among(upto)[i]).slot() <= upto,
            forall|i: int, j: int|
                0 <= i < j < self.payloads_among(upto).len() ==> (
                #[trigger] self.payloads_among(upto)[i]).slot() < (
                #[trigger] self.payloads_among(upto)[j]).slot(),
            forall|i: int|
                0 <= i < self.payloads_among(upto).len() ==> self.at(
                    (#[trigger] self.payloads_among(upto)[i]).slot(),
                ) == Some(self.payloads_among(upto)[i]),
            forall|number: nat|
                1 <= number <= upto && (#[trigger] self.at(number)) is Some
                    ==> self.payloads_among(upto).contains(self.at(number)->0),
        decreases upto,
    {
        if upto > 0 {
            let fewer = (upto - 1) as nat;
            self.lemma_payloads_among(fewer);
            let shorter = self.payloads_among(fewer);
            let list = self.payloads_among(upto);
            if self.at(upto) is Some {
                let last = self.at(upto)->0;
                assert(last.slot() == upto);
                assert(list == shorter.push(last));
                assert(list[shorter.len() as int] == last);
                assert forall|number: nat|
                    1 <= number <= upto && (#[trigger] self.at(number)) is Some implies list.contains(
                    self.at(number)->0,
                ) by {
                    if number < upto {
                        let at = choose|i: int|
                            0 <= i < shorter.len() && shorter[i] == self.at(number)->0;
                        assert(list[at] == self.at(number)->0);
                    }
                }
            }
        }
    }

    /// The children of a slotted marker are as many as its slots that hold a
    /// payload, they come in the order of the slots, each is the payload that
    /// its slot held, and no such slot is left out, whichever slots are
    /// empty.
    pub proof fn lemma_payloads_follow_slots(self)
        ensures
            self.payloads().len() == self.present(),
            forall|i: int, j: int|
                0 <= i < j < self.payloads().len() ==> (#[trigger] self.payloads()[i]).slot() < (
                #[trigger] self.payloads()[j]).slot(),
            forall|i: int|
                0 <= i < self.payloads().len() ==> self.at(
                    (#[trigger] self.payloads()[i]).slot(),
                ) == Some(self.payloads()[i]),
            forall|number: nat|
                (#[trigger] self.at(number)) is Some ==> self.payloads().contains(
                    self.at(number)->0,
                ),
    {
        self.lemma_payloads_among(8);
    }
}

impl<B> SlotPayload<B, B, B, B, B, B, B, B> {
    /// The payload itself, where all slots hold payloads of one type.
    pub open spec fn payload(self) -> B {
        match self {
            SlotPayload::First(payload) => payload,
            SlotPayload::Second(payload) => payload,
            SlotPayload::Third(payload) => payload,
            SlotPayload::Fourth(payload) => payload,
            SlotPayload::Fifth(payload) => payload,
            SlotPayload::Sixth(payload) => payload,
            SlotPayload::Seventh(payload) => payload,
            SlotPayload::Eighth(payload) => payload,
        }
    }
}

impl<B> WithChildSlots<B, B, B, B, B, B, B, B> {
    /// The payloads that the marker declares, unwrapped, where all slots hold
    /// payloads of one type.
    pub open spec fn uniform_payloads(self) -> Seq<B> {
        Seq::new(self.payloads().len(), |i: int| self.payloads()[i].payload())
    }
}

/// A marker with the given slots.
pub fn spawn_slotted_children<B1, B2, B3, B4, B5, B6, B7, B8>(
    first: Option<B1>,
    second: Option<B2>,
    third: Option<B3>,
    fourth: Option<B4>,
    fifth: Option<B5>,
    sixth: Option<B6>,
    seventh: Option<B7>,
    eighth: Option<B8>,
) -> (marker: WithChildSlots<B1, B2, B3, B4, B5, B6, B7, B8>)
    ensures
        marker == WithChildSlots(first, second, third, fourth, fifth, sixth, seventh, eighth),
{
    WithChildSlots(first, second, third, fourth, fifth, sixth, seventh, eighth)
}

} // verus!
