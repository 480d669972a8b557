//! The machines, step by step, with a store played by hand.

use i_cant_believe_its_not_bsn::command::{
    maybe_hook, with_child_hook, with_children_hook, MaybeCommand, WithChildCommand,
    WithChildrenCommand,
};
use i_cant_believe_its_not_bsn::expansion::{Expansion, Phase, Reply, Request};
use i_cant_believe_its_not_bsn::maybe::{Maybe, MaybePhase, MaybeReply, MaybeRequest, Substitution};
use i_cant_believe_its_not_bsn::missing::{diagnostic, CommandKind, Missing, MissingPolicy};
use i_cant_believe_its_not_bsn::slots::{spawn_slotted_children, SlotPayload, WithChildSlots};
use i_cant_believe_its_not_bsn::{
    spawn_child, spawn_children, spawn_repeated_children, WithChildN,
};

#[test]
fn single_child_run_asks_in_order() {
    let command: WithChildCommand<u32, &str, 0> = with_child_hook(7);
    assert_eq!(command.kind(), CommandKind::WithChild);
    let (mut run, request) = command.start();
    assert_eq!(request, Request::Lookup(7));
    assert_eq!(run.phase(), Phase::Lookup);

    assert_eq!(run.step(Reply::Found(true)), Request::Take(7));
    assert_eq!(run.phase(), Phase::Take);

    let taken = WithChildCommand::<u32, &str, 0>::taken(Some(spawn_child("payload")));
    assert_eq!(taken, Reply::Taken(Some(vec!["payload"])));
    assert_eq!(run.step(taken), Request::Spawn("payload"));
    assert_eq!(run.phase(), Phase::Spawn);

    assert_eq!(run.step(Reply::Spawned(40)), Request::Link { parent: 7, child: 40 });
    assert_eq!(run.phase(), Phase::Link);

    assert_eq!(run.step(Reply::Linked), Request::Finish(Ok(())));
    assert_eq!(run.phase(), Phase::Done);
}

#[test]
fn sequence_run_spawns_and_links_each_payload_in_turn() {
    let command: WithChildrenCommand<u32, u8, std::vec::IntoIter<u8>, 0> = with_children_hook(1);
    assert_eq!(command.kind(), CommandKind::WithChildren);
    let (mut run, request) = command.start();
    assert_eq!(request, Request::Lookup(1));
    assert_eq!(run.step(Reply::Found(true)), Request::Take(1));

    let marker = spawn_children(vec![10u8, 20, 30].into_iter());
    let taken = WithChildrenCommand::<u32, u8, std::vec::IntoIter<u8>, 0>::taken(Some(marker));
    assert_eq!(run.step(taken), Request::Spawn(10));
    assert_eq!(run.step(Reply::Spawned(100)), Request::Link { parent: 1, child: 100 });
    assert_eq!(run.step(Reply::Linked), Request::Spawn(20));
    assert_eq!(run.step(Reply::Spawned(101)), Request::Link { parent: 1, child: 101 });
    assert_eq!(run.step(Reply::Linked), Request::Spawn(30));
    assert_eq!(run.step(Reply::Spawned(102)), Request::Link { parent: 1, child: 102 });
    assert_eq!(run.step(Reply::Linked), Request::Finish(Ok(())));
}

#[test]
fn empty_sequence_ends_at_once() {
    let (mut run, _) = Expansion::<u32, u8>::start(1);
    run.step(Reply::Found(true));
    let marker = spawn_repeated_children::<u8, _, 4>(Vec::new().into_iter());
    assert_eq!(run.step(Reply::Taken(Some(marker.into_payloads()))), Request::Finish(Ok(())));
    assert_eq!(run.phase(), Phase::Done);
}

#[test]
fn missing_entity_ends_the_run_before_any_take() {
    let (mut run, _) = Expansion::<u32, u8>::start(5);
    assert_eq!(run.step(Reply::Found(false)), Request::Finish(Err(Missing::Entity)));
    assert_eq!(run.phase(), Phase::Done);
}

#[test]
fn missing_marker_ends_the_run_before_any_spawn() {
    let (mut run, _) = Expansion::<u32, u8>::start(5);
    run.step(Reply::Found(true));
    let taken = WithChildCommand::<u32, u8, 0>::taken(None);
    assert_eq!(taken, Reply::Taken(None));
    assert_eq!(run.step(taken), Request::Finish(Err(Missing::Marker)));
    assert_eq!(run.phase(), Phase::Done);
}

#[test]
fn run_awaits_only_the_answer_to_its_last_request() {
    let (mut run, _) = Expansion::<u32, u8>::start(5);
    assert!(run.awaits(&Reply::Found(true)));
    assert!(!run.awaits(&Reply::Linked));
    assert!(!run.awaits(&Reply::Spawned(3)));
    assert!(!run.awaits(&Reply::Taken(None)));
    run.step(Reply::Found(true));
    assert!(run.awaits(&Reply::Taken(None)));
    assert!(!run.awaits(&Reply::Found(true)));
    run.step(Reply::Taken(Some(vec![1])));
    assert!(run.awaits(&Reply::Spawned(3)));
    assert!(!run.awaits(&Reply::Linked));
    run.step(Reply::Spawned(3));
    assert!(run.awaits(&Reply::Linked));
    run.step(Reply::Linked);
    assert!(!run.awaits(&Reply::Linked));
    assert!(!run.awaits(&Reply::Found(true)));
}

#[test]
fn maybe_some_is_inserted_on_the_same_entity() {
    let command: MaybeCommand<u32, &str> = maybe_hook(3);
    assert_eq!(command.kind(), CommandKind::Maybe);
    let (mut run, request) = command.start();
    assert_eq!(request, MaybeRequest::Lookup(3));
    assert_eq!(run.phase(), MaybePhase::Lookup);
    assert_eq!(run.step::<&str>(MaybeReply::Found(true)), MaybeRequest::Take(3));
    assert_eq!(
        run.step(MaybeReply::Taken(Some(Maybe::new("payload")))),
        MaybeRequest::Insert { entity: 3, payload: "payload" }
    );
    assert_eq!(run.phase(), MaybePhase::Insert);
    assert_eq!(run.step::<&str>(MaybeReply::Inserted), MaybeRequest::Finish(Ok(())));
    assert_eq!(run.phase(), MaybePhase::Done);
}

#[test]
fn maybe_none_inserts_nothing() {
    let (mut run, _) = Substitution::<u32>::start::<u8>(3);
    run.step::<u8>(MaybeReply::Found(true));
    assert_eq!(
        run.step(MaybeReply::Taken(Some(Maybe::<u8>::none()))),
        MaybeRequest::Finish(Ok(()))
    );
    assert_eq!(run.phase(), MaybePhase::Done);
}

#[test]
fn maybe_run_reports_what_is_missing() {
    let (mut run, _) = Substitution::<u32>::start::<u8>(3);
    assert_eq!(run.step::<u8>(MaybeReply::Found(false)), MaybeRequest::Finish(Err(Missing::Entity)));

    let (mut run, _) = Substitution::<u32>::start::<u8>(3);
    run.step::<u8>(MaybeReply::Found(true));
    assert!(run.awaits(&MaybeReply::<u8>::Taken(None)));
    assert!(!run.awaits(&MaybeReply::<u8>::Inserted));
    assert_eq!(run.step::<u8>(MaybeReply::Taken(None)), MaybeRequest::Finish(Err(Missing::Marker)));
}

#[test]
fn maybe_default_wraps_nothing() {
    assert_eq!(Maybe::<u8>::default(), Maybe(None));
    assert_eq!(Maybe::<u8>::none().into_inner(), None);
    assert_eq!(Maybe::new(3u8), Maybe(Some(3)));
}

#[test]
fn slots_yield_present_payloads_in_slot_order() {
    let marker: WithChildSlots<u8, &str, u8, (), (), (), (), char> = spawn_slotted_children(
        Some(1),
        None,
        Some(3),
        None,
        None,
        None,
        None,
        Some('h'),
    );
    let payloads = marker.into_payloads();
    assert_eq!(
        payloads,
        vec![SlotPayload::First(1), SlotPayload::Third(3), SlotPayload::Eighth('h')]
    );
    let numbers: Vec<u8> = payloads.iter().map(|payload| payload.slot_number()).collect();
    assert_eq!(numbers, vec![1, 3, 8]);
}

#[test]
fn slots_all_empty_or_all_full() {
    let empty: WithChildSlots<u8, u8, u8, u8, u8, u8, u8, u8> =
        spawn_slotted_children(None, None, None, None, None, None, None, None);
    assert!(empty.into_payloads().is_empty());

    let full = spawn_slotted_children(
        Some(1u8),
        Some(2u8),
        Some(3u8),
        Some(4u8),
        Some(5u8),
        Some(6u8),
        Some(7u8),
        Some(8u8),
    );
    let numbers: Vec<u8> = full.into_payloads().iter().map(|p| p.slot_number()).collect();
    assert_eq!(numbers, vec![1, 2, 3, 4, 5, 6, 7, 8]);
}

#[test]
fn diagnostics_name_what_is_missing() {
    assert_eq!(diagnostic(CommandKind::WithChild, Missing::Entity), "Parent entity not found");
    assert_eq!(
        diagnostic(CommandKind::WithChild, Missing::Marker),
        "WithChild component not found"
    );
    assert_eq!(diagnostic(CommandKind::WithChildren, Missing::Entity), "Parent entity not found");
    assert_eq!(
        diagnostic(CommandKind::WithChildren, Missing::Marker),
        "WithChildren component not found"
    );
    assert_eq!(
        diagnostic(CommandKind::WithChildSlots, Missing::Marker),
        "WithChildSlots component not found"
    );
    assert_eq!(
        diagnostic(CommandKind::Maybe, Missing::Entity),
        "Entity with Maybe component not found"
    );
    assert_eq!(diagnostic(CommandKind::Maybe, Missing::Marker), "Maybe component not found");
}

#[test]
fn policy_decides_whether_a_missing_target_is_fatal() {
    let gone = Err(Missing::Entity);
    assert_eq!(
        MissingPolicy::Fatal.judge(CommandKind::WithChild, gone),
        Some("Parent entity not found")
    );
    assert_eq!(MissingPolicy::Ignore.judge(CommandKind::WithChild, gone), None);
    assert_eq!(MissingPolicy::Fatal.judge(CommandKind::Maybe, Ok(())), None);
    assert_eq!(MissingPolicy::Ignore.judge(CommandKind::Maybe, Ok(())), None);
    assert_eq!(
        MissingPolicy::Fatal.judge(CommandKind::Maybe, Err(Missing::Marker)),
        Some("Maybe component not found")
    );
}

#[test]
fn tagged_markers_keep_their_payload() {
    let marker: WithChildN<u8, 9> = WithChildN(5);
    assert_eq!(marker.clone().0, 5);
    assert_eq!(marker.into_payloads(), vec![5]);
}
