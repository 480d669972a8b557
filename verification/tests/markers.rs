use i_cant_believe_its_not_bsn::maybe::Maybe;
use i_cant_believe_its_not_bsn::{spawn_child, spawn_children, spawn_repeated_child};

#[test]
fn single_marker_wraps_its_payload() {
    let marker = spawn_child(7u32);
    assert_eq!(marker.0, 7);
    assert_eq!(marker.into_payloads(), vec![7]);
}

#[test]
fn tagged_marker_wraps_its_payload() {
    let marker = spawn_repeated_child::<_, 3>("payload");
    assert_eq!(marker.into_payloads(), vec!["payload"]);
}

#[test]
fn sequence_marker_yields_in_production_order() {
    let marker = spawn_children((0..4u8).map(|i| i * 2));
    assert_eq!(marker.into_payloads(), vec![0, 2, 4, 6]);
}

#[test]
fn maybe_round_trip() {
    assert_eq!(Maybe::new(5u8).into_inner(), Some(5));
}
