use vessels::channel::IdChannel;
use vessels::codec::serialize_item;
use vessels::kind::{
    construct_poll, transport_aggregate, transport_future, transport_prim, transport_sink,
    transport_stream, TransportError,
};
use vessels::wire::{Aggregate, ChannelItem, ForkRef, FResult, Payload, Prim, StreamItem, WireKind};

#[test]
fn echo_primitive() {
    // one peer hands 42 to the channel; the other's construct resolves it
    let (value, wire) = transport_prim(Prim::U64(42));
    assert_eq!(value, Prim::U64(42));
    // wire witness: one frame, fork 0 carrying 42
    assert_eq!(wire.len(), 1);
    assert_eq!(wire[0], serialize_item(&ChannelItem(0, Payload::Prim(Prim::U64(42)))));
}

#[test]
fn every_primitive_round_trips() {
    assert_eq!(transport_prim(Prim::Unit).0, Prim::Unit);
    assert_eq!(transport_prim(Prim::Bool(true)).0, Prim::Bool(true));
    assert_eq!(transport_prim(Prim::I64(-7)).0, Prim::I64(-7));
    assert_eq!(transport_prim(Prim::U64(u64::MAX)).0, Prim::U64(u64::MAX));
    assert_eq!(
        transport_prim(Prim::Text(String::from("echo"))).0,
        Prim::Text(String::from("echo"))
    );
    assert_eq!(
        transport_prim(Prim::Text(String::new())).0,
        Prim::Text(String::new())
    );
}

#[test]
fn future_of_bool() {
    // the wrapped future resolved true; the peer's construct yields true
    let (value, wire) = transport_future(Ok(Prim::Bool(true)));
    assert_eq!(value, Ok(Prim::Bool(true)));
    // wire witness: fork 0 announces Ok on fork 2 (even allocator), then
    // fork 2 carries the payload
    assert_eq!(wire.len(), 2);
    assert_eq!(
        wire[0],
        serialize_item(&ChannelItem(0, Payload::Res(FResult::Value(ForkRef(2)))))
    );
    assert_eq!(wire[1], serialize_item(&ChannelItem(2, Payload::Prim(Prim::Bool(true)))));
}

#[test]
fn future_error_side() {
    let (value, wire) = transport_future(Err(Prim::Text(String::from("boom"))));
    assert_eq!(value, Err(Prim::Text(String::from("boom"))));
    assert_eq!(wire.len(), 2);
    assert_eq!(
        wire[0],
        serialize_item(&ChannelItem(0, Payload::Res(FResult::Error(ForkRef(2)))))
    );
}

#[test]
fn sink_of_three_strings() {
    let items = vec![
        Prim::Text(String::from("a")),
        Prim::Text(String::from("b")),
        Prim::Text(String::from("c")),
    ];
    let (trace, wire) = transport_sink(&items);
    // the host sink observes a, b, c in order
    assert_eq!(trace, items);
    // wire witness: forks 1, 3, 5 (odd allocator) each carry one string,
    // and fork 0 carries their references
    assert_eq!(wire.len(), 6);
    assert_eq!(
        wire[0],
        serialize_item(&ChannelItem(1, Payload::Prim(Prim::Text(String::from("a")))))
    );
    assert_eq!(wire[1], serialize_item(&ChannelItem(0, Payload::Fork(ForkRef(1)))));
    assert_eq!(
        wire[2],
        serialize_item(&ChannelItem(3, Payload::Prim(Prim::Text(String::from("b")))))
    );
    assert_eq!(wire[3], serialize_item(&ChannelItem(0, Payload::Fork(ForkRef(3)))));
    assert_eq!(
        wire[4],
        serialize_item(&ChannelItem(5, Payload::Prim(Prim::Text(String::from("c")))))
    );
    assert_eq!(wire[5], serialize_item(&ChannelItem(0, Payload::Fork(ForkRef(5)))));
}

#[test]
fn an_empty_sink_feed_leaves_no_trace() {
    let (trace, wire) = transport_sink(&vec![]);
    assert!(trace.is_empty());
    assert!(wire.is_empty());
}

#[test]
fn stream_yields_the_source_sequence() {
    let items = vec![Prim::U64(1), Prim::U64(2), Prim::U64(3)];
    let (yielded, wire) = transport_stream(&items);
    assert_eq!(yielded, items);
    // each element: its announcement on fork 0 and its payload on an even
    // fork; then the end marker
    assert_eq!(wire.len(), 7);
    assert_eq!(
        wire[0],
        serialize_item(&ChannelItem(0, Payload::Item(StreamItem::Item(ForkRef(2)))))
    );
    assert_eq!(wire[1], serialize_item(&ChannelItem(2, Payload::Prim(Prim::U64(1)))));
    assert_eq!(
        wire[2],
        serialize_item(&ChannelItem(0, Payload::Item(StreamItem::Item(ForkRef(4)))))
    );
    assert_eq!(wire[6], serialize_item(&ChannelItem(0, Payload::Item(StreamItem::End))));
}

#[test]
fn an_empty_stream_sends_only_the_end_marker() {
    let (yielded, wire) = transport_stream(&vec![]);
    assert!(yielded.is_empty());
    assert_eq!(wire.len(), 1);
    assert_eq!(wire[0], serialize_item(&ChannelItem(0, Payload::Item(StreamItem::End))));
}

#[test]
fn aggregates_rebuild_their_variant_and_fields() {
    let fields = vec![
        Prim::U64(31),
        Prim::Text(String::from("name")),
        Prim::Bool(false),
    ];
    let ((variant, rebuilt), wire) = transport_aggregate(5, &fields);
    assert_eq!(variant, 5);
    assert_eq!(rebuilt, fields);
    // each field travels on its own even fork, emitted before the tagged
    // frame that references them all
    assert_eq!(wire.len(), 4);
    assert_eq!(wire[0], serialize_item(&ChannelItem(2, Payload::Prim(Prim::U64(31)))));
    assert_eq!(
        wire[1],
        serialize_item(&ChannelItem(4, Payload::Prim(Prim::Text(String::from("name")))))
    );
    assert_eq!(
        wire[3],
        serialize_item(&ChannelItem(
            0,
            Payload::Agg(Aggregate {
                variant: 5,
                fields: vec![ForkRef(2), ForkRef(4), ForkRef(6)],
            })
        ))
    );
}

#[test]
fn a_fieldless_aggregate_is_one_frame() {
    let ((variant, rebuilt), wire) = transport_aggregate(1, &vec![]);
    assert_eq!(variant, 1);
    assert!(rebuilt.is_empty());
    assert_eq!(wire.len(), 1);
    assert_eq!(
        wire[0],
        serialize_item(&ChannelItem(
            0,
            Payload::Agg(Aggregate { variant: 1, fields: vec![] })
        ))
    );
}

#[test]
fn closing_the_transport_fails_every_pending_handle() {
    // several in-flight constructs: the root future and two sub-forks
    let mut b = IdChannel::new(true);
    b.value(WireKind::Res, WireKind::Unit).expect("installs");
    b.get_fork(ForkRef(2), WireKind::U64, WireKind::Unit).expect("installs");
    b.get_fork(ForkRef(4), WireKind::Text, WireKind::Unit).expect("installs");
    // nothing has arrived; every handle is pending
    assert_eq!(construct_poll(&mut b, 0), Ok(None));
    assert_eq!(construct_poll(&mut b, 2), Ok(None));
    // the transport goes away
    b.close();
    // every handle fails at once; none hangs
    assert_eq!(construct_poll(&mut b, 0), Err(TransportError));
    assert_eq!(construct_poll(&mut b, 2), Err(TransportError));
    assert_eq!(construct_poll(&mut b, 4), Err(TransportError));
}
