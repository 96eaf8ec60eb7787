use vessels::codec::{deserialize_item, serialize_item, DecodeError};
use vessels::reflection::{ArgumentCountError, CallError, OutOfRangeError, Receiver};
use vessels::registry::{Item, Registry};
use vessels::wire::{
    Call, ChannelItem, ForkRef, FResult, Payload, Prim, Response, ReturnItem, SerdeAny,
    StreamItem, WireKind,
};

fn round_trip(item: ChannelItem) {
    let reg = Registry::standard();
    let bytes = serialize_item(&item);
    let back = deserialize_item(&bytes, &reg).expect("a serialized frame deserializes");
    assert_eq!(back, item);
}

#[test]
fn prim_frames_round_trip() {
    round_trip(ChannelItem(0, Payload::Prim(Prim::Unit)));
    round_trip(ChannelItem(1, Payload::Prim(Prim::Bool(true))));
    round_trip(ChannelItem(2, Payload::Prim(Prim::Bool(false))));
    round_trip(ChannelItem(3, Payload::Prim(Prim::U64(0))));
    round_trip(ChannelItem(4, Payload::Prim(Prim::U64(u64::MAX))));
    round_trip(ChannelItem(5, Payload::Prim(Prim::I64(-1))));
    round_trip(ChannelItem(6, Payload::Prim(Prim::I64(i64::MIN))));
    round_trip(ChannelItem(7, Payload::Prim(Prim::Text(String::new()))));
    round_trip(ChannelItem(8, Payload::Prim(Prim::Text(String::from("hello")))));
    round_trip(ChannelItem(9, Payload::Prim(Prim::Text(String::from("héllo wörld")))));
}

#[test]
fn fork_and_result_frames_round_trip() {
    round_trip(ChannelItem(0, Payload::Fork(ForkRef(42))));
    round_trip(ChannelItem(0, Payload::Res(FResult::Value(ForkRef(2)))));
    round_trip(ChannelItem(0, Payload::Res(FResult::Error(ForkRef(4)))));
    round_trip(ChannelItem(0, Payload::Item(StreamItem::Item(ForkRef(6)))));
    round_trip(ChannelItem(0, Payload::Item(StreamItem::Error(ForkRef(8)))));
    round_trip(ChannelItem(0, Payload::Item(StreamItem::End)));
}

#[test]
fn call_and_response_frames_round_trip() {
    round_trip(ChannelItem(
        0,
        Payload::Call(Call {
            method: 3,
            args: vec![Prim::U64(9), Prim::Text(String::from("x")), Prim::Bool(false)],
            protocol: 17,
        }),
    ));
    round_trip(ChannelItem(
        0,
        Payload::Resp(Response {
            method: 3,
            protocol: 17,
            item: ReturnItem::Res(FResult::Value(ForkRef(10))),
        }),
    ));
    round_trip(ChannelItem(
        0,
        Payload::Resp(Response {
            method: 0,
            protocol: 1,
            item: ReturnItem::Error(CallError::ArgumentCount(ArgumentCountError {
                expected: 1,
                got: 2,
            })),
        }),
    ));
    round_trip(ChannelItem(
        0,
        Payload::Resp(Response {
            method: 0,
            protocol: 1,
            item: ReturnItem::Error(CallError::OutOfRange(OutOfRangeError { index: 9 })),
        }),
    ));
    round_trip(ChannelItem(
        0,
        Payload::Resp(Response {
            method: 0,
            protocol: 1,
            item: ReturnItem::Error(CallError::IncorrectReceiver(Receiver::Owned)),
        }),
    ));
}

#[test]
fn exact_bytes_of_the_echo_frame() {
    // fork id 0 in eight little-endian bytes, the u64 tag, then 42
    let bytes = serialize_item(&ChannelItem(0, Payload::Prim(Prim::U64(42))));
    let expected = vec![
        0, 0, 0, 0, 0, 0, 0, 0, // channel 0
        2, // u64 tag
        42, 0, 0, 0, 0, 0, 0, 0, // the value
    ];
    assert_eq!(bytes, expected);
}

#[test]
fn exact_bytes_of_a_text_frame() {
    let bytes = serialize_item(&ChannelItem(1, Payload::Prim(Prim::Text(String::from("ab")))));
    let expected = vec![
        1, 0, 0, 0, 0, 0, 0, 0, // channel 1
        4, // text tag
        2, 0, 0, 0, 0, 0, 0, 0, // two bytes of UTF-8
        b'a', b'b',
    ];
    assert_eq!(bytes, expected);
}

#[test]
fn truncated_buffers_are_refused() {
    let reg = Registry::standard();
    assert_eq!(deserialize_item(&vec![], &reg), Err(DecodeError::Truncated));
    assert_eq!(
        deserialize_item(&vec![0, 0, 0, 0, 0, 0, 0, 0, 2, 42], &reg),
        Err(DecodeError::Truncated)
    );
}

#[test]
fn unknown_tags_are_refused() {
    let reg = Registry::standard();
    assert_eq!(
        deserialize_item(&vec![0, 0, 0, 0, 0, 0, 0, 0, 99], &reg),
        Err(DecodeError::BadTag)
    );
}

#[test]
fn invalid_text_is_refused() {
    let reg = Registry::standard();
    let bytes = vec![
        0, 0, 0, 0, 0, 0, 0, 0, // channel
        4, // text tag
        1, 0, 0, 0, 0, 0, 0, 0, // one byte
        0xff, // not valid UTF-8
    ];
    assert_eq!(deserialize_item(&bytes, &reg), Err(DecodeError::Utf8));
}

#[test]
fn trailing_bytes_are_refused() {
    let reg = Registry::standard();
    let mut bytes = serialize_item(&ChannelItem(0, Payload::Prim(Prim::U64(42))));
    bytes.push(0);
    assert_eq!(deserialize_item(&bytes, &reg), Err(DecodeError::Trailing));
}

#[test]
fn unregistered_kinds_are_refused() {
    let empty = Registry::new();
    let bytes = serialize_item(&ChannelItem(0, Payload::Prim(Prim::U64(42))));
    assert_eq!(deserialize_item(&bytes, &empty), Err(DecodeError::UnknownKind));
    // registering the kind makes the same frame decodable
    let mut reg = Registry::new();
    reg.register(Item::new(WireKind::U64));
    assert!(deserialize_item(&bytes, &reg).is_ok());
}

#[test]
fn wire_items_embed_and_extract() {
    let p = Payload::Prim(Prim::U64(5)).clone();
    assert_eq!(Prim::from_payload(p), Some(Prim::U64(5)));
    assert_eq!(Prim::from_payload(Payload::Fork(ForkRef(1))), None);
    assert_eq!(ForkRef(9).into_payload(), Payload::Fork(ForkRef(9)));
    assert_eq!(
        FResult::from_payload(FResult::Value(ForkRef(2)).into_payload()),
        Some(FResult::Value(ForkRef(2)))
    );
    assert_eq!(
        StreamItem::from_payload(StreamItem::End.into_payload()),
        Some(StreamItem::End)
    );
}
