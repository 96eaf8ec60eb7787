use vessels::codec::DecodeError;
use vessels::format::{deserialize_item_text, serialize_item_text, AsBytes};
use vessels::registry::Registry;
use vessels::wire::{Call, ChannelItem, ForkRef, FResult, Payload, Prim};

fn round_trip_text(item: ChannelItem) {
    let reg = Registry::standard();
    let text = serialize_item_text(&item);
    let back = deserialize_item_text(&text, &reg).expect("a rendered frame parses");
    assert_eq!(back, item);
}

#[test]
fn frames_round_trip_through_text() {
    round_trip_text(ChannelItem(0, Payload::Prim(Prim::U64(42))));
    round_trip_text(ChannelItem(7, Payload::Prim(Prim::Text(String::from("héllo")))));
    round_trip_text(ChannelItem(2, Payload::Res(FResult::Value(ForkRef(4)))));
    round_trip_text(ChannelItem(
        0,
        Payload::Call(Call { method: 1, args: vec![Prim::Bool(true)], protocol: 3 }),
    ));
}

#[test]
fn the_rendering_is_a_readable_map() {
    let text = serialize_item_text(&ChannelItem(0, Payload::Prim(Prim::Unit)));
    // channel 0 in eight hex byte pairs, then the unit payload's one byte
    assert_eq!(text, String::from("{\"channel\":\"0000000000000000\",\"data\":\"00\"}"));
    let text = serialize_item_text(&ChannelItem(1, Payload::Prim(Prim::Bool(true))));
    assert_eq!(text, String::from("{\"channel\":\"0100000000000000\",\"data\":\"0101\"}"));
}

#[test]
fn malformed_text_is_refused() {
    let reg = Registry::standard();
    assert_eq!(
        deserialize_item_text(&String::from(""), &reg),
        Err(DecodeError::Truncated)
    );
    assert_eq!(
        deserialize_item_text(&String::from("[\"channel\":\"0000000000000000"), &reg),
        Err(DecodeError::BadTag)
    );
    assert_eq!(
        deserialize_item_text(&String::from("{\"channel\":\"00000000"), &reg),
        Err(DecodeError::Truncated)
    );
    assert_eq!(
        deserialize_item_text(
            &String::from("{\"channel\":\"0000000000000000\",\"data\":\"00\"} "),
            &reg
        ),
        Err(DecodeError::Trailing)
    );
    assert_eq!(
        deserialize_item_text(
            &String::from("{\"channel\":\"zz00000000000000\",\"data\":\"00\"}"),
            &reg
        ),
        Err(DecodeError::BadTag)
    );
}

#[test]
fn bytes_lift_of_the_text_format() {
    let reg = Registry::standard();
    let item = ChannelItem(3, Payload::Prim(Prim::Text(String::from("over the wire"))));
    let bytes = AsBytes::serialize(&item);
    // the bytes are exactly the UTF-8 of the rendering
    let text = serialize_item_text(&item);
    assert_eq!(bytes, text.into_bytes());
    let back = AsBytes::deserialize(&bytes, &reg).expect("transcoded frame parses");
    assert_eq!(back, item);
}

#[test]
fn non_utf8_bytes_are_refused() {
    let reg = Registry::standard();
    assert_eq!(
        AsBytes::deserialize(&vec![0xff, 0xfe], &reg),
        Err(DecodeError::Utf8)
    );
}
