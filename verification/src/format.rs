//! The human-readable wire format, and the adapter that lifts it to bytes.
//!
//! A frame renders as a map with two fixed keys: the fork id under
//! `channel` and the payload under `data`, each value spelled as a string
//! of hexadecimal byte pairs.  [`AsBytes`] turns this string-producing
//! format into a byte-producing one by UTF-8 transcoding, so a text
//! transport and a binary transport can carry the same frames.

use vstd::bytes::*;
use vstd::prelude::*;
use vstd::slice::{slice_subrange, slice_to_vec};
use vstd::utf8::*;

use crate::codec::{
    deserialize_payload, hex_digit, hex_digit_char, item_wf, lemma_sd_payload, push_char,
    serialize_item, spec_decode_payload, spec_encode_payload, string_from_utf8, DecodeError,
};
use crate::registry::Registry;
use crate::wire::{payload_view_kind, ChannelItem, ChannelItemV, Payload};

verus! {

/// The two hexadecimal characters of one byte.
pub open spec fn hex_pair(b: u8) -> Seq<char> {
    seq![hex_digit(b as int / 16), hex_digit(b as int % 16)]
}

/// The hexadecimal characters of a byte string, two per byte.
pub open spec fn hex_chars(s: Seq<u8>) -> Seq<char>
    decreases s.len(),
{
    if s.len() == 0 {
        Seq::empty()
    } else {
        hex_pair(s[0]) + hex_chars(s.drop_first())
    }
}

/// The opening of the map up to the channel value.
pub open spec fn text_head() -> Seq<char> {
    seq!['{', '"', 'c', 'h', 'a', 'n', 'n', 'e', 'l', '"', ':', '"']
}

/// The middle of the map between the channel value and the data value.
pub open spec fn text_mid() -> Seq<char> {
    seq!['"', ',', '"', 'd', 'a', 't', 'a', '"', ':', '"']
}

/// The closing of the map after the data value.
pub open spec fn text_tail() -> Seq<char> {
    seq!['"', '}']
}

/// The human-readable rendering of one frame.
pub open spec fn spec_text_item(ci: ChannelItemV) -> Seq<char> {
    text_head() + hex_chars(spec_u64_to_le_bytes(ci.channel)) + text_mid() + hex_chars(
        spec_encode_payload(ci.data),
    ) + text_tail()
}

/// The value of one hexadecimal character, if it is one.
pub open spec fn nibble_of(c: char) -> Option<u8> {
    if c == '0' {
        Some(0)
    } else if c == '1' {
        Some(1)
    } else if c == '2' {
        Some(2)
    } else if c == '3' {
        Some(3)
    } else if c == '4' {
        Some(4)
    } else if c == '5' {
        Some(5)
    } else if c == '6' {
        Some(6)
    } else if c == '7' {
        Some(7)
    } else if c == '8' {
        Some(8)
    } else if c == '9' {
        Some(9)
    } else if c == 'a' {
        Some(10)
    } else if c == 'b' {
        Some(11)
    } else if c == 'c' {
        Some(12)
    } else if c == 'd' {
        Some(13)
    } else if c == 'e' {
        Some(14)
    } else if c == 'f' {
        Some(15)
    } else {
        None
    }
}

/// Reads exactly `n` bytes of hexadecimal pairs.
pub open spec fn sd_hex_bytes(t: Seq<char>, n: nat) -> Option<(Seq<u8>, Seq<char>)>
    decreases n,
{
    if n == 0 {
        Some((Seq::empty(), t))
    } else if t.len() < 2 {
        None
    } else {
        match (nibble_of(t[0]), nibble_of(t[1])) {
            (Some(h), Some(l)) => match sd_hex_bytes(t.skip(2), (n - 1) as nat) {
                Some((s, r)) => Some((seq![(h * 16 + l) as u8] + s, r)),
                None => None,
            },
            _ => None,
        }
    }
}

/// Reads bytes of hexadecimal pairs until a character that is not one.
pub open spec fn sd_hex_run(t: Seq<char>) -> Option<(Seq<u8>, Seq<char>)>
    decreases t.len(),
{
    if t.len() == 0 || nibble_of(t[0]) is None {
        Some((Seq::empty(), t))
    } else if t.len() < 2 {
        None
    } else {
        match (nibble_of(t[0]), nibble_of(t[1])) {
            (Some(h), Some(l)) => match sd_hex_run(t.skip(2)) {
                Some((s, r)) => Some((seq![(h * 16 + l) as u8] + s, r)),
                None => None,
            },
            _ => None,
        }
    }
}

/// What the human-readable rendering of a frame decodes to: the map's
/// fixed shape, the channel in exactly eight hexadecimal byte pairs, the
/// payload's bytes up to the closing quote, and the payload decoded from
/// them with nothing left over.
pub open spec fn spec_decode_text(t: Seq<char>) -> Option<ChannelItemV> {
    if t.len() < 12 || t.take(12) != text_head() {
        None
    } else {
        match sd_hex_bytes(t.skip(12), 8) {
            Some((chb, r2)) => if r2.len() < 10 || r2.take(10) != text_mid() {
                None
            } else {
                match sd_hex_run(r2.skip(10)) {
                    Some((pb, r4)) => if r4 != text_tail() {
                        None
                    } else {
                        match spec_decode_payload(pb) {
                            Some(p) => Some(
                                ChannelItemV { channel: spec_u64_from_le_bytes(chb), data: p },
                            ),
                            None => None,
                        }
                    },
                    None => None,
                }
            },
            None => None,
        }
    }
}

/// Appends the hexadecimal pair of one byte.
fn push_hex_pair(s: &mut String, b: u8)
    ensures
        final(s)@ == old(s)@ + hex_pair(b),
{
    push_char(s, hex_digit_char(b / 16));
    push_char(s, hex_digit_char(b % 16));
    proof {
        assert((b / 16) as int == b as int / 16);
        assert((b % 16) as int == b as int % 16);
        assert(s@ =~= old(s)@ + hex_pair(b));
    }
}

proof fn lemma_hex_chars_snoc(s: Seq<u8>, b: u8)
    ensures
        hex_chars(s.push(b)) == hex_chars(s) + hex_pair(b),
    decreases s.len(),
{
    if s.len() == 0 {
        assert(s.push(b).drop_first() =~= Seq::<u8>::empty());
        assert(hex_chars(Seq::<u8>::empty()) =~= Seq::<char>::empty());
        assert(s.push(b)[0] == b);
        assert(hex_chars(s.push(b)) =~= hex_chars(s) + hex_pair(b));
    } else {
        lemma_hex_chars_snoc(s.drop_first(), b);
        assert(s.push(b).drop_first() =~= s.drop_first().push(b));
        assert(s.push(b)[0] == s[0]);
        assert(s.push(b).len() > 0);
        assert(hex_chars(s.push(b)) == hex_pair(s[0]) + hex_chars(s.drop_first().push(b)));
        assert(hex_chars(s.push(b)) =~= hex_chars(s) + hex_pair(b));
    }
}

/// Appends the hexadecimal pairs of a byte string.
fn push_hex_bytes(s: &mut String, bytes: &Vec<u8>)
    ensures
        final(s)@ == old(s)@ + hex_chars(bytes@),
{
    let mut i: usize = 0;
    while i < bytes.len()
        invariant
            i <= bytes@.len(),
            s@ == old(s)@ + hex_chars(bytes@.take(i as int)),
        decreases bytes@.len() - i,
    {
        push_hex_pair(s, bytes[i]);
        proof {
            assert(bytes@.take(i + 1) =~= bytes@.take(i as int).push(bytes@[i as int]));
            lemma_hex_chars_snoc(bytes@.take(i as int), bytes@[i as int]);
        }
        i = i + 1;
    }
    proof {
        assert(bytes@.take(bytes@.len() as int) =~= bytes@);
    }
}

/// Renders one frame in the human-readable format.
pub fn serialize_item_text(item: &ChannelItem) -> (out: String)
    ensures
        out@ == spec_text_item(item@),
        item_wf(item@),
{
    let all = serialize_item(item);
    let chb = u64_to_le_bytes(item.0);
    let pb = slice_to_vec(slice_subrange(all.as_slice(), 8, all.len()));
    proof {
        lemma_auto_spec_u64_to_from_le_bytes();
        assert(pb@ =~= spec_encode_payload(item@.data));
    }
    let mut out = String::from_str("{\"channel\":\"");
    proof {
        reveal_strlit("{\"channel\":\"");
        assert(out@ =~= text_head());
    }
    push_hex_bytes(&mut out, &chb);
    out.append("\",\"data\":\"");
    proof {
        reveal_strlit("\",\"data\":\"");
        assert(out@ =~= text_head() + hex_chars(spec_u64_to_le_bytes(item.0)) + text_mid());
    }
    push_hex_bytes(&mut out, &pb);
    out.append("\"}");
    proof {
        reveal_strlit("\"}");
        assert(out@ =~= spec_text_item(item@));
    }
    out
}

proof fn lemma_nibble_inverse(d: u8)
    requires
        d < 16,
    ensures
        nibble_of(hex_digit(d as int)) == Some(d),
{
}

proof fn lemma_sd_hex_bytes(s: Seq<u8>, rest: Seq<char>)
    ensures
        sd_hex_bytes(hex_chars(s) + rest, s.len()) == Some((s, rest)),
    decreases s.len(),
{
    if s.len() == 0 {
        assert(hex_chars(s) + rest =~= rest);
        assert(Seq::<u8>::empty() =~= s);
    } else {
        let t = hex_chars(s) + rest;
        let tail = s.drop_first();
        assert(t =~= hex_pair(s[0]) + (hex_chars(tail) + rest));
        lemma_nibble_inverse((s[0] / 16) as u8);
        lemma_nibble_inverse((s[0] % 16) as u8);
        assert(t[0] == hex_digit(s[0] as int / 16));
        assert(t[1] == hex_digit(s[0] as int % 16));
        assert(t.skip(2) =~= hex_chars(tail) + rest);
        lemma_sd_hex_bytes(tail, rest);
        assert(seq![s[0]] + tail =~= s);
    }
}

proof fn lemma_sd_hex_run(s: Seq<u8>, rest: Seq<char>)
    requires
        rest.len() > 0,
        nibble_of(rest[0]) is None,
    ensures
        sd_hex_run(hex_chars(s) + rest) == Some((s, rest)),
    decreases s.len(),
{
    if s.len() == 0 {
        assert(hex_chars(s) + rest =~= rest);
        assert(Seq::<u8>::empty() =~= s);
    } else {
        let t = hex_chars(s) + rest;
        let tail = s.drop_first();
        assert(t =~= hex_pair(s[0]) + (hex_chars(tail) + rest));
        lemma_nibble_inverse((s[0] / 16) as u8);
        lemma_nibble_inverse((s[0] % 16) as u8);
        assert(t[0] == hex_digit(s[0] as int / 16));
        assert(t[1] == hex_digit(s[0] as int % 16));
        assert(t.skip(2) =~= hex_chars(tail) + rest);
        lemma_sd_hex_run(tail, rest);
        assert(seq![s[0]] + tail =~= s);
    }
}

/// The human-readable round trip: decoding the rendering of any
/// well-formed frame yields that frame back.
pub proof fn lemma_text_round_trip(ci: ChannelItemV)
    requires
        item_wf(ci),
    ensures
        spec_decode_text(spec_text_item(ci)) == Some(ci),
{
    let chb = spec_u64_to_le_bytes(ci.channel);
    let pb = spec_encode_payload(ci.data);
    let t = spec_text_item(ci);
    lemma_auto_spec_u64_to_from_le_bytes();
    assert(t.take(12) =~= text_head());
    assert(t.skip(12) =~= hex_chars(chb) + (text_mid() + (hex_chars(pb) + text_tail())));
    lemma_sd_hex_bytes(chb, text_mid() + (hex_chars(pb) + text_tail()));
    let r2 = text_mid() + (hex_chars(pb) + text_tail());
    assert(r2.take(10) =~= text_mid());
    assert(r2.skip(10) =~= hex_chars(pb) + text_tail());
    lemma_sd_hex_run(pb, text_tail());
    lemma_sd_payload(ci.data, Seq::<u8>::empty());
    assert(pb + Seq::<u8>::empty() =~= pb);
}

/// A nibble of one character, if it is a hexadecimal digit.
fn nibble(c: char) -> (r: Option<u8>)
    ensures
        r == nibble_of(c),
{
    if c == '0' {
        Some(0)
    } else if c == '1' {
        Some(1)
    } else if c == '2' {
        Some(2)
    } else if c == '3' {
        Some(3)
    } else if c == '4' {
        Some(4)
    } else if c == '5' {
        Some(5)
    } else if c == '6' {
        Some(6)
    } else if c == '7' {
        Some(7)
    } else if c == '8' {
        Some(8)
    } else if c == '9' {
        Some(9)
    } else if c == 'a' {
        Some(10)
    } else if c == 'b' {
        Some(11)
    } else if c == 'c' {
        Some(12)
    } else if c == 'd' {
        Some(13)
    } else if c == 'e' {
        Some(14)
    } else if c == 'f' {
        Some(15)
    } else {
        None
    }
}

/// Parses one frame of the human-readable format, seeded with the kind
/// registry as binary deserialization is.
pub fn deserialize_item_text(text: &String, registry: &Registry) -> (r: Result<
    ChannelItem,
    DecodeError,
>)
    ensures
        match r {
            Ok(v) => {
                &&& spec_decode_text(text@) == Some(v@)
                &&& registry.registered(payload_view_kind(v@.data))
            },
            Err(e) => spec_decode_text(text@) is None || (e == DecodeError::UnknownKind
                && !registry.registered(
                    payload_view_kind(spec_decode_text(text@)->Some_0.data),
                )),
        },
{
    let s = text.as_str();
    let n = s.unicode_len();
    if n < 12 {
        return Err(DecodeError::Truncated);
    }
    // the opening of the map
    if !(s.get_char(0) == '{' && s.get_char(1) == '"' && s.get_char(2) == 'c' && s.get_char(3)
        == 'h' && s.get_char(4) == 'a' && s.get_char(5) == 'n' && s.get_char(6) == 'n'
        && s.get_char(7) == 'e' && s.get_char(8) == 'l' && s.get_char(9) == '"' && s.get_char(10)
        == ':' && s.get_char(11) == '"') {
        proof {
            assert(text@.take(12) != text_head()) by {
                if text@.take(12) == text_head() {
                    assert(forall|j: int|
                        0 <= j < 12 ==> text@[j] == #[trigger] text_head()[j]);
                }
            }
        }
        return Err(DecodeError::BadTag);
    }
    proof {
        assert(text@.take(12) =~= text_head());
    }

    // the channel: exactly eight bytes of hexadecimal pairs
    let ghost t1 = text@.skip(12);
    let mut chb: Vec<u8> = Vec::new();
    let mut pos: usize = 12;
    while chb.len() < 8
        invariant
            s@ == text@,
            text@.len() == n,
            12 <= pos <= n,
            chb@.len() <= 8,
            pos == 12 + 2 * chb@.len(),
            t1 == text@.skip(12),
            text@.take(12) == text_head(),
            sd_hex_bytes(t1, 8) == (match sd_hex_bytes(
                text@.skip(pos as int),
                (8 - chb@.len()) as nat,
            ) {
                Some((s2, r2)) => Some::<(Seq<u8>, Seq<char>)>((chb@ + s2, r2)),
                None => None::<(Seq<u8>, Seq<char>)>,
            }),
        decreases 8 - chb@.len(),
    {
        if n - pos < 2 {
            proof {
                assert(text@.skip(pos as int).len() < 2);
                assert(sd_hex_bytes(t1, 8) is None);
            }
            return Err(DecodeError::Truncated);
        }
        proof {
            assert(text@.skip(pos as int)[0] == text@[pos as int]);
            assert(text@.skip(pos as int)[1] == text@[pos as int + 1]);
        }
        let h = match nibble(s.get_char(pos)) {
            Some(h) => h,
            None => {
                proof {
                    assert(sd_hex_bytes(t1, 8) is None);
                }
                return Err(DecodeError::BadTag);
            }
        };
        let l = match nibble(s.get_char(pos + 1)) {
            Some(l) => l,
            None => {
                proof {
                    assert(sd_hex_bytes(t1, 8) is None);
                }
                return Err(DecodeError::BadTag);
            }
        };
        let ghost chb_before = chb@;
        chb.push(h * 16 + l);
        proof {
            assert(text@.skip(pos as int).skip(2) =~= text@.skip(pos as int + 2));
            assert forall|s2: Seq<u8>| chb_before + (seq![(h * 16 + l) as u8] + s2) =~= chb@
                + s2 by {}
        }
        pos = pos + 2;
    }
    proof {
        assert(chb@ + Seq::<u8>::empty() =~= chb@);
        assert(sd_hex_bytes(t1, 8) == Some((chb@, text@.skip(pos as int))));
    }

    // the separator between the two map entries
    let mid_start = pos;
    let ghost r2 = text@.skip(mid_start as int);
    if n - pos < 10 {
        proof {
            assert(r2.len() < 10);
        }
        return Err(DecodeError::Truncated);
    }
    if !(s.get_char(pos) == '"' && s.get_char(pos + 1) == ',' && s.get_char(pos + 2) == '"'
        && s.get_char(pos + 3) == 'd' && s.get_char(pos + 4) == 'a' && s.get_char(pos + 5) == 't'
        && s.get_char(pos + 6) == 'a' && s.get_char(pos + 7) == '"' && s.get_char(pos + 8) == ':'
        && s.get_char(pos + 9) == '"') {
        proof {
            assert(forall|j: int| 0 <= j < 10 ==> r2.take(10)[j] == text@[mid_start + j]);
            assert(r2.take(10) != text_mid()) by {
                if r2.take(10) == text_mid() {
                    assert(forall|j: int|
                        0 <= j < 10 ==> r2.take(10)[j] == #[trigger] text_mid()[j]);
                }
            }
        }
        return Err(DecodeError::BadTag);
    }
    proof {
        assert(forall|j: int| 0 <= j < 10 ==> r2.take(10)[j] == text@[mid_start + j]);
        assert(r2.take(10) =~= text_mid());
    }
    pos = pos + 10;

    // the payload: hexadecimal pairs up to the closing quote
    let data_start = pos;
    let ghost r3 = text@.skip(data_start as int);
    let mut pb: Vec<u8> = Vec::new();
    loop
        invariant
            s@ == text@,
            text@.len() == n,
            data_start <= pos <= n,
            pos == data_start + 2 * pb@.len(),
            mid_start + 10 == data_start,
            chb@.len() == 8,
            text@.take(12) == text_head(),
            sd_hex_bytes(text@.skip(12), 8) == Some(
                (chb@, text@.skip(mid_start as int)),
            ),
            text@.skip(mid_start as int).take(10) == text_mid(),
            r3 == text@.skip(data_start as int),
            sd_hex_run(r3) == (match sd_hex_run(text@.skip(pos as int)) {
                Some((s2, rr)) => Some::<(Seq<u8>, Seq<char>)>((pb@ + s2, rr)),
                None => None::<(Seq<u8>, Seq<char>)>,
            }),
        ensures
            s@ == text@,
            text@.len() == n,
            data_start <= pos <= n,
            chb@.len() == 8,
            text@.take(12) == text_head(),
            sd_hex_bytes(text@.skip(12), 8) == Some(
                (chb@, text@.skip(mid_start as int)),
            ),
            mid_start + 10 == data_start,
            text@.skip(mid_start as int).take(10) == text_mid(),
            r3 == text@.skip(data_start as int),
            sd_hex_run(r3) == Some((pb@, text@.skip(pos as int))),
        decreases n - pos,
    {
        if pos >= n {
            proof {
                assert(pb@ + Seq::<u8>::empty() =~= pb@);
            }
            break;
        }
        proof {
            assert(text@.skip(pos as int)[0] == text@[pos as int]);
        }
        let h = match nibble(s.get_char(pos)) {
            Some(h) => h,
            None => {
                proof {
                    assert(pb@ + Seq::<u8>::empty() =~= pb@);
                }
                break;
            }
        };
        if n - pos < 2 {
            proof {
                assert(sd_hex_run(r3) is None);
                assert(text@.skip(mid_start as int).skip(10) =~= text@.skip(
                    data_start as int,
                ));
            }
            return Err(DecodeError::Truncated);
        }
        proof {
            assert(text@.skip(pos as int)[1] == text@[pos as int + 1]);
        }
        let l = match nibble(s.get_char(pos + 1)) {
            Some(l) => l,
            None => {
                proof {
                    assert(sd_hex_run(r3) is None);
                    assert(text@.skip(mid_start as int).skip(10) =~= text@.skip(
                        data_start as int,
                    ));
                }
                return Err(DecodeError::BadTag);
            }
        };
        let ghost pb_before = pb@;
        pb.push(h * 16 + l);
        proof {
            assert(text@.skip(pos as int).skip(2) =~= text@.skip(pos as int + 2));
            assert forall|s2: Seq<u8>| pb_before + (seq![(h * 16 + l) as u8] + s2) =~= pb@
                + s2 by {}
        }
        pos = pos + 2;
    }

    // the closing of the map, and nothing after it
    proof {
        assert(text@.skip(mid_start as int).skip(10) =~= text@.skip(data_start as int));
    }
    let ghost r4 = text@.skip(pos as int);
    if !(n - pos == 2) {
        proof {
            assert(r4.len() != 2);
            assert(r4 != text_tail());
        }
        return Err(DecodeError::Trailing);
    }
    proof {
        assert(r4[0] == text@[pos as int]);
        assert(r4[1] == text@[pos as int + 1]);
    }
    if !(s.get_char(pos) == '"' && s.get_char(pos + 1) == '}') {
        proof {
            assert(r4 != text_tail());
        }
        return Err(DecodeError::BadTag);
    }
    proof {
        assert(r4 =~= text_tail());
    }

    // the channel id from its bytes, the payload from the binary decoder
    let ch = u64_from_le_bytes(chb.as_slice());
    match deserialize_payload(&pb, registry) {
        Ok(p) => Ok(ChannelItem(ch, p)),
        Err(e) => Err(e),
    }
}

/// The derived byte format: the human-readable rendering transcoded
/// through UTF-8.
pub struct AsBytes;

impl AsBytes {
    /// Serializes a frame through the human-readable format, then encodes
    /// the text as UTF-8.
    pub fn serialize(item: &ChannelItem) -> (out: Vec<u8>)
        ensures
            out@ == encode_utf8(spec_text_item(item@)),
            item_wf(item@),
    {
        let text = serialize_item_text(item);
        text.as_str().as_bytes_vec()
    }

    /// Decodes UTF-8 bytes back to the text and parses the frame from it.
    pub fn deserialize(bytes: &Vec<u8>, registry: &Registry) -> (r: Result<
        ChannelItem,
        DecodeError,
    >)
        ensures
            match r {
                Ok(v) => {
                    &&& valid_utf8(bytes@)
                    &&& spec_decode_text(decode_utf8(bytes@)) == Some(v@)
                    &&& registry.registered(payload_view_kind(v@.data))
                },
                Err(e) => !valid_utf8(bytes@) || spec_decode_text(decode_utf8(bytes@)) is None
                    || (e == DecodeError::UnknownKind && !registry.registered(
                    payload_view_kind(spec_decode_text(decode_utf8(bytes@))->Some_0.data),
                )),
            },
    {
        let copy = slice_to_vec(bytes.as_slice());
        let text = match string_from_utf8(copy) {
            Some(t) => t,
            None => {
                return Err(DecodeError::Utf8);
            }
        };
        proof {
            encode_utf8_valid_utf8(text@);
            encode_utf8_decode_utf8(text@);
        }
        deserialize_item_text(&text, registry)
    }
}

} // verus!
