//! The format adapter: a self-describing byte encoding for [`ChannelItem`]
//! frames, with a proved round trip.
//!
//! A frame serializes as the fork id in eight little-endian bytes followed
//! by the payload: one tag byte naming the wire kind, then the kind's body.
//! Deserialization is seeded with the kind registry: a payload whose tag is
//! not registered is a fatal decode error, mirroring a peer that sent a kind
//! this process cannot decode.

use vstd::bytes::*;
use vstd::prelude::*;
use vstd::utf8::*;

use vstd::slice::{slice_subrange, slice_to_vec};

use crate::registry::Registry;
use crate::wire::{
    prims_view, payload_view_kind, Aggregate, AggregateV, Call, CallV, ChannelItem,
    ChannelItemV, ForkRef, FResult, Payload, PayloadV, Prim, PrimV, Response, ResponseV,
    ReturnItem, ReturnItemV, StreamItem, WireKind,
};
use crate::reflection::{ArgumentCountError, CallError, OutOfRangeError, Receiver};

verus! {

/// Why a buffer failed to deserialize.
#[derive(Clone, Copy, Debug, PartialEq, Eq, Structural)]
pub enum DecodeError {
    /// The buffer ended before the announced shape was complete.
    Truncated,
    /// A tag byte named no known shape.
    BadTag,
    /// A text body was not valid UTF-8.
    Utf8,
    /// Bytes remained after the frame was complete.
    Trailing,
    /// The payload's kind has no registry entry in this process.
    UnknownKind,
}

/// Appends one character to a string.
///
/// Relies on `String::push`, which the standard library documents as
/// appending the given `char` to the end of the string.
#[verifier::external_body]
pub(crate) fn push_char(s: &mut String, c: char)
    ensures
        final(s)@ == old(s)@.push(c),
{
    s.push(c);
}

/// The hexadecimal digit characters in order.
pub open spec fn hex_digit(d: int) -> char {
    seq![
        '0', '1', '2', '3', '4', '5', '6', '7', '8', '9', 'a', 'b', 'c', 'd', 'e', 'f',
    ][d]
}

/// The character of one hexadecimal digit.
pub(crate) fn hex_digit_char(d: u8) -> (c: char)
    requires
        d < 16,
    ensures
        c == hex_digit(d as int),
{
    if d == 0 {
        '0'
    } else if d == 1 {
        '1'
    } else if d == 2 {
        '2'
    } else if d == 3 {
        '3'
    } else if d == 4 {
        '4'
    } else if d == 5 {
        '5'
    } else if d == 6 {
        '6'
    } else if d == 7 {
        '7'
    } else if d == 8 {
        '8'
    } else if d == 9 {
        '9'
    } else if d == 10 {
        'a'
    } else if d == 11 {
        'b'
    } else if d == 12 {
        'c'
    } else if d == 13 {
        'd'
    } else if d == 14 {
        'e'
    } else {
        'f'
    }
}

/// Turns UTF-8 bytes back into the string they spell.
///
/// Relies on `String::from_utf8`, which the standard library documents as
/// succeeding exactly on valid UTF-8 input and returning the string whose
/// bytes are that input.
#[verifier::external_body]
pub(crate) fn string_from_utf8(v: Vec<u8>) -> (r: Option<String>)
    ensures
        r matches Some(s) ==> encode_utf8(s@) == v@,
        valid_utf8(v@) ==> r is Some,
{
    String::from_utf8(v).ok()
}

/// The encoding of one primitive: its tag byte, then its body.
pub open spec fn spec_encode_prim(p: PrimV) -> Seq<u8> {
    match p {
        PrimV::Unit => seq![0u8],
        PrimV::Bool(b) => seq![1u8, if b { 1u8 } else { 0u8 }],
        PrimV::U64(v) => seq![2u8] + spec_u64_to_le_bytes(v),
        PrimV::I64(v) => seq![3u8] + spec_u64_to_le_bytes(v as u64),
        PrimV::Text(s) => seq![4u8] + spec_u64_to_le_bytes(encode_utf8(s).len() as u64)
            + encode_utf8(s),
    }
}

/// The encoding of a list of primitives, in order.
pub open spec fn spec_encode_prims(s: Seq<PrimV>) -> Seq<u8>
    decreases s.len(),
{
    if s.len() == 0 {
        Seq::empty()
    } else {
        spec_encode_prims(s.drop_last()) + spec_encode_prim(s.last())
    }
}

/// The encoding of a fork reference body.
pub open spec fn spec_encode_fork(f: ForkRef) -> Seq<u8> {
    spec_u64_to_le_bytes(f.0)
}

/// The encoding of a list of fork references, in order.
pub open spec fn spec_encode_forks(s: Seq<ForkRef>) -> Seq<u8>
    decreases s.len(),
{
    if s.len() == 0 {
        Seq::empty()
    } else {
        spec_encode_forks(s.drop_last()) + spec_encode_fork(s.last())
    }
}

/// The encoding of a future result body.
pub open spec fn spec_encode_fres(r: FResult) -> Seq<u8> {
    match r {
        FResult::Value(f) => seq![0u8] + spec_encode_fork(f),
        FResult::Error(f) => seq![1u8] + spec_encode_fork(f),
    }
}

/// The encoding of a stream item body.
pub open spec fn spec_encode_sitem(i: StreamItem) -> Seq<u8> {
    match i {
        StreamItem::Item(f) => seq![0u8] + spec_encode_fork(f),
        StreamItem::Error(f) => seq![1u8] + spec_encode_fork(f),
        StreamItem::End => seq![2u8],
    }
}

/// The encoding of a dispatch error inside a return item.
pub open spec fn spec_encode_call_error(e: CallError) -> Seq<u8> {
    match e {
        CallError::Type(pos) => seq![0u8, pos],
        CallError::ArgumentCount(a) => seq![1u8] + spec_u64_to_le_bytes(a.expected as u64)
            + spec_u64_to_le_bytes(a.got as u64),
        CallError::OutOfRange(o) => seq![2u8, o.index],
        CallError::IncorrectReceiver(r) => seq![
            3u8,
            match r {
                Receiver::Mutable => 0u8,
                Receiver::Immutable => 1u8,
                Receiver::Owned => 2u8,
            },
        ],
    }
}

/// The encoding of a return item: a tag byte, then the item's body.
pub open spec fn spec_encode_ret(r: ReturnItemV) -> Seq<u8> {
    match r {
        ReturnItemV::Prim(p) => seq![0u8] + spec_encode_prim(p),
        ReturnItemV::Res(x) => seq![1u8] + spec_encode_fres(x),
        ReturnItemV::Fork(f) => seq![2u8] + spec_encode_fork(f),
        ReturnItemV::Item(i) => seq![3u8] + spec_encode_sitem(i),
        ReturnItemV::Error(e) => seq![4u8] + spec_encode_call_error(e),
    }
}

/// The encoding of a payload: the kind's tag byte, then its body.
pub open spec fn spec_encode_payload(p: PayloadV) -> Seq<u8> {
    match p {
        PayloadV::Prim(q) => spec_encode_prim(q),
        PayloadV::Fork(f) => seq![5u8] + spec_encode_fork(f),
        PayloadV::Res(r) => seq![6u8] + spec_encode_fres(r),
        PayloadV::Item(i) => seq![7u8] + spec_encode_sitem(i),
        PayloadV::Agg(a) => seq![10u8] + spec_u64_to_le_bytes(a.variant)
            + spec_u64_to_le_bytes(a.fields.len() as u64) + spec_encode_forks(a.fields),
        PayloadV::Call(c) => seq![8u8] + spec_u64_to_le_bytes(c.method)
            + spec_u64_to_le_bytes(c.args.len() as u64) + spec_encode_prims(c.args)
            + spec_u64_to_le_bytes(c.protocol),
        PayloadV::Resp(r) => seq![9u8] + spec_u64_to_le_bytes(r.method)
            + spec_u64_to_le_bytes(r.protocol) + spec_encode_ret(r.item),
    }
}

/// The encoding of a whole frame: fork id, then payload.
pub open spec fn spec_encode_item(ci: ChannelItemV) -> Seq<u8> {
    spec_u64_to_le_bytes(ci.channel) + spec_encode_payload(ci.data)
}

/// Appends the little-endian bytes of `x`.
fn put_u64(out: &mut Vec<u8>, x: u64)
    ensures
        final(out)@ == old(out)@ + spec_u64_to_le_bytes(x),
{
    let mut bytes = u64_to_le_bytes(x);
    out.append(&mut bytes);
}

/// A primitive whose encoding lengths fit the wire's length fields.  Every
/// primitive an executable value can hold satisfies this.
pub open spec fn prim_wf(p: PrimV) -> bool {
    match p {
        PrimV::Text(s) => encode_utf8(s).len() <= u64::MAX,
        _ => true,
    }
}

/// Well-formedness of a return item.
pub open spec fn ret_wf(r: ReturnItemV) -> bool {
    match r {
        ReturnItemV::Prim(p) => prim_wf(p),
        _ => true,
    }
}

/// Well-formedness of a payload.
pub open spec fn payload_wf(p: PayloadV) -> bool {
    match p {
        PayloadV::Prim(q) => prim_wf(q),
        PayloadV::Agg(a) => a.fields.len() <= u64::MAX,
        PayloadV::Call(c) => c.args.len() <= u64::MAX && (forall|i: int|
            0 <= i < c.args.len() ==> prim_wf(#[trigger] c.args[i])),
        PayloadV::Resp(r) => ret_wf(r.item),
        _ => true,
    }
}

/// Well-formedness of a frame.
pub open spec fn item_wf(ci: ChannelItemV) -> bool {
    payload_wf(ci.data)
}

/// Appends the encoding of one primitive.
fn put_prim(out: &mut Vec<u8>, p: &Prim)
    ensures
        final(out)@ == old(out)@ + spec_encode_prim(p@),
        prim_wf(p@),
{
    match p {
        Prim::Unit => {
            out.push(0u8);
            assert(final(out)@ =~= old(out)@ + spec_encode_prim(p@));
        }
        Prim::Bool(b) => {
            out.push(1u8);
            out.push(if *b { 1u8 } else { 0u8 });
            assert(final(out)@ =~= old(out)@ + spec_encode_prim(p@));
        }
        Prim::U64(v) => {
            out.push(2u8);
            put_u64(out, *v);
            assert(final(out)@ =~= old(out)@ + spec_encode_prim(p@));
        }
        Prim::I64(v) => {
            out.push(3u8);
            put_u64(out, #[verifier::truncate] (*v as u64));
            assert(final(out)@ =~= old(out)@ + spec_encode_prim(p@));
        }
        Prim::Text(s) => {
            out.push(4u8);
            let mut bytes = s.as_str().as_bytes_vec();
            put_u64(out, bytes.len() as u64);
            out.append(&mut bytes);
            assert(final(out)@ =~= old(out)@ + spec_encode_prim(p@));
        }
    }
}

/// Appends the encoding of a fork reference body.
fn put_fork(out: &mut Vec<u8>, f: &ForkRef)
    ensures
        final(out)@ == old(out)@ + spec_encode_fork(*f),
{
    put_u64(out, f.0);
}

/// Appends the encoding of a future result body.
fn put_fres(out: &mut Vec<u8>, r: &FResult)
    ensures
        final(out)@ == old(out)@ + spec_encode_fres(*r),
{
    match r {
        FResult::Value(f) => {
            out.push(0u8);
            put_fork(out, f);
        }
        FResult::Error(f) => {
            out.push(1u8);
            put_fork(out, f);
        }
    }
    assert(final(out)@ =~= old(out)@ + spec_encode_fres(*r));
}

/// Appends the encoding of a stream item body.
fn put_sitem(out: &mut Vec<u8>, i: &StreamItem)
    ensures
        final(out)@ == old(out)@ + spec_encode_sitem(*i),
{
    match i {
        StreamItem::Item(f) => {
            out.push(0u8);
            put_fork(out, f);
        }
        StreamItem::Error(f) => {
            out.push(1u8);
            put_fork(out, f);
        }
        StreamItem::End => {
            out.push(2u8);
        }
    }
    assert(final(out)@ =~= old(out)@ + spec_encode_sitem(*i));
}

/// Appends the encoding of a dispatch error.
fn put_call_error(out: &mut Vec<u8>, e: &CallError)
    ensures
        final(out)@ == old(out)@ + spec_encode_call_error(*e),
{
    match e {
        CallError::Type(pos) => {
            out.push(0u8);
            out.push(*pos);
        }
        CallError::ArgumentCount(a) => {
            out.push(1u8);
            put_u64(out, a.expected as u64);
            put_u64(out, a.got as u64);
        }
        CallError::OutOfRange(o) => {
            out.push(2u8);
            out.push(o.index);
        }
        CallError::IncorrectReceiver(r) => {
            out.push(3u8);
            out.push(
                match r {
                    Receiver::Mutable => 0u8,
                    Receiver::Immutable => 1u8,
                    Receiver::Owned => 2u8,
                },
            );
        }
    }
    assert(final(out)@ =~= old(out)@ + spec_encode_call_error(*e));
}

/// Appends the encoding of a return item.
fn put_ret(out: &mut Vec<u8>, r: &ReturnItem)
    ensures
        final(out)@ == old(out)@ + spec_encode_ret(r@),
        ret_wf(r@),
{
    match r {
        ReturnItem::Prim(p) => {
            out.push(0u8);
            put_prim(out, p);
        }
        ReturnItem::Res(x) => {
            out.push(1u8);
            put_fres(out, x);
        }
        ReturnItem::Fork(f) => {
            out.push(2u8);
            put_fork(out, f);
        }
        ReturnItem::Item(i) => {
            out.push(3u8);
            put_sitem(out, i);
        }
        ReturnItem::Error(e) => {
            out.push(4u8);
            put_call_error(out, e);
        }
    }
    assert(final(out)@ =~= old(out)@ + spec_encode_ret(r@));
}

/// Appends the encoding of a payload.
fn put_payload(out: &mut Vec<u8>, p: &Payload)
    ensures
        final(out)@ == old(out)@ + spec_encode_payload(p@),
        payload_wf(p@),
{
    match p {
        Payload::Prim(q) => {
            put_prim(out, q);
        }
        Payload::Fork(f) => {
            out.push(5u8);
            put_fork(out, f);
            assert(final(out)@ =~= old(out)@ + spec_encode_payload(p@));
        }
        Payload::Res(r) => {
            out.push(6u8);
            put_fres(out, r);
            assert(final(out)@ =~= old(out)@ + spec_encode_payload(p@));
        }
        Payload::Item(i) => {
            out.push(7u8);
            put_sitem(out, i);
            assert(final(out)@ =~= old(out)@ + spec_encode_payload(p@));
        }
        Payload::Agg(a) => {
            out.push(10u8);
            put_u64(out, a.variant);
            put_u64(out, a.fields.len() as u64);
            let ghost base = out@;
            let mut idx: usize = 0;
            while idx < a.fields.len()
                invariant
                    idx <= a.fields.len(),
                    out@ == base + spec_encode_forks(a.fields@.take(idx as int)),
                decreases a.fields.len() - idx,
            {
                put_fork(out, &a.fields[idx]);
                proof {
                    assert(a.fields@.take(idx + 1).drop_last() =~= a.fields@.take(idx as int));
                    assert(a.fields@.take(idx + 1).last() == a.fields@[idx as int]);
                }
                idx = idx + 1;
            }
            proof {
                assert(a.fields@.take(a.fields@.len() as int) =~= a.fields@);
            }
            assert(final(out)@ =~= old(out)@ + spec_encode_payload(p@));
        }
        Payload::Call(c) => {
            out.push(8u8);
            put_u64(out, c.method);
            put_u64(out, c.args.len() as u64);
            let ghost base = out@;
            let mut idx: usize = 0;
            while idx < c.args.len()
                invariant
                    idx <= c.args.len(),
                    out@ == base + spec_encode_prims(crate::wire::prims_view(c.args@).take(idx as int)),
                    forall|j: int| 0 <= j < idx ==> prim_wf(#[trigger] crate::wire::prims_view(c.args@)[j]),
                decreases c.args.len() - idx,
            {
                let ghost views = crate::wire::prims_view(c.args@);
                put_prim(out, &c.args[idx]);
                proof {
                    assert(views.take(idx + 1).drop_last() =~= views.take(idx as int));
                    assert(views.take(idx + 1).last() == c.args@[idx as int]@);
                }
                idx = idx + 1;
            }
            proof {
                assert(crate::wire::prims_view(c.args@).take(c.args@.len() as int)
                    =~= crate::wire::prims_view(c.args@));
            }
            put_u64(out, c.protocol);
            assert(final(out)@ =~= old(out)@ + spec_encode_payload(p@));
        }
        Payload::Resp(r) => {
            out.push(9u8);
            put_u64(out, r.method);
            put_u64(out, r.protocol);
            put_ret(out, &r.item);
            assert(final(out)@ =~= old(out)@ + spec_encode_payload(p@));
        }
    }
}

/// Reads one byte; yields the byte and the remainder.
pub open spec fn sd_u8(b: Seq<u8>) -> Option<(u8, Seq<u8>)> {
    if b.len() >= 1 {
        Some((b[0], b.drop_first()))
    } else {
        None
    }
}

/// Reads eight little-endian bytes; yields the integer and the remainder.
pub open spec fn sd_u64(b: Seq<u8>) -> Option<(u64, Seq<u8>)> {
    if b.len() >= 8 {
        Some((spec_u64_from_le_bytes(b.take(8)), b.skip(8)))
    } else {
        None
    }
}

/// Reads the body of a primitive whose tag byte was `tag`.
pub open spec fn sd_prim_body(tag: u8, b: Seq<u8>) -> Option<(PrimV, Seq<u8>)> {
    if tag == 0 {
        Some((PrimV::Unit, b))
    } else if tag == 1 {
        match sd_u8(b) {
            Some((v, r)) => if v == 0 {
                Some((PrimV::Bool(false), r))
            } else if v == 1 {
                Some((PrimV::Bool(true), r))
            } else {
                None
            },
            None => None,
        }
    } else if tag == 2 {
        match sd_u64(b) {
            Some((v, r)) => Some((PrimV::U64(v), r)),
            None => None,
        }
    } else if tag == 3 {
        match sd_u64(b) {
            Some((v, r)) => Some((PrimV::I64(v as i64), r)),
            None => None,
        }
    } else if tag == 4 {
        match sd_u64(b) {
            Some((n, r)) => if r.len() >= n {
                if valid_utf8(r.take(n as int)) {
                    Some((PrimV::Text(decode_utf8(r.take(n as int))), r.skip(n as int)))
                } else {
                    None
                }
            } else {
                None
            },
            None => None,
        }
    } else {
        None
    }
}

/// Reads one tagged primitive.
pub open spec fn sd_prim(b: Seq<u8>) -> Option<(PrimV, Seq<u8>)> {
    match sd_u8(b) {
        Some((tag, r)) => sd_prim_body(tag, r),
        None => None,
    }
}

/// Reads `n` tagged primitives in order.
pub open spec fn sd_prims(b: Seq<u8>, n: nat) -> Option<(Seq<PrimV>, Seq<u8>)>
    decreases n,
{
    if n == 0 {
        Some((Seq::empty(), b))
    } else {
        match sd_prim(b) {
            Some((q, r)) => match sd_prims(r, (n - 1) as nat) {
                Some((s, r2)) => Some((seq![q] + s, r2)),
                None => None,
            },
            None => None,
        }
    }
}

/// Reads a fork reference body.
pub open spec fn sd_fork(b: Seq<u8>) -> Option<(ForkRef, Seq<u8>)> {
    match sd_u64(b) {
        Some((v, r)) => Some((ForkRef(v), r)),
        None => None,
    }
}

/// Reads `n` fork references in order.
pub open spec fn sd_forks(b: Seq<u8>, n: nat) -> Option<(Seq<ForkRef>, Seq<u8>)>
    decreases n,
{
    if n == 0 {
        Some((Seq::empty(), b))
    } else {
        match sd_fork(b) {
            Some((f, r)) => match sd_forks(r, (n - 1) as nat) {
                Some((s, r2)) => Some((seq![f] + s, r2)),
                None => None,
            },
            None => None,
        }
    }
}

/// Reads a future result body.
pub open spec fn sd_fres(b: Seq<u8>) -> Option<(FResult, Seq<u8>)> {
    match sd_u8(b) {
        Some((tag, r)) => if tag == 0 {
            match sd_fork(r) {
                Some((f, r2)) => Some((FResult::Value(f), r2)),
                None => None,
            }
        } else if tag == 1 {
            match sd_fork(r) {
                Some((f, r2)) => Some((FResult::Error(f), r2)),
                None => None,
            }
        } else {
            None
        },
        None => None,
    }
}

/// Reads a stream item body.
pub open spec fn sd_sitem(b: Seq<u8>) -> Option<(StreamItem, Seq<u8>)> {
    match sd_u8(b) {
        Some((tag, r)) => if tag == 0 {
            match sd_fork(r) {
                Some((f, r2)) => Some((StreamItem::Item(f), r2)),
                None => None,
            }
        } else if tag == 1 {
            match sd_fork(r) {
                Some((f, r2)) => Some((StreamItem::Error(f), r2)),
                None => None,
            }
        } else if tag == 2 {
            Some((StreamItem::End, r))
        } else {
            None
        },
        None => None,
    }
}

/// Reads a dispatch error body.
pub open spec fn sd_call_error(b: Seq<u8>) -> Option<(CallError, Seq<u8>)> {
    match sd_u8(b) {
        Some((tag, r)) => if tag == 0 {
            match sd_u8(r) {
                Some((pos, r2)) => Some((CallError::Type(pos), r2)),
                None => None,
            }
        } else if tag == 1 {
            match sd_u64(r) {
                Some((e, r2)) => match sd_u64(r2) {
                    Some((g, r3)) => if e <= usize::MAX && g <= usize::MAX {
                        Some((
                            CallError::ArgumentCount(
                                ArgumentCountError { expected: e as usize, got: g as usize },
                            ),
                            r3,
                        ))
                    } else {
                        None
                    },
                    None => None,
                },
                None => None,
            }
        } else if tag == 2 {
            match sd_u8(r) {
                Some((i, r2)) => Some((CallError::OutOfRange(OutOfRangeError { index: i }), r2)),
                None => None,
            }
        } else if tag == 3 {
            match sd_u8(r) {
                Some((v, r2)) => if v == 0 {
                    Some((CallError::IncorrectReceiver(Receiver::Mutable), r2))
                } else if v == 1 {
                    Some((CallError::IncorrectReceiver(Receiver::Immutable), r2))
                } else if v == 2 {
                    Some((CallError::IncorrectReceiver(Receiver::Owned), r2))
                } else {
                    None
                },
                None => None,
            }
        } else {
            None
        },
        None => None,
    }
}

/// Reads a return item.
pub open spec fn sd_ret(b: Seq<u8>) -> Option<(ReturnItemV, Seq<u8>)> {
    match sd_u8(b) {
        Some((tag, r)) => if tag == 0 {
            match sd_prim(r) {
                Some((p, r2)) => Some((ReturnItemV::Prim(p), r2)),
                None => None,
            }
        } else if tag == 1 {
            match sd_fres(r) {
                Some((x, r2)) => Some((ReturnItemV::Res(x), r2)),
                None => None,
            }
        } else if tag == 2 {
            match sd_fork(r) {
                Some((f, r2)) => Some((ReturnItemV::Fork(f), r2)),
                None => None,
            }
        } else if tag == 3 {
            match sd_sitem(r) {
                Some((i, r2)) => Some((ReturnItemV::Item(i), r2)),
                None => None,
            }
        } else if tag == 4 {
            match sd_call_error(r) {
                Some((e, r2)) => Some((ReturnItemV::Error(e), r2)),
                None => None,
            }
        } else {
            None
        },
        None => None,
    }
}

/// Reads a payload: the kind tag, then the kind's body.
pub open spec fn sd_payload(b: Seq<u8>) -> Option<(PayloadV, Seq<u8>)> {
    match sd_u8(b) {
        Some((tag, r)) => if tag <= 4 {
            match sd_prim_body(tag, r) {
                Some((p, r2)) => Some((PayloadV::Prim(p), r2)),
                None => None,
            }
        } else if tag == 5 {
            match sd_fork(r) {
                Some((f, r2)) => Some((PayloadV::Fork(f), r2)),
                None => None,
            }
        } else if tag == 6 {
            match sd_fres(r) {
                Some((x, r2)) => Some((PayloadV::Res(x), r2)),
                None => None,
            }
        } else if tag == 7 {
            match sd_sitem(r) {
                Some((i, r2)) => Some((PayloadV::Item(i), r2)),
                None => None,
            }
        } else if tag == 10 {
            match sd_u64(r) {
                Some((variant, r2)) => match sd_u64(r2) {
                    Some((n, r3)) => match sd_forks(r3, n as nat) {
                        Some((fields, r4)) => Some((
                            PayloadV::Agg(AggregateV { variant, fields }),
                            r4,
                        )),
                        None => None,
                    },
                    None => None,
                },
                None => None,
            }
        } else if tag == 8 {
            match sd_u64(r) {
                Some((m, r2)) => match sd_u64(r2) {
                    Some((n, r3)) => match sd_prims(r3, n as nat) {
                        Some((args, r4)) => match sd_u64(r4) {
                            Some((pid, r5)) => Some((
                                PayloadV::Call(CallV { method: m, args, protocol: pid }),
                                r5,
                            )),
                            None => None,
                        },
                        None => None,
                    },
                    None => None,
                },
                None => None,
            }
        } else if tag == 9 {
            match sd_u64(r) {
                Some((m, r2)) => match sd_u64(r2) {
                    Some((pid, r3)) => match sd_ret(r3) {
                        Some((item, r4)) => Some((
                            PayloadV::Resp(ResponseV { method: m, protocol: pid, item }),
                            r4,
                        )),
                        None => None,
                    },
                    None => None,
                },
                None => None,
            }
        } else {
            None
        },
        None => None,
    }
}

/// Reads a whole frame; the buffer must hold exactly one frame.
pub open spec fn spec_decode_item(b: Seq<u8>) -> Option<ChannelItemV> {
    match sd_u64(b) {
        Some((ch, r)) => match sd_payload(r) {
            Some((p, r2)) => if r2.len() == 0 {
                Some(ChannelItemV { channel: ch, data: p })
            } else {
                None
            },
            None => None,
        },
        None => None,
    }
}

proof fn lemma_sd_u8(t: u8, rest: Seq<u8>)
    ensures
        sd_u8(seq![t] + rest) == Some((t, rest)),
{
    let b = seq![t] + rest;
    assert(b[0] == t);
    assert(b.drop_first() =~= rest);
}

proof fn lemma_sd_u64(x: u64, rest: Seq<u8>)
    ensures
        sd_u64(spec_u64_to_le_bytes(x) + rest) == Some((x, rest)),
{
    lemma_auto_spec_u64_to_from_le_bytes();
    let b = spec_u64_to_le_bytes(x) + rest;
    assert(b.take(8) =~= spec_u64_to_le_bytes(x));
    assert(b.skip(8) =~= rest);
}

proof fn lemma_sd_prim(p: PrimV, rest: Seq<u8>)
    requires
        prim_wf(p),
    ensures
        sd_prim(spec_encode_prim(p) + rest) == Some((p, rest)),
{
    let b = spec_encode_prim(p) + rest;
    match p {
        PrimV::Unit => {
            assert(b =~= seq![0u8] + rest);
            lemma_sd_u8(0u8, rest);
        }
        PrimV::Bool(v) => {
            let byte: u8 = if v { 1u8 } else { 0u8 };
            assert(b =~= seq![1u8] + (seq![byte] + rest));
            lemma_sd_u8(1u8, seq![byte] + rest);
            lemma_sd_u8(byte, rest);
        }
        PrimV::U64(v) => {
            assert(b =~= seq![2u8] + (spec_u64_to_le_bytes(v) + rest));
            lemma_sd_u8(2u8, spec_u64_to_le_bytes(v) + rest);
            lemma_sd_u64(v, rest);
        }
        PrimV::I64(v) => {
            assert(b =~= seq![3u8] + (spec_u64_to_le_bytes(v as u64) + rest));
            lemma_sd_u8(3u8, spec_u64_to_le_bytes(v as u64) + rest);
            lemma_sd_u64(v as u64, rest);
            assert(((v as u64) as i64) == v) by (bit_vector);
        }
        PrimV::Text(s) => {
            let utf8 = encode_utf8(s);
            let n: u64 = utf8.len() as u64;
            assert(b =~= seq![4u8] + (spec_u64_to_le_bytes(n) + (utf8 + rest)));
            lemma_sd_u8(4u8, spec_u64_to_le_bytes(n) + (utf8 + rest));
            lemma_sd_u64(n, utf8 + rest);
            assert((utf8 + rest).take(n as int) =~= utf8);
            assert((utf8 + rest).skip(n as int) =~= rest);
            encode_utf8_valid_utf8(s);
            encode_utf8_decode_utf8(s);
            assert(decode_utf8(utf8) == s);
        }
    }
}

proof fn lemma_encode_prims_first(s: Seq<PrimV>)
    requires
        s.len() > 0,
    ensures
        spec_encode_prims(s) == spec_encode_prim(s[0]) + spec_encode_prims(s.drop_first()),
    decreases s.len(),
{
    if s.len() == 1 {
        assert(s.drop_last() =~= Seq::<PrimV>::empty());
        assert(s.drop_first() =~= Seq::<PrimV>::empty());
        assert(spec_encode_prims(s) =~= spec_encode_prim(s[0])
            + spec_encode_prims(s.drop_first()));
    } else {
        lemma_encode_prims_first(s.drop_last());
        assert(s.drop_last().drop_first() =~= s.drop_first().drop_last());
        assert(s.drop_first().last() == s.last());
        assert(s.drop_last()[0] == s[0]);
        assert(spec_encode_prims(s) =~= spec_encode_prim(s[0])
            + spec_encode_prims(s.drop_first()));
    }
}

proof fn lemma_sd_prims(s: Seq<PrimV>, rest: Seq<u8>)
    requires
        forall|i: int| 0 <= i < s.len() ==> prim_wf(#[trigger] s[i]),
    ensures
        sd_prims(spec_encode_prims(s) + rest, s.len()) == Some((s, rest)),
    decreases s.len(),
{
    if s.len() == 0 {
        assert(spec_encode_prims(s) + rest =~= rest);
        assert(sd_prims(rest, 0) == Some((Seq::<PrimV>::empty(), rest)));
        assert(Seq::<PrimV>::empty() =~= s);
    } else {
        lemma_encode_prims_first(s);
        let tail = s.drop_first();
        assert(spec_encode_prims(s) + rest =~= spec_encode_prim(s[0])
            + (spec_encode_prims(tail) + rest));
        lemma_sd_prim(s[0], spec_encode_prims(tail) + rest);
        assert(forall|i: int| 0 <= i < tail.len() ==> prim_wf(#[trigger] tail[i]));
        lemma_sd_prims(tail, rest);
        assert(seq![s[0]] + tail =~= s);
    }
}

proof fn lemma_sd_fork(f: ForkRef, rest: Seq<u8>)
    ensures
        sd_fork(spec_encode_fork(f) + rest) == Some((f, rest)),
{
    lemma_sd_u64(f.0, rest);
}

proof fn lemma_encode_forks_first(s: Seq<ForkRef>)
    requires
        s.len() > 0,
    ensures
        spec_encode_forks(s) == spec_encode_fork(s[0]) + spec_encode_forks(s.drop_first()),
    decreases s.len(),
{
    if s.len() == 1 {
        assert(s.drop_last() =~= Seq::<ForkRef>::empty());
        assert(s.drop_first() =~= Seq::<ForkRef>::empty());
        assert(spec_encode_forks(s) =~= spec_encode_fork(s[0])
            + spec_encode_forks(s.drop_first()));
    } else {
        lemma_encode_forks_first(s.drop_last());
        assert(s.drop_last().drop_first() =~= s.drop_first().drop_last());
        assert(s.drop_first().last() == s.last());
        assert(s.drop_last()[0] == s[0]);
        assert(spec_encode_forks(s) =~= spec_encode_fork(s[0])
            + spec_encode_forks(s.drop_first()));
    }
}

proof fn lemma_sd_forks(s: Seq<ForkRef>, rest: Seq<u8>)
    ensures
        sd_forks(spec_encode_forks(s) + rest, s.len()) == Some((s, rest)),
    decreases s.len(),
{
    if s.len() == 0 {
        assert(spec_encode_forks(s) + rest =~= rest);
        assert(Seq::<ForkRef>::empty() =~= s);
    } else {
        lemma_encode_forks_first(s);
        let tail = s.drop_first();
        assert(spec_encode_forks(s) + rest =~= spec_encode_fork(s[0])
            + (spec_encode_forks(tail) + rest));
        lemma_sd_fork(s[0], spec_encode_forks(tail) + rest);
        lemma_sd_forks(tail, rest);
        assert(seq![s[0]] + tail =~= s);
    }
}

proof fn lemma_sd_fres(r: FResult, rest: Seq<u8>)
    ensures
        sd_fres(spec_encode_fres(r) + rest) == Some((r, rest)),
{
    match r {
        FResult::Value(f) => {
            assert(spec_encode_fres(r) + rest =~= seq![0u8] + (spec_encode_fork(f) + rest));
            lemma_sd_u8(0u8, spec_encode_fork(f) + rest);
            lemma_sd_fork(f, rest);
        }
        FResult::Error(f) => {
            assert(spec_encode_fres(r) + rest =~= seq![1u8] + (spec_encode_fork(f) + rest));
            lemma_sd_u8(1u8, spec_encode_fork(f) + rest);
            lemma_sd_fork(f, rest);
        }
    }
}

proof fn lemma_sd_sitem(i: StreamItem, rest: Seq<u8>)
    ensures
        sd_sitem(spec_encode_sitem(i) + rest) == Some((i, rest)),
{
    match i {
        StreamItem::Item(f) => {
            assert(spec_encode_sitem(i) + rest =~= seq![0u8] + (spec_encode_fork(f) + rest));
            lemma_sd_u8(0u8, spec_encode_fork(f) + rest);
            lemma_sd_fork(f, rest);
        }
        StreamItem::Error(f) => {
            assert(spec_encode_sitem(i) + rest =~= seq![1u8] + (spec_encode_fork(f) + rest));
            lemma_sd_u8(1u8, spec_encode_fork(f) + rest);
            lemma_sd_fork(f, rest);
        }
        StreamItem::End => {
            assert(spec_encode_sitem(i) + rest =~= seq![2u8] + rest);
            lemma_sd_u8(2u8, rest);
        }
    }
}

proof fn lemma_sd_call_error(e: CallError, rest: Seq<u8>)
    ensures
        sd_call_error(spec_encode_call_error(e) + rest) == Some((e, rest)),
{
    match e {
        CallError::Type(pos) => {
            assert(spec_encode_call_error(e) + rest =~= seq![0u8] + (seq![pos] + rest));
            lemma_sd_u8(0u8, seq![pos] + rest);
            lemma_sd_u8(pos, rest);
        }
        CallError::ArgumentCount(a) => {
            let eb = spec_u64_to_le_bytes(a.expected as u64);
            let gb = spec_u64_to_le_bytes(a.got as u64);
            assert(spec_encode_call_error(e) + rest =~= seq![1u8] + (eb + (gb + rest)));
            lemma_sd_u8(1u8, eb + (gb + rest));
            lemma_sd_u64(a.expected as u64, gb + rest);
            lemma_sd_u64(a.got as u64, rest);
        }
        CallError::OutOfRange(o) => {
            assert(spec_encode_call_error(e) + rest =~= seq![2u8] + (seq![o.index] + rest));
            lemma_sd_u8(2u8, seq![o.index] + rest);
            lemma_sd_u8(o.index, rest);
        }
        CallError::IncorrectReceiver(r) => {
            let byte: u8 = match r {
                Receiver::Mutable => 0u8,
                Receiver::Immutable => 1u8,
                Receiver::Owned => 2u8,
            };
            assert(spec_encode_call_error(e) + rest =~= seq![3u8] + (seq![byte] + rest));
            lemma_sd_u8(3u8, seq![byte] + rest);
            lemma_sd_u8(byte, rest);
        }
    }
}

proof fn lemma_sd_ret(r: ReturnItemV, rest: Seq<u8>)
    requires
        ret_wf(r),
    ensures
        sd_ret(spec_encode_ret(r) + rest) == Some((r, rest)),
{
    match r {
        ReturnItemV::Prim(p) => {
            assert(spec_encode_ret(r) + rest =~= seq![0u8] + (spec_encode_prim(p) + rest));
            lemma_sd_u8(0u8, spec_encode_prim(p) + rest);
            lemma_sd_prim(p, rest);
        }
        ReturnItemV::Res(x) => {
            assert(spec_encode_ret(r) + rest =~= seq![1u8] + (spec_encode_fres(x) + rest));
            lemma_sd_u8(1u8, spec_encode_fres(x) + rest);
            lemma_sd_fres(x, rest);
        }
        ReturnItemV::Fork(f) => {
            assert(spec_encode_ret(r) + rest =~= seq![2u8] + (spec_encode_fork(f) + rest));
            lemma_sd_u8(2u8, spec_encode_fork(f) + rest);
            lemma_sd_fork(f, rest);
        }
        ReturnItemV::Item(i) => {
            assert(spec_encode_ret(r) + rest =~= seq![3u8] + (spec_encode_sitem(i) + rest));
            lemma_sd_u8(3u8, spec_encode_sitem(i) + rest);
            lemma_sd_sitem(i, rest);
        }
        ReturnItemV::Error(e) => {
            assert(spec_encode_ret(r) + rest =~= seq![4u8] + (spec_encode_call_error(e) + rest));
            lemma_sd_u8(4u8, spec_encode_call_error(e) + rest);
            lemma_sd_call_error(e, rest);
        }
    }
}

/// The payload encoding round trip: reading back the encoding of any
/// well-formed payload, with any continuation behind it, yields the
/// payload and the continuation.
pub proof fn lemma_sd_payload(p: PayloadV, rest: Seq<u8>)
    requires
        payload_wf(p),
    ensures
        sd_payload(spec_encode_payload(p) + rest) == Some((p, rest)),
{
    match p {
        PayloadV::Prim(q) => {
            let b = spec_encode_payload(p) + rest;
            lemma_sd_prim(q, rest);
            assert(b[0] <= 4);
        }
        PayloadV::Fork(f) => {
            assert(spec_encode_payload(p) + rest =~= seq![5u8] + (spec_encode_fork(f) + rest));
            lemma_sd_u8(5u8, spec_encode_fork(f) + rest);
            lemma_sd_fork(f, rest);
        }
        PayloadV::Res(r) => {
            assert(spec_encode_payload(p) + rest =~= seq![6u8] + (spec_encode_fres(r) + rest));
            lemma_sd_u8(6u8, spec_encode_fres(r) + rest);
            lemma_sd_fres(r, rest);
        }
        PayloadV::Item(i) => {
            assert(spec_encode_payload(p) + rest =~= seq![7u8] + (spec_encode_sitem(i) + rest));
            lemma_sd_u8(7u8, spec_encode_sitem(i) + rest);
            lemma_sd_sitem(i, rest);
        }
        PayloadV::Agg(a) => {
            let vb = spec_u64_to_le_bytes(a.variant);
            let nb = spec_u64_to_le_bytes(a.fields.len() as u64);
            let fb = spec_encode_forks(a.fields);
            assert(spec_encode_payload(p) + rest =~= seq![10u8] + (vb + (nb + (fb + rest))));
            lemma_sd_u8(10u8, vb + (nb + (fb + rest)));
            lemma_sd_u64(a.variant, nb + (fb + rest));
            lemma_sd_u64(a.fields.len() as u64, fb + rest);
            lemma_sd_forks(a.fields, rest);
        }
        PayloadV::Call(c) => {
            let mb = spec_u64_to_le_bytes(c.method);
            let nb = spec_u64_to_le_bytes(c.args.len() as u64);
            let ab = spec_encode_prims(c.args);
            let pb = spec_u64_to_le_bytes(c.protocol);
            assert(spec_encode_payload(p) + rest =~= seq![8u8] + (mb + (nb + (ab + (pb
                + rest)))));
            lemma_sd_u8(8u8, mb + (nb + (ab + (pb + rest))));
            lemma_sd_u64(c.method, nb + (ab + (pb + rest)));
            lemma_sd_u64(c.args.len() as u64, ab + (pb + rest));
            lemma_sd_prims(c.args, pb + rest);
            lemma_sd_u64(c.protocol, rest);
        }
        PayloadV::Resp(r) => {
            let mb = spec_u64_to_le_bytes(r.method);
            let pb = spec_u64_to_le_bytes(r.protocol);
            let ib = spec_encode_ret(r.item);
            assert(spec_encode_payload(p) + rest =~= seq![9u8] + (mb + (pb + (ib + rest))));
            lemma_sd_u8(9u8, mb + (pb + (ib + rest)));
            lemma_sd_u64(r.method, pb + (ib + rest));
            lemma_sd_u64(r.protocol, ib + rest);
            lemma_sd_ret(r.item, rest);
        }
    }
}

/// The encoding round trip: decoding the encoding of any well-formed frame
/// yields that frame back.  Together with [`serialize_item`] and
/// [`deserialize_item`] this pins the byte format down on both sides.
pub proof fn lemma_codec_round_trip(ci: ChannelItemV)
    requires
        item_wf(ci),
    ensures
        spec_decode_item(spec_encode_item(ci)) == Some(ci),
{
    let pb = spec_encode_payload(ci.data);
    assert(spec_encode_item(ci) =~= spec_u64_to_le_bytes(ci.channel) + pb);
    lemma_sd_u64(ci.channel, pb);
    assert(pb =~= pb + Seq::<u8>::empty());
    lemma_sd_payload(ci.data, Seq::<u8>::empty());
}

/// Serializes one frame to its byte encoding.
pub fn serialize_item(item: &ChannelItem) -> (out: Vec<u8>)
    ensures
        out@ == spec_encode_item(item@),
        item_wf(item@),
{
    let mut out = u64_to_le_bytes(item.0);
    put_payload(&mut out, &item.1);
    out
}

/// Reads one byte and advances the cursor.
fn rd_u8(b: &Vec<u8>, pos: &mut usize) -> (r: Result<u8, DecodeError>)
    requires
        *old(pos) <= b@.len(),
    ensures
        match r {
            Ok(v) => {
                &&& *final(pos) == *old(pos) + 1
                &&& *final(pos) <= b@.len()
                &&& sd_u8(b@.skip(*old(pos) as int)) == Some((v, b@.skip(*final(pos) as int)))
            },
            Err(_) => {
                &&& sd_u8(b@.skip(*old(pos) as int)) is None
                &&& *final(pos) <= b@.len()
            },
        },
{
    let p = *pos;
    if p < b.len() {
        let v = b[p];
        proof {
            assert(b@.skip(p as int)[0] == v);
            assert(b@.skip(p as int).drop_first() =~= b@.skip(p as int + 1));
        }
        *pos = p + 1;
        Ok(v)
    } else {
        Err(DecodeError::Truncated)
    }
}

/// Reads eight little-endian bytes and advances the cursor.
fn rd_u64(b: &Vec<u8>, pos: &mut usize) -> (r: Result<u64, DecodeError>)
    requires
        *old(pos) <= b@.len(),
    ensures
        match r {
            Ok(v) => {
                &&& *final(pos) == *old(pos) + 8
                &&& *final(pos) <= b@.len()
                &&& sd_u64(b@.skip(*old(pos) as int)) == Some((v, b@.skip(*final(pos) as int)))
            },
            Err(_) => {
                &&& sd_u64(b@.skip(*old(pos) as int)) is None
                &&& *final(pos) <= b@.len()
            },
        },
{
    let p = *pos;
    if b.len() - p >= 8 {
        let s = slice_subrange(b.as_slice(), p, p + 8);
        let x = u64_from_le_bytes(s);
        proof {
            assert(s@ =~= b@.skip(p as int).take(8));
            assert(b@.skip(p as int).skip(8) =~= b@.skip(p as int + 8));
        }
        *pos = p + 8;
        Ok(x)
    } else {
        Err(DecodeError::Truncated)
    }
}

/// Reads a fork reference body.
fn rd_fork(b: &Vec<u8>, pos: &mut usize) -> (r: Result<ForkRef, DecodeError>)
    requires
        *old(pos) <= b@.len(),
    ensures
        match r {
            Ok(v) => {
                &&& *final(pos) <= b@.len()
                &&& sd_fork(b@.skip(*old(pos) as int)) == Some((v, b@.skip(*final(pos) as int)))
            },
            Err(_) => {
                &&& sd_fork(b@.skip(*old(pos) as int)) is None
                &&& *final(pos) <= b@.len()
            },
        },
{
    match rd_u64(b, pos) {
        Ok(x) => Ok(ForkRef(x)),
        Err(e) => Err(e),
    }
}

/// Reads one tagged primitive.
fn rd_prim(b: &Vec<u8>, pos: &mut usize) -> (r: Result<Prim, DecodeError>)
    requires
        *old(pos) <= b@.len(),
    ensures
        match r {
            Ok(v) => {
                &&& *final(pos) <= b@.len()
                &&& sd_prim(b@.skip(*old(pos) as int)) == Some((v@, b@.skip(*final(pos) as int)))
            },
            Err(_) => {
                &&& sd_prim(b@.skip(*old(pos) as int)) is None
                &&& *final(pos) <= b@.len()
            },
        },
{
    let tag = match rd_u8(b, pos) {
        Ok(t) => t,
        Err(e) => {
            return Err(e);
        }
    };
    if tag == 0 {
        Ok(Prim::Unit)
    } else if tag == 1 {
        let v = match rd_u8(b, pos) {
            Ok(v) => v,
            Err(e) => {
                return Err(e);
            }
        };
        if v == 0 {
            Ok(Prim::Bool(false))
        } else if v == 1 {
            Ok(Prim::Bool(true))
        } else {
            Err(DecodeError::BadTag)
        }
    } else if tag == 2 {
        match rd_u64(b, pos) {
            Ok(x) => Ok(Prim::U64(x)),
            Err(e) => Err(e),
        }
    } else if tag == 3 {
        match rd_u64(b, pos) {
            Ok(x) => Ok(Prim::I64(#[verifier::truncate] (x as i64))),
            Err(e) => Err(e),
        }
    } else if tag == 4 {
        let n = match rd_u64(b, pos) {
            Ok(n) => n,
            Err(e) => {
                return Err(e);
            }
        };
        let p = *pos;
        if n <= (b.len() - p) as u64 {
            let nn = n as usize;
            let bytes = slice_to_vec(slice_subrange(b.as_slice(), p, p + nn));
            proof {
                assert(b@.skip(p as int).take(n as int) =~= b@.subrange(p as int, p as int
                    + nn as int));
                assert(b@.skip(p as int).skip(n as int) =~= b@.skip(p as int + nn as int));
            }
            match string_from_utf8(bytes) {
                Some(s) => {
                    proof {
                        encode_utf8_valid_utf8(s@);
                        encode_utf8_decode_utf8(s@);
                    }
                    *pos = p + nn;
                    Ok(Prim::Text(s))
                }
                None => Err(DecodeError::Utf8),
            }
        } else {
            Err(DecodeError::Truncated)
        }
    } else {
        Err(DecodeError::BadTag)
    }
}

/// Reads `n` tagged primitives, in order.
fn rd_prims(b: &Vec<u8>, pos: &mut usize, n: u64) -> (r: Result<Vec<Prim>, DecodeError>)
    requires
        *old(pos) <= b@.len(),
    ensures
        match r {
            Ok(vs) => {
                &&& *final(pos) <= b@.len()
                &&& sd_prims(b@.skip(*old(pos) as int), n as nat) == Some(
                    (prims_view(vs@), b@.skip(*final(pos) as int)),
                )
            },
            Err(_) => {
                &&& sd_prims(b@.skip(*old(pos) as int), n as nat) is None
                &&& *final(pos) <= b@.len()
            },
        },
{
    let ghost orig: usize = *pos;
    let mut acc: Vec<Prim> = Vec::new();
    let mut i: u64 = 0;
    while i < n
        invariant
            orig == *old(pos),
            *pos <= b@.len(),
            i <= n,
            sd_prims(b@.skip(orig as int), n as nat) == (match sd_prims(
                b@.skip(*pos as int),
                (n - i) as nat,
            ) {
                Some((s2, r2)) => Some::<(Seq<PrimV>, Seq<u8>)>((prims_view(acc@) + s2, r2)),
                None => None::<(Seq<PrimV>, Seq<u8>)>,
            }),
        decreases n - i,
    {
        let ghost before = *pos;
        let ghost acc_before = acc@;
        let q = match rd_prim(b, pos) {
            Ok(q) => q,
            Err(e) => {
                proof {
                    assert(sd_prims(b@.skip(before as int), (n - i) as nat) is None);
                }
                return Err(e);
            }
        };
        acc.push(q);
        i = i + 1;
        proof {
            assert(prims_view(acc@) =~= prims_view(acc_before).push(q@));
            assert forall|s2: Seq<PrimV>| prims_view(acc_before) + (seq![q@] + s2)
                =~= prims_view(acc@) + s2 by {}
        }
    }
    proof {
        assert(prims_view(acc@) + Seq::<PrimV>::empty() =~= prims_view(acc@));
    }
    Ok(acc)
}

/// Reads `n` fork references, in order.
fn rd_forks(b: &Vec<u8>, pos: &mut usize, n: u64) -> (r: Result<Vec<ForkRef>, DecodeError>)
    requires
        *old(pos) <= b@.len(),
    ensures
        match r {
            Ok(vs) => {
                &&& *final(pos) <= b@.len()
                &&& sd_forks(b@.skip(*old(pos) as int), n as nat) == Some(
                    (vs@, b@.skip(*final(pos) as int)),
                )
            },
            Err(_) => {
                &&& sd_forks(b@.skip(*old(pos) as int), n as nat) is None
                &&& *final(pos) <= b@.len()
            },
        },
{
    let ghost orig: usize = *pos;
    let mut acc: Vec<ForkRef> = Vec::new();
    let mut i: u64 = 0;
    while i < n
        invariant
            orig == *old(pos),
            *pos <= b@.len(),
            i <= n,
            sd_forks(b@.skip(orig as int), n as nat) == (match sd_forks(
                b@.skip(*pos as int),
                (n - i) as nat,
            ) {
                Some((s2, r2)) => Some::<(Seq<ForkRef>, Seq<u8>)>((acc@ + s2, r2)),
                None => None::<(Seq<ForkRef>, Seq<u8>)>,
            }),
        decreases n - i,
    {
        let ghost before = *pos;
        let f = match rd_fork(b, pos) {
            Ok(f) => f,
            Err(e) => {
                proof {
                    assert(sd_forks(b@.skip(before as int), (n - i) as nat) is None);
                }
                return Err(e);
            }
        };
        let ghost acc_before = acc@;
        acc.push(f);
        i = i + 1;
        proof {
            assert forall|s2: Seq<ForkRef>| acc_before + (seq![f] + s2) =~= acc@ + s2 by {}
        }
    }
    proof {
        assert(acc@ + Seq::<ForkRef>::empty() =~= acc@);
    }
    Ok(acc)
}

/// Reads a future result body.
fn rd_fres(b: &Vec<u8>, pos: &mut usize) -> (r: Result<FResult, DecodeError>)
    requires
        *old(pos) <= b@.len(),
    ensures
        match r {
            Ok(v) => {
                &&& *final(pos) <= b@.len()
                &&& sd_fres(b@.skip(*old(pos) as int)) == Some((v, b@.skip(*final(pos) as int)))
            },
            Err(_) => {
                &&& sd_fres(b@.skip(*old(pos) as int)) is None
                &&& *final(pos) <= b@.len()
            },
        },
{
    let tag = match rd_u8(b, pos) {
        Ok(t) => t,
        Err(e) => {
            return Err(e);
        }
    };
    if tag == 0 {
        match rd_fork(b, pos) {
            Ok(f) => Ok(FResult::Value(f)),
            Err(e) => Err(e),
        }
    } else if tag == 1 {
        match rd_fork(b, pos) {
            Ok(f) => Ok(FResult::Error(f)),
            Err(e) => Err(e),
        }
    } else {
        Err(DecodeError::BadTag)
    }
}

/// Reads a stream item body.
fn rd_sitem(b: &Vec<u8>, pos: &mut usize) -> (r: Result<StreamItem, DecodeError>)
    requires
        *old(pos) <= b@.len(),
    ensures
        match r {
            Ok(v) => {
                &&& *final(pos) <= b@.len()
                &&& sd_sitem(b@.skip(*old(pos) as int)) == Some((v, b@.skip(*final(pos) as int)))
            },
            Err(_) => {
                &&& sd_sitem(b@.skip(*old(pos) as int)) is None
                &&& *final(pos) <= b@.len()
            },
        },
{
    let tag = match rd_u8(b, pos) {
        Ok(t) => t,
        Err(e) => {
            return Err(e);
        }
    };
    if tag == 0 {
        match rd_fork(b, pos) {
            Ok(f) => Ok(StreamItem::Item(f)),
            Err(e) => Err(e),
        }
    } else if tag == 1 {
        match rd_fork(b, pos) {
            Ok(f) => Ok(StreamItem::Error(f)),
            Err(e) => Err(e),
        }
    } else if tag == 2 {
        Ok(StreamItem::End)
    } else {
        Err(DecodeError::BadTag)
    }
}

/// Reads a dispatch error body.
fn rd_call_error(b: &Vec<u8>, pos: &mut usize) -> (r: Result<CallError, DecodeError>)
    requires
        *old(pos) <= b@.len(),
    ensures
        match r {
            Ok(v) => {
                &&& *final(pos) <= b@.len()
                &&& sd_call_error(b@.skip(*old(pos) as int)) == Some(
                    (v, b@.skip(*final(pos) as int)),
                )
            },
            Err(_) => {
                &&& sd_call_error(b@.skip(*old(pos) as int)) is None
                &&& *final(pos) <= b@.len()
            },
        },
{
    let tag = match rd_u8(b, pos) {
        Ok(t) => t,
        Err(e) => {
            return Err(e);
        }
    };
    if tag == 0 {
        match rd_u8(b, pos) {
            Ok(p) => Ok(CallError::Type(p)),
            Err(e) => Err(e),
        }
    } else if tag == 1 {
        let e0 = match rd_u64(b, pos) {
            Ok(x) => x,
            Err(e) => {
                return Err(e);
            }
        };
        let g0 = match rd_u64(b, pos) {
            Ok(x) => x,
            Err(e) => {
                return Err(e);
            }
        };
        if e0 <= usize::MAX as u64 && g0 <= usize::MAX as u64 {
            Ok(
                CallError::ArgumentCount(
                    ArgumentCountError { expected: e0 as usize, got: g0 as usize },
                ),
            )
        } else {
            Err(DecodeError::BadTag)
        }
    } else if tag == 2 {
        match rd_u8(b, pos) {
            Ok(i) => Ok(CallError::OutOfRange(OutOfRangeError { index: i })),
            Err(e) => Err(e),
        }
    } else if tag == 3 {
        let v = match rd_u8(b, pos) {
            Ok(v) => v,
            Err(e) => {
                return Err(e);
            }
        };
        if v == 0 {
            Ok(CallError::IncorrectReceiver(Receiver::Mutable))
        } else if v == 1 {
            Ok(CallError::IncorrectReceiver(Receiver::Immutable))
        } else if v == 2 {
            Ok(CallError::IncorrectReceiver(Receiver::Owned))
        } else {
            Err(DecodeError::BadTag)
        }
    } else {
        Err(DecodeError::BadTag)
    }
}

/// Reads a return item.
fn rd_ret(b: &Vec<u8>, pos: &mut usize) -> (r: Result<ReturnItem, DecodeError>)
    requires
        *old(pos) <= b@.len(),
    ensures
        match r {
            Ok(v) => {
                &&& *final(pos) <= b@.len()
                &&& sd_ret(b@.skip(*old(pos) as int)) == Some((v@, b@.skip(*final(pos) as int)))
            },
            Err(_) => {
                &&& sd_ret(b@.skip(*old(pos) as int)) is None
                &&& *final(pos) <= b@.len()
            },
        },
{
    let tag = match rd_u8(b, pos) {
        Ok(t) => t,
        Err(e) => {
            return Err(e);
        }
    };
    if tag == 0 {
        match rd_prim(b, pos) {
            Ok(p) => Ok(ReturnItem::Prim(p)),
            Err(e) => Err(e),
        }
    } else if tag == 1 {
        match rd_fres(b, pos) {
            Ok(x) => Ok(ReturnItem::Res(x)),
            Err(e) => Err(e),
        }
    } else if tag == 2 {
        match rd_fork(b, pos) {
            Ok(f) => Ok(ReturnItem::Fork(f)),
            Err(e) => Err(e),
        }
    } else if tag == 3 {
        match rd_sitem(b, pos) {
            Ok(i) => Ok(ReturnItem::Item(i)),
            Err(e) => Err(e),
        }
    } else if tag == 4 {
        match rd_call_error(b, pos) {
            Ok(e0) => Ok(ReturnItem::Error(e0)),
            Err(e) => Err(e),
        }
    } else {
        Err(DecodeError::BadTag)
    }
}

/// Reads a payload: the kind tag, then the kind's body.
fn rd_payload(b: &Vec<u8>, pos: &mut usize) -> (r: Result<Payload, DecodeError>)
    requires
        *old(pos) <= b@.len(),
    ensures
        match r {
            Ok(v) => {
                &&& *final(pos) <= b@.len()
                &&& sd_payload(b@.skip(*old(pos) as int)) == Some(
                    (v@, b@.skip(*final(pos) as int)),
                )
            },
            Err(_) => {
                &&& sd_payload(b@.skip(*old(pos) as int)) is None
                &&& *final(pos) <= b@.len()
            },
        },
{
    let ghost start = *pos;
    let tag = match rd_u8(b, pos) {
        Ok(t) => t,
        Err(e) => {
            return Err(e);
        }
    };
    if tag <= 4 {
        // a primitive payload re-reads its own tag byte
        *pos = *pos - 1;
        proof {
            assert(*pos == start);
        }
        match rd_prim(b, pos) {
            Ok(p) => Ok(Payload::Prim(p)),
            Err(e) => Err(e),
        }
    } else if tag == 5 {
        match rd_fork(b, pos) {
            Ok(f) => Ok(Payload::Fork(f)),
            Err(e) => Err(e),
        }
    } else if tag == 6 {
        match rd_fres(b, pos) {
            Ok(x) => Ok(Payload::Res(x)),
            Err(e) => Err(e),
        }
    } else if tag == 7 {
        match rd_sitem(b, pos) {
            Ok(i) => Ok(Payload::Item(i)),
            Err(e) => Err(e),
        }
    } else if tag == 10 {
        let variant = match rd_u64(b, pos) {
            Ok(x) => x,
            Err(e) => {
                return Err(e);
            }
        };
        let n = match rd_u64(b, pos) {
            Ok(x) => x,
            Err(e) => {
                return Err(e);
            }
        };
        let fields = match rd_forks(b, pos, n) {
            Ok(f) => f,
            Err(e) => {
                return Err(e);
            }
        };
        Ok(Payload::Agg(Aggregate { variant, fields }))
    } else if tag == 8 {
        let m = match rd_u64(b, pos) {
            Ok(x) => x,
            Err(e) => {
                return Err(e);
            }
        };
        let n = match rd_u64(b, pos) {
            Ok(x) => x,
            Err(e) => {
                return Err(e);
            }
        };
        let args = match rd_prims(b, pos, n) {
            Ok(a) => a,
            Err(e) => {
                return Err(e);
            }
        };
        let pid = match rd_u64(b, pos) {
            Ok(x) => x,
            Err(e) => {
                return Err(e);
            }
        };
        Ok(Payload::Call(Call { method: m, args, protocol: pid }))
    } else if tag == 9 {
        let m = match rd_u64(b, pos) {
            Ok(x) => x,
            Err(e) => {
                return Err(e);
            }
        };
        let pid = match rd_u64(b, pos) {
            Ok(x) => x,
            Err(e) => {
                return Err(e);
            }
        };
        let item = match rd_ret(b, pos) {
            Ok(i) => i,
            Err(e) => {
                return Err(e);
            }
        };
        Ok(Payload::Resp(Response { method: m, protocol: pid, item }))
    } else {
        Err(DecodeError::BadTag)
    }
}

/// What a payload-only buffer decodes to: one whole payload with nothing
/// left over.
pub open spec fn spec_decode_payload(b: Seq<u8>) -> Option<PayloadV> {
    match sd_payload(b) {
        Some((p, r)) => if r.len() == 0 {
            Some(p)
        } else {
            None
        },
        None => None,
    }
}

/// Deserializes one payload, seeded with the kind registry: succeeds
/// exactly when the bytes spell one whole payload whose kind this process
/// has registered.
pub fn deserialize_payload(b: &Vec<u8>, registry: &Registry) -> (r: Result<
    Payload,
    DecodeError,
>)
    ensures
        match r {
            Ok(v) => {
                &&& spec_decode_payload(b@) == Some(v@)
                &&& registry.registered(payload_view_kind(v@))
            },
            Err(e) => spec_decode_payload(b@) is None || (e == DecodeError::UnknownKind
                && !registry.registered(payload_view_kind(spec_decode_payload(b@)->Some_0))),
        },
{
    let mut pos: usize = 0;
    proof {
        assert(b@.skip(0) =~= b@);
    }
    let p = match rd_payload(b, &mut pos) {
        Ok(p) => p,
        Err(e) => {
            return Err(e);
        }
    };
    if pos != b.len() {
        return Err(DecodeError::Trailing);
    }
    let k = p.kind();
    if !registry.is_registered(k) {
        return Err(DecodeError::UnknownKind);
    }
    Ok(p)
}

/// Deserializes one frame, seeded with the kind registry: succeeds exactly
/// when the bytes spell one whole frame whose payload kind this process has
/// registered.
pub fn deserialize_item(b: &Vec<u8>, registry: &Registry) -> (r: Result<
    ChannelItem,
    DecodeError,
>)
    ensures
        match r {
            Ok(v) => {
                &&& spec_decode_item(b@) == Some(v@)
                &&& registry.registered(payload_view_kind(v@.data))
            },
            Err(e) => spec_decode_item(b@) is None || (e == DecodeError::UnknownKind
                && !registry.registered(payload_view_kind(spec_decode_item(b@)->Some_0.data))),
        },
{
    let mut pos: usize = 0;
    proof {
        assert(b@.skip(0) =~= b@);
    }
    let ch = match rd_u64(b, &mut pos) {
        Ok(x) => x,
        Err(e) => {
            return Err(e);
        }
    };
    let p = match rd_payload(b, &mut pos) {
        Ok(p) => p,
        Err(e) => {
            return Err(e);
        }
    };
    if pos != b.len() {
        return Err(DecodeError::Trailing);
    }
    let k = p.kind();
    if !registry.is_registered(k) {
        return Err(DecodeError::UnknownKind);
    }
    Ok(ChannelItem(ch, p))
}

} // verus!
