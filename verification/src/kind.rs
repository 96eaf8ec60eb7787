//! The kind derivation engine: the deconstruct/construct exchanges for the
//! kind families, run over a pair of channels joined by the byte transport.
//!
//! Each function here plays one complete exchange: the active peer
//! deconstructs a value onto its channel, every frame crosses the transport
//! as bytes through the codec, and the passive peer constructs the value
//! back.  The contracts state the round-trip law for each family — the
//! handle the constructor yields behaves as the deconstructed value did —
//! together with the exact wire witness of the exchange.

use vstd::prelude::*;

use crate::channel::{payloads_view, IdChannel};
use crate::codec::{
    deserialize_item, item_wf, lemma_codec_round_trip, serialize_item, spec_encode_item,
};
use crate::registry::Registry;
use crate::wire::{
    payload_view_kind, Aggregate, AggregateV, ChannelItemV, ForkRef, FResult, Payload, PayloadV,
    Prim, PrimV, StreamItem, WireKind,
};

verus! {

/// The view of a future's outcome.
pub open spec fn outcome_view(r: Result<Prim, Prim>) -> Result<PrimV, PrimV> {
    match r {
        Ok(v) => Ok(v@),
        Err(e) => Err(e@),
    }
}

/// Transports one primitive value: the active peer deconstructs it on the
/// root fork, one frame crosses the wire, and the passive peer's construct
/// yields an equal value.  The wire witness is a single frame on fork 0
/// carrying the value.
pub fn transport_prim(v: Prim) -> (r: (Prim, Vec<Vec<u8>>))
    ensures
        r.0@ == v@,
        r.1@.len() == 1,
        r.1@[0]@ == spec_encode_item(
            ChannelItemV { channel: 0, data: PayloadV::Prim(v@) },
        ),
{
    let k = v.kind();
    let ghost vv = v@;

    // active peer: allocate the root fork and deconstruct the value
    let mut a = IdChannel::new(false);
    let root = a.fork(k, WireKind::Unit);
    a.send_on(0, Payload::Prim(v));

    // the transport carries the frame as bytes
    let item = match a.next_outbound() {
        Some(it) => it,
        None => {
            proof {
                assert(false);
            }
            return (Prim::Unit, Vec::new());
        }
    };
    let bytes = serialize_item(&item);
    proof {
        lemma_codec_round_trip(item@);
    }

    // passive peer: install the root consumer, decode, route, construct
    let reg = Registry::standard();
    let mut b = IdChannel::new(true);
    match b.get_fork(ForkRef(0), k, WireKind::Unit) {
        Ok(_) => {}
        Err(_) => {
            proof {
                assert(false);
            }
            return (Prim::Unit, Vec::new());
        }
    }
    let decoded = match deserialize_item(&bytes, &reg) {
        Ok(d) => d,
        Err(_) => {
            proof {
                assert(false);
            }
            return (Prim::Unit, Vec::new());
        }
    };
    match b.route(decoded) {
        Ok(_) => {}
        Err(_) => {
            proof {
                assert(false);
            }
            return (Prim::Unit, Vec::new());
        }
    }
    let p = match b.recv_on(0) {
        Some(p) => p,
        None => {
            proof {
                assert(false);
            }
            return (Prim::Unit, Vec::new());
        }
    };
    let q = match p {
        Payload::Prim(q) => q,
        _ => {
            proof {
                assert(false);
            }
            return (Prim::Unit, Vec::new());
        }
    };

    // both halves are done: the fork records can be released
    a.release_fork(0);
    b.release_fork(0);

    let mut log: Vec<Vec<u8>> = Vec::new();
    log.push(bytes);
    (q, log)
}

/// Transports a future's terminal state: the active peer awaits the wrapped
/// future outside the core and hands its outcome here; deconstruction forks
/// the payload, announces which side completed on the root fork, and the
/// passive peer's construct resolves to the same terminal state.  The wire
/// witness is a result frame on fork 0 naming fork 2, then the payload on
/// fork 2.
#[verifier::rlimit(100)]
pub fn transport_future(outcome: Result<Prim, Prim>) -> (r: (
    Result<Prim, Prim>,
    Vec<Vec<u8>>,
))
    ensures
        outcome_view(r.0) == outcome_view(outcome),
        r.1@.len() == 2,
        r.1@[0]@ == spec_encode_item(
            ChannelItemV {
                channel: 0,
                data: PayloadV::Res(
                    match outcome {
                        Ok(_) => FResult::Value(ForkRef(2)),
                        Err(_) => FResult::Error(ForkRef(2)),
                    },
                ),
            },
        ),
        r.1@[1]@ == spec_encode_item(
            ChannelItemV {
                channel: 2,
                data: PayloadV::Prim(
                    match outcome {
                        Ok(v) => v@,
                        Err(e) => e@,
                    },
                ),
            },
        ),
{
    let failed = match &outcome {
        Ok(_) => false,
        Err(_) => true,
    };
    let payload: Prim = match outcome {
        Ok(v) => v,
        Err(e) => e,
    };
    let tk = payload.kind();

    // active peer: root fork for the future, then a fork for the payload,
    // allocated before its reference is emitted
    let mut a = IdChannel::new(false);
    let root = a.fork(WireKind::Res, WireKind::Unit);
    let sub = a.fork(tk, WireKind::Unit);
    proof {
        assert(sub.0 == 2);
    }
    let res = if failed {
        FResult::Error(sub)
    } else {
        FResult::Value(sub)
    };
    a.send_on(0, Payload::Res(res));
    a.send_on(2, Payload::Prim(payload));

    // passive peer
    let reg = Registry::standard();
    let mut b = IdChannel::new(true);
    match b.get_fork(ForkRef(0), WireKind::Res, WireKind::Unit) {
        Ok(_) => {}
        Err(_) => {
            proof {
                assert(false);
            }
            return (Ok(Prim::Unit), Vec::new());
        }
    }

    // first frame: the result announcement
    let item0 = match a.next_outbound() {
        Some(it) => it,
        None => {
            proof {
                assert(false);
            }
            return (Ok(Prim::Unit), Vec::new());
        }
    };
    let bytes0 = serialize_item(&item0);
    proof {
        lemma_codec_round_trip(item0@);
    }
    let decoded0 = match deserialize_item(&bytes0, &reg) {
        Ok(d) => d,
        Err(_) => {
            proof {
                assert(false);
            }
            return (Ok(Prim::Unit), Vec::new());
        }
    };
    match b.route(decoded0) {
        Ok(_) => {}
        Err(_) => {
            proof {
                assert(false);
            }
            return (Ok(Prim::Unit), Vec::new());
        }
    }
    let ann = match b.recv_on(0) {
        Some(Payload::Res(x)) => x,
        _ => {
            proof {
                assert(false);
            }
            return (Ok(Prim::Unit), Vec::new());
        }
    };
    // the announcement names the payload fork; construct binds it
    let sub_ref = match ann {
        FResult::Value(f) => f,
        FResult::Error(f) => f,
    };
    proof {
        assert(sub_ref.0 == 2);
        assert(!b.has_fork(2)) by {
            if b.has_fork(2) {
                let i = b.fork_index(2);
                assert(b.forks@[i].id == 2);
            }
        }
        assert(!b.has_orphan(2));
        assert(b.orphan_frames(2) =~= Seq::<Payload>::empty());
    }
    match b.get_fork(sub_ref, tk, WireKind::Unit) {
        Ok(_) => {}
        Err(_) => {
            proof {
                assert(false);
            }
            return (Ok(Prim::Unit), Vec::new());
        }
    }

    // second frame: the payload
    let item1 = match a.next_outbound() {
        Some(it) => it,
        None => {
            proof {
                assert(false);
            }
            return (Ok(Prim::Unit), Vec::new());
        }
    };
    let bytes1 = serialize_item(&item1);
    proof {
        lemma_codec_round_trip(item1@);
    }
    let decoded1 = match deserialize_item(&bytes1, &reg) {
        Ok(d) => d,
        Err(_) => {
            proof {
                assert(false);
            }
            return (Ok(Prim::Unit), Vec::new());
        }
    };
    match b.route(decoded1) {
        Ok(_) => {}
        Err(_) => {
            proof {
                assert(false);
            }
            return (Ok(Prim::Unit), Vec::new());
        }
    }
    let q = match b.recv_on(2) {
        Some(Payload::Prim(q)) => q,
        _ => {
            proof {
                assert(false);
            }
            return (Ok(Prim::Unit), Vec::new());
        }
    };

    a.release_fork(0);
    a.release_fork(2);
    b.release_fork(0);
    b.release_fork(2);

    let mut log: Vec<Vec<u8>> = Vec::new();
    log.push(bytes0);
    log.push(bytes1);
    let value = if failed {
        Err(q)
    } else {
        Ok(q)
    };
    (value, log)
}

/// The failure every live handle observes when the transport under its
/// channel goes away.
#[derive(Clone, Copy, Debug, PartialEq, Eq, Structural)]
pub struct TransportError;

/// One poll of a pending construct handle on its fork: the next frame if
/// one arrived, nothing if the handle still waits — or, the moment the
/// transport is torn down, a transport error.  A handle polled on a closed
/// channel never hangs: it fails at once.
pub fn construct_poll(ch: &mut IdChannel, fork: u64) -> (r: Result<
    Option<Payload>,
    TransportError,
>)
    requires
        old(ch).wf(),
        old(ch).has_fork(fork),
    ensures
        final(ch).wf(),
        r is Err <==> old(ch).closed,
        old(ch).closed ==> *final(ch) == *old(ch),
        match r {
            Ok(Some(p)) => {
                &&& old(ch).fork_at(fork).inbound@.len() > 0
                &&& p == old(ch).fork_at(fork).inbound@[0]
                &&& final(ch).fork_at(fork).inbound@ == old(ch).fork_at(
                    fork,
                ).inbound@.drop_first()
                &&& final(ch).fork_at(fork).delivered@ == old(ch).fork_at(
                    fork,
                ).delivered@.push(p@)
            },
            Ok(None) => {
                &&& old(ch).fork_at(fork).inbound@.len() == 0
                &&& *final(ch) == *old(ch)
            },
            Err(_) => *final(ch) == *old(ch),
        },
{
    if ch.closed {
        return Err(TransportError);
    }
    Ok(ch.recv_on(fork))
}

/// Carries the next outbound frame of `src` across the byte transport into
/// an open fork of `dst`: serializes it, deserializes it on the other side
/// seeded with the registry, and routes it.  Returns the bytes that crossed.
pub(crate) fn pump_to_fork(src: &mut IdChannel, dst: &mut IdChannel, reg: &Registry) -> (bytes:
    Vec<u8>)
    requires
        old(src).wf(),
        old(dst).wf(),
        forall|k: WireKind| reg.registered(k),
        old(src).outbound@.len() > 0,
        !old(dst).closed,
        old(dst).has_fork(old(src).outbound@[0].0),
        old(dst).fork_at(old(src).outbound@[0].0).state is Open,
        payload_view_kind(old(src).outbound@[0].1@) == old(dst).fork_at(
            old(src).outbound@[0].0,
        ).recv_kind(),
    ensures
        bytes@ == spec_encode_item(old(src).outbound@[0]@),
        final(src).wf(),
        old(src).same_admin(final(src)),
        final(src).forks == old(src).forks,
        final(src).orphans == old(src).orphans,
        final(src).outbound@ == old(src).outbound@.drop_first(),
        forall|x: u64| #[trigger] final(src).has_fork(x) == old(src).has_fork(x),
        forall|x: u64| #[trigger] final(src).has_orphan(x) == old(src).has_orphan(x),
        forall|x: u64|
            old(src).has_fork(x) ==> #[trigger] final(src).fork_at(x) == old(src).fork_at(x),
        final(dst).wf(),
        old(dst).same_admin(final(dst)),
        final(dst).outbound == old(dst).outbound,
        final(dst).orphans == old(dst).orphans,
        old(dst).forks_unchanged_except(final(dst), old(src).outbound@[0].0),
        forall|x: u64| #[trigger] final(dst).has_fork(x) == old(dst).has_fork(x),
        forall|x: u64| #[trigger] final(dst).has_orphan(x) == old(dst).has_orphan(x),
        forall|x: u64|
            x != old(src).outbound@[0].0 && old(dst).has_fork(x)
                ==> #[trigger] final(dst).fork_at(x) == old(dst).fork_at(x),
        final(dst).has_fork(old(src).outbound@[0].0),
        ({
            let id = old(src).outbound@[0].0;
            let f = final(dst).fork_at(id);
            let g = old(dst).fork_at(id);
            &&& f.id == g.id
            &&& f.construct_kind == g.construct_kind
            &&& f.deconstruct_kind == g.deconstruct_kind
            &&& f.constructing == g.constructing
            &&& f.state == g.state
            &&& f.inbound@.len() == g.inbound@.len() + 1
            &&& payloads_view(f.inbound@) == payloads_view(g.inbound@).push(
                old(src).outbound@[0].1@,
            )
            &&& f.routed@ == g.routed@.push(old(src).outbound@[0].1@)
            &&& f.delivered@ == g.delivered@
        }),
{
    let item = match src.next_outbound() {
        Some(it) => it,
        None => {
            proof {
                assert(false);
            }
            return Vec::new();
        }
    };
    let bytes = serialize_item(&item);
    proof {
        lemma_codec_round_trip(item@);
    }
    let decoded = match deserialize_item(&bytes, reg) {
        Ok(d) => d,
        Err(_) => {
            proof {
                assert(false);
            }
            return Vec::new();
        }
    };
    match dst.route(decoded) {
        Ok(_) => {}
        Err(_) => {
            proof {
                assert(false);
            }
            return Vec::new();
        }
    }
    proof {
        assert(payloads_view(dst.fork_at(item.0).inbound@) =~= payloads_view(
            old(dst).fork_at(item.0).inbound@,
        ).push(item.1@));
    }
    bytes
}

/// Transports a sink: the passive peer constructs the sink handle and feeds
/// it a finite sequence of items; each send forks the item on the passive
/// peer's side and announces the fork on the root; the active peer, hosting
/// the sink, resolves each announced fork and feeds the item downstream.
/// The downstream trace equals the fed sequence, in order.  The wire
/// witness: for each item one payload frame on a fresh odd fork, then its
/// fork reference on fork 0; the payload frame travels first, so the host
/// buffers it as an orphan until the reference installs the consumer.
#[verifier::rlimit(100)]
pub fn transport_sink(items: &Vec<Prim>) -> (r: (Vec<Prim>, Vec<Vec<u8>>))
    requires
        items@.len() < 0x4000_0000_0000_0000,
    ensures
        r.0@.len() == items@.len(),
        forall|j: int| 0 <= j < items@.len() ==> #[trigger] r.0@[j]@ == items@[j]@,
        r.1@.len() == 2 * items@.len(),
        forall|j: int|
            0 <= j < items@.len() ==> #[trigger] r.1@[2 * j]@ == spec_encode_item(
                ChannelItemV {
                    channel: (2 * j + 1) as u64,
                    data: PayloadV::Prim(items@[j]@),
                },
            ),
        forall|j: int|
            0 <= j < items@.len() ==> #[trigger] r.1@[2 * j + 1]@ == spec_encode_item(
                ChannelItemV {
                    channel: 0,
                    data: PayloadV::Fork(ForkRef((2 * j + 1) as u64)),
                },
            ),
{
    let reg = Registry::standard();

    // active peer: hosts the sink behind the root fork
    let mut a = IdChannel::new(false);
    let root = a.fork(WireKind::Fork, WireKind::Fork);
    // passive peer: constructs the sink handle
    let mut b = IdChannel::new(true);
    match b.get_fork(ForkRef(0), WireKind::Fork, WireKind::Fork) {
        Ok(_) => {}
        Err(_) => {
            proof {
                assert(false);
            }
            return (Vec::new(), Vec::new());
        }
    }

    let mut trace: Vec<Prim> = Vec::new();
    let mut log: Vec<Vec<u8>> = Vec::new();
    let mut i: usize = 0;
    while i < items.len()
        invariant
            items@.len() < 0x4000_0000_0000_0000,
            i <= items@.len(),
            forall|k: WireKind| reg.registered(k),
            a.wf(),
            b.wf(),
            !a.closed,
            !b.closed,
            !a.odd,
            b.odd,
            a.outbound@.len() == 0,
            b.outbound@.len() == 0,
            a.forks@.len() == 1,
            a.forks@[0].id == 0,
            a.has_fork(0),
            a.fork_at(0).id == 0,
            !a.fork_at(0).constructing,
            a.fork_at(0).construct_kind == WireKind::Fork,
            a.fork_at(0).deconstruct_kind == WireKind::Fork,
            a.fork_at(0).state is Open,
            a.fork_at(0).inbound@.len() == 0,
            a.orphans@.len() == 0,
            a.next_fork == 1,
            b.forks@.len() == 1,
            b.forks@[0].id == 0,
            b.has_fork(0),
            b.fork_at(0).id == 0,
            b.fork_at(0).constructing,
            b.fork_at(0).construct_kind == WireKind::Fork,
            b.fork_at(0).deconstruct_kind == WireKind::Fork,
            b.fork_at(0).state is Open,
            b.next_fork == i as u64,
            trace@.len() == i,
            forall|j: int| 0 <= j < i ==> #[trigger] trace@[j]@ == items@[j]@,
            log@.len() == 2 * i,
            forall|j: int|
                0 <= j < i ==> #[trigger] log@[2 * j]@ == spec_encode_item(
                    ChannelItemV {
                        channel: (2 * j + 1) as u64,
                        data: PayloadV::Prim(items@[j]@),
                    },
                ),
            forall|j: int|
                0 <= j < i ==> #[trigger] log@[2 * j + 1]@ == spec_encode_item(
                    ChannelItemV {
                        channel: 0,
                        data: PayloadV::Fork(ForkRef((2 * j + 1) as u64)),
                    },
                ),
        decreases items@.len() - i,
    {
        let v = items[i].duplicate();
        let tk = v.kind();
        // each send begets a fork of the item's kind, allocated before its
        // reference is emitted
        let f = b.fork(tk, WireKind::Unit);
        proof {
            assert(f.0 == 2 * (i as u64) + 1);
            assert(b.has_fork(0)) by {
                assert(b.forks@[0].id == 0);
            }
            assert(b.fork_index(0) == 0) by {
                let j = b.fork_index(0);
                if j != 0 {
                    assert(b.forks@[j].id == 0);
                }
            }
        }
        b.send_on(f.0, Payload::Prim(v));
        b.send_on(0, Payload::Fork(f));
        b.release_fork(f.0);

        // the payload frame crosses first and is buffered as an orphan
        let it0 = match b.next_outbound() {
            Some(it) => it,
            None => {
                proof {
                    assert(false);
                }
                return (Vec::new(), Vec::new());
            }
        };
        let bytes0 = serialize_item(&it0);
        proof {
            lemma_codec_round_trip(it0@);
        }
        let d0 = match deserialize_item(&bytes0, &reg) {
            Ok(d) => d,
            Err(_) => {
                proof {
                    assert(false);
                }
                return (Vec::new(), Vec::new());
            }
        };
        proof {
            assert(!a.has_fork(f.0)) by {
                if a.has_fork(f.0) {
                    let j = a.fork_index(f.0);
                    assert(a.forks@[j].id == f.0);
                    assert(a.forks@[0].id == 0);
                }
            }
            assert(!a.has_orphan(f.0)) by {
                if a.has_orphan(f.0) {
                    let j = a.orphan_index(f.0);
                    assert(0 <= j < a.orphans@.len());
                }
            }
        }
        match a.route(d0) {
            Ok(_) => {}
            Err(_) => {
                proof {
                    assert(false);
                }
                return (Vec::new(), Vec::new());
            }
        }

        // then the fork reference on the root
        let it1 = match b.next_outbound() {
            Some(it) => it,
            None => {
                proof {
                    assert(false);
                }
                return (Vec::new(), Vec::new());
            }
        };
        let bytes1 = serialize_item(&it1);
        proof {
            lemma_codec_round_trip(it1@);
        }
        let d1 = match deserialize_item(&bytes1, &reg) {
            Ok(d) => d,
            Err(_) => {
                proof {
                    assert(false);
                }
                return (Vec::new(), Vec::new());
            }
        };
        match a.route(d1) {
            Ok(_) => {}
            Err(_) => {
                proof {
                    assert(false);
                }
                return (Vec::new(), Vec::new());
            }
        }

        // the host reads the reference and resolves the item's fork,
        // draining the orphaned payload frame
        let fr = match a.recv_on(0) {
            Some(Payload::Fork(fr)) => fr,
            _ => {
                proof {
                    assert(false);
                }
                return (Vec::new(), Vec::new());
            }
        };
        proof {
            assert(fr == f);
            assert(a.orphan_frames(f.0) =~= Seq::<Payload>::empty().push(d0.1));
            assert(payload_view_kind(a.orphan_frames(f.0)[0]@) == tk);
            assert(!a.has_fork(f.0)) by {
                if a.has_fork(f.0) {
                    let j = a.fork_index(f.0);
                    assert(a.forks@[j].id == f.0);
                }
            }
        }
        match a.get_fork(fr, tk, WireKind::Unit) {
            Ok(_) => {}
            Err(_) => {
                proof {
                    assert(false);
                }
                return (Vec::new(), Vec::new());
            }
        }
        let q = match a.recv_on(fr.0) {
            Some(Payload::Prim(q)) => q,
            _ => {
                proof {
                    assert(false);
                }
                return (Vec::new(), Vec::new());
            }
        };
        // the downstream sink observes the item
        trace.push(q);
        a.release_fork(fr.0);
        log.push(bytes0);
        log.push(bytes1);
        proof {
            assert(trace@.len() == i + 1);
            assert(trace@[i as int]@ == items@[i as int]@);
            assert(a.orphans@.len() == 0);
            assert(a.has_fork(0));
            assert(a.forks@.len() == 1);
            assert(a.forks@[0].id == 0) by {
                let j = a.fork_index(0);
                assert(0 <= j < a.forks@.len() && a.forks@[j].id == 0);
            }
            assert(b.has_fork(0));
            assert(b.forks@.len() == 1);
            assert(b.forks@[0].id == 0) by {
                let j = b.fork_index(0);
                assert(0 <= j < b.forks@.len() && b.forks@[j].id == 0);
            }
        }
        i = i + 1;
    }
    (trace, log)
}

/// Transports a stream: the active peer, hosting the source, forks each
/// yielded element, announces the fork on the root, sends the element's
/// payload, and closes with an end marker; the passive peer's construct
/// yields the same sequence in the same order.  The wire witness: for each
/// element a stream-item frame on fork 0 naming a fresh even fork, then the
/// payload on that fork; finally an end frame on fork 0.
#[verifier::rlimit(100)]
pub fn transport_stream(items: &Vec<Prim>) -> (r: (Vec<Prim>, Vec<Vec<u8>>))
    requires
        items@.len() < 0x3fff_ffff_ffff_ffff,
    ensures
        r.0@.len() == items@.len(),
        forall|j: int| 0 <= j < items@.len() ==> #[trigger] r.0@[j]@ == items@[j]@,
        r.1@.len() == 2 * items@.len() + 1,
        forall|j: int|
            0 <= j < items@.len() ==> #[trigger] r.1@[2 * j]@ == spec_encode_item(
                ChannelItemV {
                    channel: 0,
                    data: PayloadV::Item(StreamItem::Item(ForkRef((2 * j + 2) as u64))),
                },
            ),
        forall|j: int|
            0 <= j < items@.len() ==> #[trigger] r.1@[2 * j + 1]@ == spec_encode_item(
                ChannelItemV {
                    channel: (2 * j + 2) as u64,
                    data: PayloadV::Prim(items@[j]@),
                },
            ),
        r.1@[2 * items@.len() as int]@ == spec_encode_item(
            ChannelItemV { channel: 0, data: PayloadV::Item(StreamItem::End) },
        ),
{
    let reg = Registry::standard();

    // active peer: hosts the source behind the root fork
    let mut a = IdChannel::new(false);
    let root = a.fork(WireKind::Item, WireKind::Unit);
    // passive peer: constructs the stream handle
    let mut b = IdChannel::new(true);
    match b.get_fork(ForkRef(0), WireKind::Item, WireKind::Unit) {
        Ok(_) => {}
        Err(_) => {
            proof {
                assert(false);
            }
            return (Vec::new(), Vec::new());
        }
    }

    let mut yielded: Vec<Prim> = Vec::new();
    let mut log: Vec<Vec<u8>> = Vec::new();
    let mut i: usize = 0;
    while i < items.len()
        invariant
            items@.len() < 0x3fff_ffff_ffff_ffff,
            i <= items@.len(),
            forall|k: WireKind| reg.registered(k),
            a.wf(),
            b.wf(),
            !a.closed,
            !b.closed,
            !a.odd,
            b.odd,
            a.outbound@.len() == 0,
            b.outbound@.len() == 0,
            a.forks@.len() == 1,
            a.forks@[0].id == 0,
            a.has_fork(0),
            a.fork_at(0).id == 0,
            !a.fork_at(0).constructing,
            a.fork_at(0).construct_kind == WireKind::Item,
            a.fork_at(0).deconstruct_kind == WireKind::Unit,
            a.fork_at(0).state is Open,
            a.fork_at(0).inbound@.len() == 0,
            a.next_fork == (i + 1) as u64,
            b.forks@.len() == 1,
            b.forks@[0].id == 0,
            b.has_fork(0),
            b.fork_at(0).id == 0,
            b.fork_at(0).constructing,
            b.fork_at(0).construct_kind == WireKind::Item,
            b.fork_at(0).deconstruct_kind == WireKind::Unit,
            b.fork_at(0).state is Open,
            b.fork_at(0).inbound@.len() == 0,
            b.orphans@.len() == 0,
            b.next_fork == 0,
            yielded@.len() == i,
            forall|j: int| 0 <= j < i ==> #[trigger] yielded@[j]@ == items@[j]@,
            log@.len() == 2 * i,
            forall|j: int|
                0 <= j < i ==> #[trigger] log@[2 * j]@ == spec_encode_item(
                    ChannelItemV {
                        channel: 0,
                        data: PayloadV::Item(StreamItem::Item(ForkRef((2 * j + 2) as u64))),
                    },
                ),
            forall|j: int|
                0 <= j < i ==> #[trigger] log@[2 * j + 1]@ == spec_encode_item(
                    ChannelItemV {
                        channel: (2 * j + 2) as u64,
                        data: PayloadV::Prim(items@[j]@),
                    },
                ),
        decreases items@.len() - i,
    {
        let v = items[i].duplicate();
        let tk = v.kind();
        // fork the element before its reference goes on the wire
        let f = a.fork(tk, WireKind::Unit);
        proof {
            assert(f.0 == 2 * (i as u64) + 2);
            assert(a.has_fork(0)) by {
                assert(a.forks@[0].id == 0);
            }
        }
        a.send_on(0, Payload::Item(StreamItem::Item(f)));
        a.send_on(f.0, Payload::Prim(v));

        // the reference frame crosses first
        let it0 = match a.next_outbound() {
            Some(it) => it,
            None => {
                proof {
                    assert(false);
                }
                return (Vec::new(), Vec::new());
            }
        };
        let bytes0 = serialize_item(&it0);
        proof {
            lemma_codec_round_trip(it0@);
        }
        let d0 = match deserialize_item(&bytes0, &reg) {
            Ok(d) => d,
            Err(_) => {
                proof {
                    assert(false);
                }
                return (Vec::new(), Vec::new());
            }
        };
        match b.route(d0) {
            Ok(_) => {}
            Err(_) => {
                proof {
                    assert(false);
                }
                return (Vec::new(), Vec::new());
            }
        }
        let fr = match b.recv_on(0) {
            Some(Payload::Item(StreamItem::Item(fr))) => fr,
            _ => {
                proof {
                    assert(false);
                }
                return (Vec::new(), Vec::new());
            }
        };
        proof {
            assert(fr == f);
            assert(!b.has_fork(f.0)) by {
                if b.has_fork(f.0) {
                    let j = b.fork_index(f.0);
                    assert(b.forks@[j].id == f.0);
                }
            }
            assert(!b.has_orphan(f.0)) by {
                if b.has_orphan(f.0) {
                    let j = b.orphan_index(f.0);
                    assert(0 <= j < b.orphans@.len());
                }
            }
        }
        match b.get_fork(fr, tk, WireKind::Unit) {
            Ok(_) => {}
            Err(_) => {
                proof {
                    assert(false);
                }
                return (Vec::new(), Vec::new());
            }
        }

        // then the element's payload
        let it1 = match a.next_outbound() {
            Some(it) => it,
            None => {
                proof {
                    assert(false);
                }
                return (Vec::new(), Vec::new());
            }
        };
        let bytes1 = serialize_item(&it1);
        proof {
            lemma_codec_round_trip(it1@);
        }
        let d1 = match deserialize_item(&bytes1, &reg) {
            Ok(d) => d,
            Err(_) => {
                proof {
                    assert(false);
                }
                return (Vec::new(), Vec::new());
            }
        };
        match b.route(d1) {
            Ok(_) => {}
            Err(_) => {
                proof {
                    assert(false);
                }
                return (Vec::new(), Vec::new());
            }
        }
        let q = match b.recv_on(fr.0) {
            Some(Payload::Prim(q)) => q,
            _ => {
                proof {
                    assert(false);
                }
                return (Vec::new(), Vec::new());
            }
        };
        yielded.push(q);
        a.release_fork(f.0);
        b.release_fork(fr.0);
        log.push(bytes0);
        log.push(bytes1);
        proof {
            assert(yielded@.len() == i + 1);
            assert(yielded@[i as int]@ == items@[i as int]@);
            assert(a.has_fork(0));
            assert(a.forks@.len() == 1);
            assert(a.forks@[0].id == 0) by {
                let j = a.fork_index(0);
                assert(0 <= j < a.forks@.len() && a.forks@[j].id == 0);
            }
            assert(b.has_fork(0));
            assert(b.forks@.len() == 1);
            assert(b.forks@[0].id == 0) by {
                let j = b.fork_index(0);
                assert(0 <= j < b.forks@.len() && b.forks@[j].id == 0);
            }
        }
        i = i + 1;
    }

    // exhaustion: the end marker closes the sequence
    a.send_on(0, Payload::Item(StreamItem::End));
    let it_end = match a.next_outbound() {
        Some(it) => it,
        None => {
            proof {
                assert(false);
            }
            return (Vec::new(), Vec::new());
        }
    };
    let bytes_end = serialize_item(&it_end);
    proof {
        lemma_codec_round_trip(it_end@);
    }
    let d_end = match deserialize_item(&bytes_end, &reg) {
        Ok(d) => d,
        Err(_) => {
            proof {
                assert(false);
            }
            return (Vec::new(), Vec::new());
        }
    };
    match b.route(d_end) {
        Ok(_) => {}
        Err(_) => {
            proof {
                assert(false);
            }
            return (Vec::new(), Vec::new());
        }
    }
    match b.recv_on(0) {
        Some(Payload::Item(StreamItem::End)) => {}
        _ => {
            proof {
                assert(false);
            }
            return (Vec::new(), Vec::new());
        }
    }
    log.push(bytes_end);
    a.release_fork(0);
    b.release_fork(0);
    (yielded, log)
}

/// The fork references a transported aggregate's fields travel on: the
/// active peer's allocator hands out consecutive even ids after the root.
pub open spec fn aggregate_refs(n: int) -> Seq<ForkRef> {
    Seq::new(n as nat, |j: int| ForkRef((2 * j + 2) as u64))
}

/// Transports a user aggregate: the active peer deconstructs it
/// field-by-field, allocating a fork per field in declaration order and
/// sending each field's value on its fork, then emits one tagged frame
/// carrying the variant and every field's reference; the passive peer's
/// construct resolves each reference and assembles the same variant with
/// equal fields.  The field frames travel ahead of the aggregate frame, so
/// the consumer finds them waiting in the orphan table.
#[verifier::rlimit(100)]
pub fn transport_aggregate(variant: u64, fields: &Vec<Prim>) -> (r: (
    (u64, Vec<Prim>),
    Vec<Vec<u8>>,
))
    requires
        fields@.len() < 0x3fff_ffff_ffff_ffff,
    ensures
        r.0.0 == variant,
        r.0.1@.len() == fields@.len(),
        forall|j: int| 0 <= j < fields@.len() ==> #[trigger] r.0.1@[j]@ == fields@[j]@,
        r.1@.len() == fields@.len() + 1,
        forall|j: int|
            0 <= j < fields@.len() ==> #[trigger] r.1@[j]@ == spec_encode_item(
                ChannelItemV {
                    channel: (2 * j + 2) as u64,
                    data: PayloadV::Prim(fields@[j]@),
                },
            ),
        r.1@[fields@.len() as int]@ == spec_encode_item(
            ChannelItemV {
                channel: 0,
                data: PayloadV::Agg(
                    AggregateV { variant, fields: aggregate_refs(fields@.len() as int) },
                ),
            },
        ),
{
    let reg = Registry::standard();
    let n = fields.len();

    // active peer: the aggregate's host
    let mut a = IdChannel::new_with(WireKind::Agg, WireKind::Unit);
    // passive peer: declares the root kind and installs its consumer
    let mut b = IdChannel::new(true);
    proof {
        assert(!b.has_orphan(0)) by {
            if b.has_orphan(0) {
                let j = b.orphan_index(0);
                assert(0 <= j < b.orphans@.len());
            }
        }
        assert(b.orphan_frames(0) =~= Seq::<Payload>::empty());
    }
    match b.value(WireKind::Agg, WireKind::Unit) {
        Ok(_) => {}
        Err(_) => {
            proof {
                assert(false);
            }
            return ((0, Vec::new()), Vec::new());
        }
    }
    proof {
        assert(b.forks@[0].id == 0) by {
            let j = b.fork_index(0);
            assert(0 <= j < b.forks@.len() && b.forks@[j].id == 0);
        }
    }

    let mut refs: Vec<ForkRef> = Vec::new();
    let mut log: Vec<Vec<u8>> = Vec::new();

    // deconstruct field-by-field: fork, send, and let the frame cross;
    // the consumer is not installed yet, so each frame is orphaned
    let mut i: usize = 0;
    while i < n
        invariant
            fields@.len() == n < 0x3fff_ffff_ffff_ffff,
            i <= n,
            forall|k: WireKind| reg.registered(k),
            a.wf(),
            b.wf(),
            !a.closed,
            !b.closed,
            !a.odd,
            b.odd,
            a.outbound@.len() == 0,
            b.outbound@.len() == 0,
            a.forks@.len() == 1,
            a.forks@[0].id == 0,
            a.has_fork(0),
            a.fork_at(0).id == 0,
            !a.fork_at(0).constructing,
            a.fork_at(0).construct_kind == WireKind::Agg,
            a.fork_at(0).deconstruct_kind == WireKind::Unit,
            a.fork_at(0).state is Open,
            a.fork_at(0).inbound@.len() == 0,
            a.orphans@.len() == 0,
            a.next_fork == (i + 1) as u64,
            b.forks@.len() == 1,
            b.forks@[0].id == 0,
            b.has_fork(0),
            b.fork_at(0).id == 0,
            b.fork_at(0).constructing,
            b.fork_at(0).construct_kind == WireKind::Agg,
            b.fork_at(0).deconstruct_kind == WireKind::Unit,
            b.fork_at(0).state is Open,
            b.fork_at(0).inbound@.len() == 0,
            b.next_fork == 0,
            b.orphans@.len() == i,
            forall|j: int|
                0 <= j < i ==> payloads_view(
                    #[trigger] b.orphan_frames((2 * j + 2) as u64),
                ) == seq![PayloadV::Prim(fields@[j]@)],
            forall|x: u64|
                #[trigger] b.has_orphan(x) ==> x % 2 == 0 && 2 <= x <= 2 * (i as int),
            refs@.len() == i,
            forall|j: int| 0 <= j < i ==> #[trigger] refs@[j] == ForkRef((2 * j + 2) as u64),
            log@.len() == i,
            forall|j: int|
                0 <= j < i ==> #[trigger] log@[j]@ == spec_encode_item(
                    ChannelItemV {
                        channel: (2 * j + 2) as u64,
                        data: PayloadV::Prim(fields@[j]@),
                    },
                ),
        decreases n - i,
    {
        let v = fields[i].duplicate();
        let tk = v.kind();
        // the fork is allocated before its reference is emitted
        let f = a.fork(tk, WireKind::Unit);
        proof {
            assert(f.0 == 2 * (i as u64) + 2);
        }
        a.send_on(f.0, Payload::Prim(v));
        a.release_fork(f.0);
        refs.push(f);

        let it = match a.next_outbound() {
            Some(it) => it,
            None => {
                proof {
                    assert(false);
                }
                return ((0, Vec::new()), Vec::new());
            }
        };
        let bytes = serialize_item(&it);
        proof {
            lemma_codec_round_trip(it@);
        }
        let d = match deserialize_item(&bytes, &reg) {
            Ok(d) => d,
            Err(_) => {
                proof {
                    assert(false);
                }
                return ((0, Vec::new()), Vec::new());
            }
        };
        proof {
            assert(!b.has_fork(f.0)) by {
                if b.has_fork(f.0) {
                    let j = b.fork_index(f.0);
                    assert(b.forks@[j].id == f.0);
                }
            }
            assert(!b.has_orphan(f.0)) by {
                if b.has_orphan(f.0) {
                    assert(f.0 <= 2 * (i as int));
                }
            }
        }
        match b.route(d) {
            Ok(_) => {}
            Err(_) => {
                proof {
                    assert(false);
                }
                return ((0, Vec::new()), Vec::new());
            }
        }
        log.push(bytes);
        proof {
            assert(payloads_view(b.orphan_frames(f.0)) =~= seq![PayloadV::Prim(
                fields@[i as int]@,
            )]);
            assert(a.has_fork(0));
            assert(a.forks@.len() == 1);
            assert(a.forks@[0].id == 0) by {
                let j = a.fork_index(0);
                assert(0 <= j < a.forks@.len() && a.forks@[j].id == 0);
            }
            assert(b.has_fork(0));
            assert(b.forks@.len() == 1);
            assert(b.forks@[0].id == 0) by {
                let j = b.fork_index(0);
                assert(0 <= j < b.forks@.len() && b.forks@[j].id == 0);
            }
        }
        i = i + 1;
    }

    // the aggregate frame: the variant and every field's reference
    let ghost b1 = b;
    a.send_on(0, Payload::Agg(Aggregate { variant, fields: refs }));
    let bytes_agg = pump_to_fork(&mut a, &mut b, &reg);
    log.push(bytes_agg);
    let ag = match b.recv_on(0) {
        Some(Payload::Agg(ag)) => ag,
        _ => {
            proof {
                assert(false);
            }
            return ((0, Vec::new()), Vec::new());
        }
    };
    proof {
        assert(ag@.fields =~= aggregate_refs(n as int));
        // routing the aggregate frame and delivering it touched no orphan
        assert(b.orphans == b1.orphans);
        assert forall|j: int| 0 <= j < n implies payloads_view(
            #[trigger] b.orphan_frames((2 * j + 2) as u64),
        ) == seq![PayloadV::Prim(fields@[j]@)] by {
            assert(payloads_view(b1.orphan_frames((2 * j + 2) as u64)) == seq![
                PayloadV::Prim(fields@[j]@),
            ]);
            assert(b.orphan_frames((2 * j + 2) as u64) == b1.orphan_frames(
                (2 * j + 2) as u64,
            ));
        }
        assert forall|x: u64| #[trigger] b.has_orphan(x) implies x % 2 == 0 && 2 <= x <= 2 * (
        n as int) by {
            assert(b.has_orphan(x) == b1.has_orphan(x));
        }
    }

    // construct: resolve each field's fork in declaration order
    let mut out: Vec<Prim> = Vec::new();
    let mut i2: usize = 0;
    while i2 < n
        invariant
            fields@.len() == n < 0x3fff_ffff_ffff_ffff,
            i2 <= n,
            forall|k: WireKind| reg.registered(k),
            b.wf(),
            !b.closed,
            b.odd,
            b.forks@.len() == 1,
            b.forks@[0].id == 0,
            b.has_fork(0),
            b.orphans@.len() == n - i2,
            ag.fields@.len() == n,
            forall|j: int|
                0 <= j < n ==> #[trigger] ag.fields@[j] == ForkRef((2 * j + 2) as u64),
            forall|j: int|
                i2 <= j < n ==> payloads_view(
                    #[trigger] b.orphan_frames((2 * j + 2) as u64),
                ) == seq![PayloadV::Prim(fields@[j]@)],
            forall|x: u64|
                #[trigger] b.has_orphan(x) ==> x % 2 == 0 && 2 * (i2 as int) + 2 <= x <= 2 * (
                n as int),
            out@.len() == i2,
            forall|j: int| 0 <= j < i2 ==> #[trigger] out@[j]@ == fields@[j]@,
        decreases n - i2,
    {
        let fr = ag.fields[i2];
        let tk = fields[i2].kind();
        proof {
            assert(fr == ForkRef((2 * (i2 as int) + 2) as u64));
            assert(!b.has_fork(fr.0)) by {
                if b.has_fork(fr.0) {
                    let j = b.fork_index(fr.0);
                    assert(b.forks@[j].id == fr.0);
                }
            }
            assert(payloads_view(b.orphan_frames(fr.0)) == seq![PayloadV::Prim(
                fields@[i2 as int]@,
            )]);
            assert(b.orphan_frames(fr.0).len() == 1);
            assert(payloads_view(b.orphan_frames(fr.0))[0] == b.orphan_frames(fr.0)[0]@);
            assert(payload_view_kind(b.orphan_frames(fr.0)[0]@) == tk);
        }
        let ghost bpre = b;
        match b.get_fork(fr, tk, WireKind::Unit) {
            Ok(_) => {}
            Err(_) => {
                proof {
                    assert(false);
                }
                return ((0, Vec::new()), Vec::new());
            }
        }
        let ghost bg = b;
        let q = match b.recv_on(fr.0) {
            Some(Payload::Prim(q)) => q,
            _ => {
                proof {
                    assert(false);
                }
                return ((0, Vec::new()), Vec::new());
            }
        };
        out.push(q);
        b.release_fork(fr.0);
        proof {
            assert(out@[i2 as int]@ == fields@[i2 as int]@);
            assert(b.has_fork(0));
            assert(b.forks@.len() == 1);
            assert(b.forks@[0].id == 0) by {
                let j = b.fork_index(0);
                assert(0 <= j < b.forks@.len() && b.forks@[j].id == 0);
            }
            assert(b.orphans == bg.orphans);
            assert(!b.has_orphan(fr.0)) by {
                assert(!bg.has_orphan(fr.0));
                assert(b.has_orphan(fr.0) == bg.has_orphan(fr.0));
            }
            assert forall|x: u64| #[trigger] b.has_orphan(x) implies x % 2 == 0 && 2 * (
                i2 as int) + 4 <= x <= 2 * (n as int) by {
                assert(b.has_orphan(x) == bg.has_orphan(x));
                assert(bg.has_orphan(x) ==> bpre.has_orphan(x));
                assert(x != fr.0);
            }
            assert forall|j: int| i2 + 1 <= j < n implies payloads_view(
                #[trigger] b.orphan_frames((2 * j + 2) as u64),
            ) == seq![PayloadV::Prim(fields@[j]@)] by {
                assert(payloads_view(bpre.orphan_frames((2 * j + 2) as u64)) == seq![
                    PayloadV::Prim(fields@[j]@),
                ]);
                assert(bg.orphan_frames((2 * j + 2) as u64) == bpre.orphan_frames(
                    (2 * j + 2) as u64,
                ));
                assert(b.orphan_frames((2 * j + 2) as u64) == bg.orphan_frames(
                    (2 * j + 2) as u64,
                ));
            }
        }
        i2 = i2 + 1;
    }

    ((ag.variant, out), log)
}

} // verus!
