//! The reflected-trait protocol: a remote proxy that turns method
//! invocations into correlated `Call` frames, and the host-side exchange
//! that validates each invocation, runs the method, and returns its result
//! through a fresh fork.

use vstd::prelude::*;

use crate::channel::IdChannel;
use crate::codec::spec_encode_item;
use crate::kind::pump_to_fork;
use crate::reflection::{
    iface_wf, spec_check_call, CallError, InterfaceDesc, MethodIndex, Receiver,
};
use crate::registry::Registry;
use crate::wire::{
    prims_view, prim_view_kind, Call, CallV, ChannelItemV, ForkRef, FResult, Payload, PayloadV,
    Prim, Response, ResponseV, ReturnItem, ReturnItemV, WireKind,
};

verus! {

/// The constructor-side proxy of a reflected interface: a counter for
/// response correlation ids, the FIFO queue of outgoing calls, and the map
/// from correlation id to the invoked method's return wire type.
pub struct Proxy {
    /// The next correlation id to allocate; correlation ids start at one.
    pub next_protocol: u64,
    /// Outgoing calls, in issue order.
    pub queue: Vec<Call>,
    /// Correlation ids awaiting a response, with the expected return type.
    pub pending: Vec<(u64, WireKind)>,
}

impl Proxy {
    /// The proxy's invariant: every pending id was allocated and no two
    /// pending entries share an id.
    pub open spec fn wf(&self) -> bool {
        &&& 1 <= self.next_protocol
        &&& forall|i: int|
            0 <= i < self.pending@.len() ==> 1 <= (#[trigger] self.pending@[i]).0
                < self.next_protocol
        &&& forall|i: int, j: int|
            0 <= i < j < self.pending@.len() ==> (#[trigger] self.pending@[i]).0
                != (#[trigger] self.pending@[j]).0
    }

    /// Whether a response with the given correlation id is awaited.
    pub open spec fn awaits(&self, protocol: u64) -> bool {
        exists|i: int| 0 <= i < self.pending@.len() && self.pending@[i].0 == protocol
    }

    /// A fresh proxy with nothing queued and nothing pending.
    pub fn new() -> (p: Proxy)
        ensures
            p.wf(),
            p.next_protocol == 1,
            p.queue@.len() == 0,
            p.pending@.len() == 0,
    {
        Proxy { next_protocol: 1, queue: Vec::new(), pending: Vec::new() }
    }

    /// Invokes a method: validates the invocation against the interface,
    /// allocates a fresh correlation id, queues the call, and records the
    /// correlation.  An invalid invocation fails with its dispatch error
    /// and changes nothing.
    pub fn invoke(
        &mut self,
        iface: &InterfaceDesc,
        method: MethodIndex,
        args: Vec<Prim>,
        held: Receiver,
    ) -> (r: Result<u64, CallError>)
        requires
            old(self).wf(),
            old(self).next_protocol < u64::MAX,
            iface_wf(iface@),
        ensures
            final(self).wf(),
            match r {
                Ok(pid) => {
                    &&& spec_check_call(iface@, method as u64, prims_view(args@), held) is Ok
                    &&& pid == old(self).next_protocol
                    &&& !old(self).awaits(pid)
                    &&& final(self).next_protocol == old(self).next_protocol + 1
                    &&& final(self).queue@.len() == old(self).queue@.len() + 1
                    &&& final(self).queue@.drop_last() == old(self).queue@
                    &&& final(self).queue@.last()@ == (CallV {
                        method: method as u64,
                        args: prims_view(args@),
                        protocol: pid,
                    })
                    &&& final(self).pending@ == old(self).pending@.push(
                        (pid, iface@.methods[method as int].types.output),
                    )
                    &&& final(self).awaits(pid)
                },
                Err(e) => {
                    &&& spec_check_call(iface@, method as u64, prims_view(args@), held)
                        == Err::<(), CallError>(e)
                    &&& *final(self) == *old(self)
                },
            },
    {
        let pid = self.next_protocol;
        let call = Call { method: method as u64, args, protocol: pid };
        match iface.check_call(&call, held) {
            Ok(_) => {}
            Err(e) => {
                return Err(e);
            }
        }
        let out = match iface.types(method) {
            Ok(t) => t.output,
            Err(_) => {
                proof {
                    assert(false);
                }
                return Err(CallError::OutOfRange(crate::reflection::OutOfRangeError { index: method }));
            }
        };
        proof {
            assert(!self.awaits(pid)) by {
                if self.awaits(pid) {
                    let i = choose|i: int|
                        0 <= i < self.pending@.len() && self.pending@[i].0 == pid;
                    assert(self.pending@[i].0 < self.next_protocol);
                }
            }
        }
        self.next_protocol = self.next_protocol + 1;
        self.queue.push(call);
        self.pending.push((pid, out));
        proof {
            assert(self.queue@.drop_last() =~= old(self).queue@);
            assert(self.pending@ =~= old(self).pending@.push((pid, out)));
            assert(self.awaits(pid)) by {
                assert(self.pending@[self.pending@.len() - 1].0 == pid);
            }
        }
        Ok(pid)
    }

    /// Takes the next outgoing call; calls leave in issue order.
    pub fn next_call(&mut self) -> (r: Option<Call>)
        requires
            old(self).wf(),
        ensures
            final(self).wf(),
            final(self).next_protocol == old(self).next_protocol,
            final(self).pending == old(self).pending,
            match r {
                Some(c) => {
                    &&& old(self).queue@.len() > 0
                    &&& c == old(self).queue@[0]
                    &&& final(self).queue@ == old(self).queue@.drop_first()
                },
                None => {
                    &&& old(self).queue@.len() == 0
                    &&& *final(self) == *old(self)
                },
            },
    {
        if self.queue.len() == 0 {
            return None;
        }
        Some(self.queue.remove(0))
    }

    /// Correlates one response to its awaiting invocation: yields the
    /// expected return wire type and forgets the correlation, or nothing if
    /// the id is not awaited.
    pub fn resolve(&mut self, resp: &Response) -> (r: Option<WireKind>)
        requires
            old(self).wf(),
        ensures
            final(self).wf(),
            final(self).next_protocol == old(self).next_protocol,
            final(self).queue == old(self).queue,
            match r {
                Some(k) => {
                    &&& old(self).awaits(resp.protocol)
                    &&& exists|i: int|
                        0 <= i < old(self).pending@.len() && old(self).pending@[i]
                            == (resp.protocol, k)
                    &&& !final(self).awaits(resp.protocol)
                    &&& final(self).pending@.len() == old(self).pending@.len() - 1
                },
                None => {
                    &&& !old(self).awaits(resp.protocol)
                    &&& *final(self) == *old(self)
                },
            },
    {
        let mut i: usize = 0;
        while i < self.pending.len()
            invariant
                *self == *old(self),
                self.wf(),
                i <= self.pending@.len(),
                forall|j: int| 0 <= j < i ==> (#[trigger] self.pending@[j]).0 != resp.protocol,
            decreases self.pending@.len() - i,
        {
            if self.pending[i].0 == resp.protocol {
                let entry = self.pending.remove(i);
                proof {
                    let pre = old(self).pending@;
                    let post = self.pending@;
                    let k = i as int;
                    assert(forall|j: int| 0 <= j < k ==> post[j] == pre[j]);
                    assert(forall|j: int| k <= j < post.len() ==> post[j] == pre[j + 1]);
                    assert(!self.awaits(resp.protocol)) by {
                        if self.awaits(resp.protocol) {
                            let j = choose|j: int|
                                0 <= j < post.len() && post[j].0 == resp.protocol;
                            if j < k {
                                assert(pre[j].0 == resp.protocol);
                            } else {
                                assert(pre[j + 1].0 == resp.protocol);
                            }
                        }
                    }
                }
                return Some(entry.1);
            }
            i = i + 1;
        }
        None
    }
}

/// Plays one complete method invocation between the two peers: the
/// passive peer sends the (possibly hand-crafted) call frame; the host
/// validates it against the interface and either answers with the dispatch
/// error, or runs the method — whose result the caller of this function
/// supplies — and answers through a fresh fork.  The invoker's future
/// resolves to the method's result exactly when the invocation was valid,
/// and to the dispatch error otherwise; the channel outlives either way.
#[verifier::rlimit(100)]
pub fn transport_call(iface: &InterfaceDesc, call: Call, held: Receiver, outcome: Prim) -> (r: (
    Result<Prim, CallError>,
    Vec<Vec<u8>>,
))
    requires
        iface_wf(iface@),
        spec_check_call(iface@, call.method, prims_view(call.args@), held) is Ok
            ==> prim_view_kind(outcome@) == iface@.methods[call.method as int].types.output,
    ensures
        match spec_check_call(iface@, call.method, prims_view(call.args@), held) {
            Ok(_) => r.0 matches Ok(p) && p@ == outcome@,
            Err(e) => r.0 == Err::<Prim, CallError>(e),
        },
        r.1@.len() >= 1,
        r.1@[0]@ == spec_encode_item(ChannelItemV { channel: 0, data: PayloadV::Call(call@) }),
        match spec_check_call(iface@, call.method, prims_view(call.args@), held) {
            Ok(_) => {
                &&& r.1@.len() == 3
                &&& r.1@[1]@ == spec_encode_item(
                    ChannelItemV {
                        channel: 0,
                        data: PayloadV::Resp(
                            ResponseV {
                                method: call.method,
                                protocol: call.protocol,
                                item: ReturnItemV::Res(FResult::Value(ForkRef(2))),
                            },
                        ),
                    },
                )
                &&& r.1@[2]@ == spec_encode_item(
                    ChannelItemV { channel: 2, data: PayloadV::Prim(outcome@) },
                )
            },
            Err(e) => {
                &&& r.1@.len() == 2
                &&& r.1@[1]@ == spec_encode_item(
                    ChannelItemV {
                        channel: 0,
                        data: PayloadV::Resp(
                            ResponseV {
                                method: call.method,
                                protocol: call.protocol,
                                item: ReturnItemV::Error(e),
                            },
                        ),
                    },
                )
            },
        },
{
    let reg = Registry::standard();

    // active peer: hosts the implementation behind the root fork
    let mut a = IdChannel::new(false);
    let root = a.fork(WireKind::Resp, WireKind::Call);
    // passive peer: the proxy's side
    let mut b = IdChannel::new(true);
    match b.get_fork(ForkRef(0), WireKind::Resp, WireKind::Call) {
        Ok(_) => {}
        Err(_) => {
            proof {
                assert(false);
            }
            return (Err(CallError::Type(0)), Vec::new());
        }
    }

    let mut log: Vec<Vec<u8>> = Vec::new();

    // the invocation frame crosses to the host
    b.send_on(0, Payload::Call(call));
    let bytes0 = pump_to_fork(&mut b, &mut a, &reg);
    let c = match a.recv_on(0) {
        Some(Payload::Call(c)) => c,
        _ => {
            proof {
                assert(false);
            }
            return (Err(CallError::Type(0)), Vec::new());
        }
    };
    log.push(bytes0);

    // the host shim validates before dispatching
    match iface.check_call(&c, held) {
        Err(e) => {
            // answer with the dispatch error; the channel stays live
            a.send_on(
                0,
                Payload::Resp(
                    Response { method: c.method, protocol: c.protocol, item: ReturnItem::Error(e) },
                ),
            );
            let bytes1 = pump_to_fork(&mut a, &mut b, &reg);
            let e2 = match b.recv_on(0) {
                Some(Payload::Resp(resp)) => match resp.item {
                    ReturnItem::Error(e2) => e2,
                    _ => {
                        proof {
                            assert(false);
                        }
                        return (Err(CallError::Type(0)), Vec::new());
                    }
                },
                _ => {
                    proof {
                        assert(false);
                    }
                    return (Err(CallError::Type(0)), Vec::new());
                }
            };
            log.push(bytes1);
            (Err(e2), log)
        }
        Ok(_) => {
            // run the method (its result is handed in by the caller) and
            // return it through a fresh fork of the return kind
            let tk = outcome.kind();
            let t = a.fork(tk, WireKind::Unit);
            proof {
                assert(t.0 == 2);
            }
            a.send_on(
                0,
                Payload::Resp(
                    Response {
                        method: c.method,
                        protocol: c.protocol,
                        item: ReturnItem::Res(FResult::Value(t)),
                    },
                ),
            );
            a.send_on(2, Payload::Prim(outcome));

            let bytes1 = pump_to_fork(&mut a, &mut b, &reg);
            let fr = match b.recv_on(0) {
                Some(Payload::Resp(resp)) => match resp.item {
                    ReturnItem::Res(FResult::Value(fr)) => fr,
                    _ => {
                        proof {
                            assert(false);
                        }
                        return (Err(CallError::Type(0)), Vec::new());
                    }
                },
                _ => {
                    proof {
                        assert(false);
                    }
                    return (Err(CallError::Type(0)), Vec::new());
                }
            };
            proof {
                assert(fr == t);
                assert(!b.has_fork(2)) by {
                    if b.has_fork(2) {
                        let j = b.fork_index(2);
                        assert(b.forks@[j].id == 2);
                    }
                }
                assert(!b.has_orphan(2));
                assert(b.orphan_frames(2) =~= Seq::<Payload>::empty());
            }
            match b.get_fork(fr, tk, WireKind::Unit) {
                Ok(_) => {}
                Err(_) => {
                    proof {
                        assert(false);
                    }
                    return (Err(CallError::Type(0)), Vec::new());
                }
            }

            let bytes2 = pump_to_fork(&mut a, &mut b, &reg);
            let q = match b.recv_on(2) {
                Some(Payload::Prim(q)) => q,
                _ => {
                    proof {
                        assert(false);
                    }
                    return (Err(CallError::Type(0)), Vec::new());
                }
            };
            log.push(bytes1);
            log.push(bytes2);
            (Ok(q), log)
        }
    }
}

} // verus!
