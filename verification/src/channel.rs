//! The `IdChannel` multiplexer: one bidirectional transport carrying an
//! unbounded number of logical sub-channels ("forks"), each typed by a
//! registered kind.
//!
//! The channel owns the fork table, allocates fresh fork ids monotonically,
//! routes inbound frames to the matching fork's queue in arrival order, and
//! buffers frames for forks whose consumer is not yet installed in an orphan
//! table that installation drains.  The two peers allocate from disjoint id
//! spaces: the active peer (the one that created the root fork) uses even
//! ids, the passive peer odd ids.

use vstd::prelude::*;

use crate::wire::{ChannelItem, ForkRef, Payload, PayloadV, payload_view_kind, WireKind};

verus! {

/// The lifecycle state of a fork.
#[derive(Clone, Copy, Debug, PartialEq, Eq, Structural)]
pub enum ForkState {
    Open,
    HalfClosed,
    Closed,
}

/// The sequence of views of a sequence of payloads.
pub open spec fn payloads_view(s: Seq<Payload>) -> Seq<PayloadV> {
    s.map_values(|p: Payload| p@)
}

/// One fork record: the sub-channel's recorded wire types, its pending
/// inbound frames, and its delivery history.
pub struct IdChannelFork {
    /// The fork's id, unique within the channel.
    pub id: u64,
    /// The wire type flowing from the value's host toward its consumer.
    pub construct_kind: WireKind,
    /// The wire type flowing back from the consumer to the host.
    pub deconstruct_kind: WireKind,
    /// Whether the local peer is the consumer of this fork's value.
    pub constructing: bool,
    /// Frames routed to this fork and not yet handed to its consumer.
    pub inbound: Vec<Payload>,
    /// The fork's lifecycle state.
    pub state: ForkState,
    /// Every frame ever routed to this fork, in arrival order.
    pub routed: Ghost<Seq<PayloadV>>,
    /// Every frame handed to the consumer, in delivery order.
    pub delivered: Ghost<Seq<PayloadV>>,
}

impl IdChannelFork {
    /// The wire type this peer expects on inbound frames of the fork.
    pub open spec fn recv_kind(&self) -> WireKind {
        if self.constructing {
            self.construct_kind
        } else {
            self.deconstruct_kind
        }
    }

    /// The wire type this peer sends on outbound frames of the fork.
    pub open spec fn send_kind(&self) -> WireKind {
        if self.constructing {
            self.deconstruct_kind
        } else {
            self.construct_kind
        }
    }

    /// The fork's bookkeeping invariant: what was routed is exactly what was
    /// delivered followed by what is still pending, and every routed frame
    /// bears the fork's inbound wire type.
    pub open spec fn wf(&self) -> bool {
        &&& self.routed@ == self.delivered@ + payloads_view(self.inbound@)
        &&& forall|j: int|
            0 <= j < self.routed@.len() ==> payload_view_kind(#[trigger] self.routed@[j])
                == self.recv_kind()
    }
}

/// Frames that arrived for a fork id before a consumer was installed.
pub struct OrphanRecord {
    pub id: u64,
    pub frames: Vec<Payload>,
}

/// Whether a fork record with the given id exists in the table.
pub open spec fn seq_has_fork(s: Seq<IdChannelFork>, id: u64) -> bool {
    exists|i: int| 0 <= i < s.len() && s[i].id == id
}

/// The index of the fork record with the given id.
pub open spec fn seq_fork_index(s: Seq<IdChannelFork>, id: u64) -> int {
    choose|i: int| 0 <= i < s.len() && s[i].id == id
}

/// Updating one record of a fork table with unique ids, keeping its id,
/// leaves every lookup in place.
proof fn lemma_fork_update(pre: Seq<IdChannelFork>, post: Seq<IdChannelFork>, i: int)
    requires
        0 <= i < pre.len(),
        post.len() == pre.len(),
        post[i].id == pre[i].id,
        forall|j: int| 0 <= j < pre.len() && j != i ==> post[j] == pre[j],
        forall|p: int, q: int|
            0 <= p < q < pre.len() ==> (#[trigger] pre[p]).id != (#[trigger] pre[q]).id,
    ensures
        forall|p: int, q: int|
            0 <= p < q < post.len() ==> (#[trigger] post[p]).id != (#[trigger] post[q]).id,
        forall|x: u64| seq_has_fork(post, x) == seq_has_fork(pre, x),
        seq_fork_index(pre, pre[i].id) == i,
        seq_fork_index(post, pre[i].id) == i,
        forall|x: u64|
            x != pre[i].id && seq_has_fork(pre, x) ==> seq_fork_index(post, x)
                == seq_fork_index(pre, x) && post[seq_fork_index(post, x)]
                == pre[seq_fork_index(pre, x)],
{
    assert(forall|j: int| 0 <= j < post.len() ==> (#[trigger] post[j]).id == pre[j].id);
    assert forall|x: u64| seq_has_fork(post, x) == seq_has_fork(pre, x) by {
        if seq_has_fork(pre, x) {
            let j = seq_fork_index(pre, x);
            assert(post[j].id == x);
            assert(seq_has_fork(post, x));
        }
        if seq_has_fork(post, x) {
            let j = seq_fork_index(post, x);
            assert(pre[j].id == x);
            assert(seq_has_fork(pre, x));
        }
    }
    assert(seq_fork_index(pre, pre[i].id) == i) by {
        assert(seq_has_fork(pre, pre[i].id));
        let j = seq_fork_index(pre, pre[i].id);
        if j != i {
            assert(pre[j].id == pre[i].id);
        }
    }
    assert(seq_fork_index(post, pre[i].id) == i) by {
        assert(post[i].id == pre[i].id);
        assert(seq_has_fork(post, pre[i].id));
        let j = seq_fork_index(post, pre[i].id);
        if j != i {
            assert(post[j].id == post[i].id);
        }
    }
    assert forall|x: u64| x != pre[i].id && seq_has_fork(pre, x) implies seq_fork_index(
        post,
        x,
    ) == seq_fork_index(pre, x) && post[seq_fork_index(post, x)] == pre[seq_fork_index(
        pre,
        x,
    )] by {
        let j = seq_fork_index(pre, x);
        assert(pre[j].id == x);
        assert(j != i);
        assert(post[j].id == x);
        assert(seq_has_fork(post, x));
        let j2 = seq_fork_index(post, x);
        assert(post[j2].id == x);
        if j2 != j {
            assert(post[j2].id == post[j].id);
        }
    }
}

/// Whether an orphan record with the given id exists in the table.
pub open spec fn seq_has_orphan(s: Seq<OrphanRecord>, id: u64) -> bool {
    exists|i: int| 0 <= i < s.len() && s[i].id == id
}

/// The index of the orphan record with the given id.
pub open spec fn seq_orphan_index(s: Seq<OrphanRecord>, id: u64) -> int {
    choose|i: int| 0 <= i < s.len() && s[i].id == id
}

/// The frames buffered for the given id, in arrival order.
pub open spec fn seq_orphan_frames(s: Seq<OrphanRecord>, id: u64) -> Seq<Payload> {
    if seq_has_orphan(s, id) {
        s[seq_orphan_index(s, id)].frames@
    } else {
        Seq::empty()
    }
}

/// Removing one record from an orphan table with unique ids drops its id
/// from the table and leaves every other lookup unchanged.
proof fn lemma_orphan_remove(s: Seq<OrphanRecord>, k: int)
    requires
        0 <= k < s.len(),
        forall|i: int, j: int|
            0 <= i < j < s.len() ==> (#[trigger] s[i]).id != (#[trigger] s[j]).id,
    ensures
        !seq_has_orphan(s.remove(k), s[k].id),
        forall|x: u64|
            x != s[k].id ==> seq_has_orphan(s.remove(k), x) == seq_has_orphan(s, x),
        forall|x: u64|
            x != s[k].id ==> #[trigger] seq_orphan_frames(s.remove(k), x) == seq_orphan_frames(
                s,
                x,
            ),
{
    let t = s.remove(k);
    assert(t.len() == s.len() - 1);
    assert(forall|j: int| 0 <= j < k ==> t[j] == s[j]);
    assert(forall|j: int| k <= j < t.len() ==> t[j] == s[j + 1]);
    assert(!seq_has_orphan(t, s[k].id)) by {
        if seq_has_orphan(t, s[k].id) {
            let j = seq_orphan_index(t, s[k].id);
            if j < k {
                assert(s[j].id == s[k].id);
            } else {
                assert(s[j + 1].id == s[k].id);
            }
        }
    }
    assert forall|x: u64| x != s[k].id implies seq_has_orphan(t, x) == seq_has_orphan(s, x) by {
        if seq_has_orphan(s, x) {
            let j = seq_orphan_index(s, x);
            assert(s[j].id == x);
            if j < k {
                assert(t[j].id == x);
            } else {
                assert(j != k);
                assert(t[j - 1].id == x);
            }
            assert(seq_has_orphan(t, x));
        } else {
            if seq_has_orphan(t, x) {
                let j = seq_orphan_index(t, x);
                if j < k {
                    assert(s[j].id == x);
                } else {
                    assert(s[j + 1].id == x);
                }
            }
        }
    }
    assert forall|x: u64| x != s[k].id implies #[trigger] seq_orphan_frames(t, x)
        == seq_orphan_frames(s, x) by {
        if seq_has_orphan(s, x) {
            let j = seq_orphan_index(s, x);
            assert(s[j].id == x);
            if j < k {
                assert(t[j].id == x);
            } else {
                assert(t[j - 1].id == x);
            }
            assert(seq_has_orphan(t, x));
            let j2 = seq_orphan_index(t, x);
            assert(t[j2].id == x);
            if j2 < k {
                assert(s[j2].id == x);
                assert(s[j2] == t[j2]);
                if j2 != j {
                    assert(s[j2].id == s[j].id);
                }
                assert(t[j2].frames@ == s[j].frames@);
            } else {
                assert(s[j2 + 1].id == x);
                assert(s[j2 + 1] == t[j2]);
                if j2 + 1 != j {
                    assert(s[j2 + 1].id == s[j].id);
                }
                assert(t[j2].frames@ == s[j].frames@);
            }
        }
    }
}

/// Why a frame could not be routed.
#[derive(Clone, Copy, Debug, PartialEq, Eq, Structural)]
pub enum RouteError {
    /// The whole channel was torn down.
    ChannelClosed,
    /// The frame names a fork that is already closed.
    ClosedFork,
    /// The frame names a locally-owned fork that was never allocated.
    UnknownFork,
    /// The payload's kind is not the fork's recorded inbound type.
    KindMismatch,
}

/// Why a consumer could not be installed.
#[derive(Clone, Copy, Debug, PartialEq, Eq, Structural)]
pub enum ChannelError {
    /// A consumer for this fork already exists, or the fork is locally owned.
    DuplicateFork,
    /// The fork reference is not resolvable inside this channel.
    UnknownFork,
    /// A buffered frame does not bear the fork's recorded inbound type.
    KindMismatch,
}

/// The multiplexer: fork table, orphan table, allocator and outbound queue.
pub struct IdChannel {
    /// The live fork records.
    pub forks: Vec<IdChannelFork>,
    /// Buffered frames for forks without an installed consumer.
    pub orphans: Vec<OrphanRecord>,
    /// How many forks this peer has allocated.
    pub next_fork: u64,
    /// Whether this peer allocates odd ids (the passive peer).
    pub odd: bool,
    /// Outbound frames awaiting the transport.
    pub outbound: Vec<ChannelItem>,
    /// Whether the transport was torn down.
    pub closed: bool,
    /// Every fork id this peer allocated, in allocation order.
    pub allocated: Ghost<Seq<u64>>,
}

impl IdChannel {
    /// This peer's allocation parity: even for the active peer, odd for the
    /// passive one.
    pub open spec fn parity(&self) -> u64 {
        if self.odd {
            1
        } else {
            0
        }
    }

    /// Whether a fork record with the given id exists.
    pub open spec fn has_fork(&self, id: u64) -> bool {
        seq_has_fork(self.forks@, id)
    }

    /// The index of the fork record with the given id.
    pub open spec fn fork_index(&self, id: u64) -> int {
        seq_fork_index(self.forks@, id)
    }

    /// The fork record with the given id.
    pub open spec fn fork_at(&self, id: u64) -> IdChannelFork {
        self.forks@[self.fork_index(id)]
    }

    /// Whether an orphan record with the given id exists.
    pub open spec fn has_orphan(&self, id: u64) -> bool {
        seq_has_orphan(self.orphans@, id)
    }

    /// The index of the orphan record with the given id.
    pub open spec fn orphan_index(&self, id: u64) -> int {
        seq_orphan_index(self.orphans@, id)
    }

    /// The frames buffered for a fork id without a consumer, in arrival
    /// order.
    pub open spec fn orphan_frames(&self, id: u64) -> Seq<Payload> {
        seq_orphan_frames(self.orphans@, id)
    }

    /// The channel's invariant.
    pub open spec fn wf(&self) -> bool {
        // the allocator has room for one more id
        &&& self.next_fork <= 0x4000_0000_0000_0000u64
        // the allocation history is exactly the arithmetic progression of
        // this peer's parity class
        &&& self.allocated@.len() == self.next_fork
        &&& forall|k: int|
            0 <= k < self.allocated@.len() ==> #[trigger] self.allocated@[k] == 2 * k
                + self.parity()
        // fork ids are unique
        &&& forall|i: int, j: int|
            0 <= i < j < self.forks@.len() ==> (#[trigger] self.forks@[i]).id
                != (#[trigger] self.forks@[j]).id
        // orphan ids are unique and never shadow a fork record
        &&& forall|i: int, j: int|
            0 <= i < j < self.orphans@.len() ==> (#[trigger] self.orphans@[i]).id
                != (#[trigger] self.orphans@[j]).id
        &&& forall|i: int, j: int|
            0 <= i < self.orphans@.len() && 0 <= j < self.forks@.len()
                ==> (#[trigger] self.orphans@[i]).id != (#[trigger] self.forks@[j]).id
        // orphans belong to the peer's id space
        &&& forall|i: int|
            0 <= i < self.orphans@.len() ==> (#[trigger] self.orphans@[i]).id % 2 != self.parity()
        // every locally-owned fork id was allocated by the counter
        &&& forall|i: int|
            0 <= i < self.forks@.len() && (#[trigger] self.forks@[i]).id % 2 == self.parity()
                ==> self.forks@[i].id < 2 * self.next_fork + self.parity()
        // every fork record keeps its own bookkeeping
        &&& forall|i: int| 0 <= i < self.forks@.len() ==> (#[trigger] self.forks@[i]).wf()
    }

    /// A fresh channel with no forks.  The active peer passes `odd == false`
    /// and allocates even ids; the passive peer passes `odd == true`.
    pub fn new(odd: bool) -> (c: IdChannel)
        ensures
            c.wf(),
            c.odd == odd,
            !c.closed,
            c.forks@.len() == 0,
            c.orphans@.len() == 0,
            c.outbound@.len() == 0,
            c.allocated@.len() == 0,
    {
        IdChannel {
            forks: Vec::new(),
            orphans: Vec::new(),
            next_fork: 0,
            odd,
            outbound: Vec::new(),
            closed: false,
            allocated: Ghost(Seq::empty()),
        }
    }

    /// Allocates a fresh fork for a value this peer will deconstruct,
    /// recording its wire types.  The new id extends the allocation history
    /// and collides with nothing in the fork table.
    pub fn fork(&mut self, construct_kind: WireKind, deconstruct_kind: WireKind) -> (r: ForkRef)
        requires
            old(self).wf(),
            !old(self).closed,
            old(self).next_fork < 0x4000_0000_0000_0000u64,
        ensures
            final(self).wf(),
            r.0 == 2 * old(self).next_fork + old(self).parity(),
            !old(self).has_fork(r.0),
            final(self).has_fork(r.0),
            final(self).allocated@ == old(self).allocated@.push(r.0),
            final(self).forks@.len() == old(self).forks@.len() + 1,
            final(self).forks@.drop_last() == old(self).forks@,
            final(self).fork_at(r.0) == final(self).forks@.last(),
            final(self).forks@.last().id == r.0,
            final(self).forks@.last().construct_kind == construct_kind,
            final(self).forks@.last().deconstruct_kind == deconstruct_kind,
            !final(self).forks@.last().constructing,
            final(self).forks@.last().inbound@.len() == 0,
            final(self).forks@.last().state is Open,
            final(self).forks@.last().routed@.len() == 0,
            final(self).forks@.last().delivered@.len() == 0,
            final(self).orphans == old(self).orphans,
            final(self).outbound == old(self).outbound,
            final(self).closed == old(self).closed,
            final(self).odd == old(self).odd,
            final(self).next_fork == old(self).next_fork + 1,
            forall|x: u64| #[trigger] final(self).has_orphan(x) == old(self).has_orphan(x),
            forall|x: u64|
                x != r.0 ==> #[trigger] final(self).has_fork(x) == old(self).has_fork(x),
            forall|x: u64|
                x != r.0 && old(self).has_fork(x) ==> #[trigger] final(self).fork_at(x) == old(
                    self,
                ).fork_at(x),
    {
        let id: u64 = 2 * self.next_fork + if self.odd {
            1u64
        } else {
            0u64
        };
        let record = IdChannelFork {
            id,
            construct_kind,
            deconstruct_kind,
            constructing: false,
            inbound: Vec::new(),
            state: ForkState::Open,
            routed: Ghost(Seq::empty()),
            delivered: Ghost(Seq::empty()),
        };
        proof {
            // the fresh id collides with no recorded fork: ids of this
            // peer's parity stay below the counter, ids of the other parity
            // differ in their low bit
            assert(id % 2 == self.parity() && id == 2 * self.next_fork + self.parity())
                by (nonlinear_arith)
                requires
                    id == 2 * self.next_fork + (if self.odd { 1u64 } else { 0u64 }),
                    self.parity() == (if self.odd { 1u64 } else { 0u64 }),
                    self.next_fork < 0x4000_0000_0000_0000u64,
            ;
            assert forall|i: int| 0 <= i < self.forks@.len()
                implies (#[trigger] self.forks@[i]).id != id by {
                if self.forks@[i].id % 2 == self.parity() {
                    assert(self.forks@[i].id < 2 * self.next_fork + self.parity());
                }
            }
        }
        let ghost history = self.allocated@.push(id);
        self.forks.push(record);
        self.next_fork = self.next_fork + 1;
        self.allocated = Ghost(history);
        proof {
            let n = self.forks@.len() as int;
            assert(self.forks@.drop_last() =~= old(self).forks@);
            assert(self.forks@[n - 1].id == id);
            assert(self.has_fork(id));
            assert(self.fork_index(id) == n - 1) by {
                let i = self.fork_index(id);
                if i < n - 1 {
                    assert(old(self).forks@[i].id == id);
                    assert(old(self).has_fork(id));
                }
            }
            assert forall|k: int| 0 <= k < self.allocated@.len()
                implies #[trigger] self.allocated@[k] == 2 * k + self.parity() by {
                if k < old(self).allocated@.len() {
                    assert(old(self).allocated@[k] == 2 * k + self.parity());
                }
            }
            assert(self.forks@[n - 1].wf()) by {
                assert(self.forks@[n - 1].routed@ =~= self.forks@[n - 1].delivered@
                    + payloads_view(self.forks@[n - 1].inbound@));
            }
            assert forall|x: u64| x != id implies self.has_fork(x) == old(self).has_fork(x) by {
                if old(self).has_fork(x) {
                    let j = old(self).fork_index(x);
                    assert(self.forks@[j].id == x);
                    assert(self.has_fork(x));
                }
                if self.has_fork(x) {
                    let j = self.fork_index(x);
                    if j < n - 1 {
                        assert(old(self).forks@[j].id == x);
                        assert(old(self).has_fork(x));
                    }
                }
            }
            assert forall|x: u64| x != id && old(self).has_fork(x) implies self.fork_at(x)
                == old(self).fork_at(x) by {
                let j = old(self).fork_index(x);
                assert(old(self).forks@[j].id == x);
                assert(self.forks@[j].id == x);
                assert(self.has_fork(x));
                let j2 = self.fork_index(x);
                assert(self.forks@[j2].id == x);
                if j2 < n - 1 {
                    assert(old(self).forks@[j2].id == x);
                    if j2 != j {
                        assert(old(self).forks@[j2].id == old(self).forks@[j].id);
                    }
                }
            }
        }
        ForkRef(id)
    }

    /// Creates the active peer's channel around a root value of the given
    /// wire types: fork 0 is allocated and recorded for it, and the value's
    /// deconstruct task writes to that fork.
    pub fn new_with(construct_kind: WireKind, deconstruct_kind: WireKind) -> (c: IdChannel)
        ensures
            c.wf(),
            !c.odd,
            !c.closed,
            c.forks@.len() == 1,
            c.has_fork(0),
            c.fork_at(0).id == 0,
            c.fork_at(0).construct_kind == construct_kind,
            c.fork_at(0).deconstruct_kind == deconstruct_kind,
            !c.fork_at(0).constructing,
            c.fork_at(0).state is Open,
            c.fork_at(0).inbound@.len() == 0,
            c.fork_at(0).routed@.len() == 0,
            c.fork_at(0).delivered@.len() == 0,
            c.orphans@.len() == 0,
            c.outbound@.len() == 0,
            c.next_fork == 1,
            c.allocated@ == seq![0u64],
    {
        let mut c = IdChannel::new(false);
        let root = c.fork(construct_kind, deconstruct_kind);
        proof {
            assert(root.0 == 0);
            assert(c.allocated@ =~= seq![0u64]);
        }
        c
    }

    /// Declares the root kind on the passive peer and installs its
    /// consumer: the counterpart of [`IdChannel::new_with`] on the other
    /// side of the transport.  Frames that arrived for the root fork
    /// beforehand become pending delivery, in order.
    pub fn value(&mut self, construct_kind: WireKind, deconstruct_kind: WireKind) -> (r: Result<
        (),
        ChannelError,
    >)
        requires
            old(self).wf(),
            !old(self).closed,
        ensures
            final(self).wf(),
            old(self).same_admin(final(self)),
            final(self).outbound == old(self).outbound,
            match r {
                Ok(_) => {
                    &&& !old(self).has_fork(0)
                    &&& old(self).odd
                    &&& final(self).forks@.len() == old(self).forks@.len() + 1
                    &&& final(self).forks@.drop_last() == old(self).forks@
                    &&& final(self).has_fork(0)
                    &&& final(self).fork_at(0).id == 0
                    &&& final(self).fork_at(0).construct_kind == construct_kind
                    &&& final(self).fork_at(0).deconstruct_kind == deconstruct_kind
                    &&& final(self).fork_at(0).constructing
                    &&& final(self).fork_at(0).state is Open
                    &&& final(self).fork_at(0).inbound@ == old(self).orphan_frames(0)
                    &&& final(self).fork_at(0).routed@ == payloads_view(
                        old(self).orphan_frames(0),
                    )
                    &&& final(self).fork_at(0).delivered@.len() == 0
                    &&& !final(self).has_orphan(0)
                    &&& final(self).orphans@.len() == old(self).orphans@.len() - (
                    if old(self).has_orphan(0) {
                        1int
                    } else {
                        0int
                    })
                    &&& forall|x: u64|
                        #[trigger] final(self).has_orphan(x) ==> old(self).has_orphan(x)
                    &&& forall|x: u64|
                        x != 0 ==> final(self).orphan_frames(x) == old(self).orphan_frames(x)
                    &&& forall|x: u64|
                        x != 0 ==> final(self).has_fork(x) == old(self).has_fork(x)
                    &&& forall|x: u64|
                        x != 0 && old(self).has_fork(x) ==> final(self).fork_at(x) == old(
                            self,
                        ).fork_at(x)
                },
                Err(e) => {
                    &&& *final(self) == *old(self)
                    &&& (e == ChannelError::DuplicateFork <==> old(self).has_fork(0))
                    &&& e == ChannelError::UnknownFork ==> !old(self).has_fork(0) && 0
                        == old(self).parity()
                    &&& e == ChannelError::KindMismatch ==> exists|j: int|
                        0 <= j < old(self).orphan_frames(0).len() && payload_view_kind(
                            #[trigger] old(self).orphan_frames(0)[j]@,
                        ) != construct_kind
                },
            },
    {
        self.get_fork(ForkRef(0), construct_kind, deconstruct_kind)
    }

    /// Finds the index of the fork record with the given id.
    fn find_fork(&self, id: u64) -> (r: Option<usize>)
        requires
            self.wf(),
        ensures
            match r {
                Some(i) => {
                    &&& i < self.forks@.len()
                    &&& self.forks@[i as int].id == id
                    &&& self.has_fork(id)
                    &&& self.fork_index(id) == i
                },
                None => !self.has_fork(id),
            },
    {
        let mut i: usize = 0;
        while i < self.forks.len()
            invariant
                self.wf(),
                i <= self.forks@.len(),
                forall|j: int| 0 <= j < i ==> (#[trigger] self.forks@[j]).id != id,
            decreases self.forks@.len() - i,
        {
            if self.forks[i].id == id {
                proof {
                    assert(self.has_fork(id));
                    let j = self.fork_index(id);
                    if j != i {
                        assert(self.forks@[j].id == id);
                    }
                }
                return Some(i);
            }
            i = i + 1;
        }
        None
    }

    /// Finds the index of the orphan record with the given id.
    fn find_orphan(&self, id: u64) -> (r: Option<usize>)
        requires
            self.wf(),
        ensures
            match r {
                Some(i) => {
                    &&& i < self.orphans@.len()
                    &&& self.orphans@[i as int].id == id
                    &&& self.has_orphan(id)
                    &&& self.orphan_index(id) == i
                },
                None => !self.has_orphan(id),
            },
    {
        let mut i: usize = 0;
        while i < self.orphans.len()
            invariant
                self.wf(),
                i <= self.orphans@.len(),
                forall|j: int| 0 <= j < i ==> (#[trigger] self.orphans@[j]).id != id,
            decreases self.orphans@.len() - i,
        {
            if self.orphans[i].id == id {
                proof {
                    assert(self.has_orphan(id));
                    let j = self.orphan_index(id);
                    if j != i {
                        assert(self.orphans@[j].id == id);
                    }
                }
                return Some(i);
            }
            i = i + 1;
        }
        None
    }

    /// The parts of the channel that routing and delivery never touch.
    pub open spec fn same_admin(&self, other: &IdChannel) -> bool {
        &&& other.odd == self.odd
        &&& other.closed == self.closed
        &&& other.next_fork == self.next_fork
        &&& other.allocated == self.allocated
    }

    /// The fork table of `other` matches this one except at `id`: same
    /// length, same ids, and every record with a different id unchanged.
    pub open spec fn forks_unchanged_except(&self, other: &IdChannel, id: u64) -> bool {
        &&& other.forks@.len() == self.forks@.len()
        &&& forall|j: int|
            0 <= j < self.forks@.len() ==> (#[trigger] other.forks@[j]).id == self.forks@[j].id
        &&& forall|j: int|
            0 <= j < self.forks@.len() && self.forks@[j].id != id
                ==> #[trigger] other.forks@[j] == self.forks@[j]
    }

    /// Demultiplexes one inbound frame.
    ///
    /// A frame for a recorded open fork of the right wire type is appended
    /// to that fork's queue, in arrival order.  A frame for a fork this peer
    /// has not recorded but the peer owns is buffered in the orphan table.
    /// Everything else is a routing error, and the channel is unchanged.
    pub fn route(&mut self, item: ChannelItem) -> (r: Result<(), RouteError>)
        requires
            old(self).wf(),
        ensures
            final(self).wf(),
            old(self).same_admin(final(self)),
            final(self).outbound == old(self).outbound,
            match r {
                Ok(_) => {
                    &&& !old(self).closed
                    &&& if old(self).has_fork(item.0) {
                        // routed to the fork's queue
                        &&& old(self).fork_at(item.0).state is Open
                        &&& payload_view_kind(item.1@) == old(self).fork_at(item.0).recv_kind()
                        &&& old(self).forks_unchanged_except(final(self), item.0)
                        &&& final(self).orphans == old(self).orphans
                        &&& forall|x: u64|
                            #[trigger] final(self).has_fork(x) == old(self).has_fork(x)
                        &&& forall|x: u64|
                            #[trigger] final(self).has_orphan(x) == old(self).has_orphan(x)
                        &&& forall|x: u64|
                            x != item.0 && old(self).has_fork(x)
                                ==> #[trigger] final(self).fork_at(x) == old(self).fork_at(x)
                        &&& final(self).has_fork(item.0)
                        &&& final(self).fork_at(item.0).id == old(self).fork_at(item.0).id
                        &&& final(self).fork_at(item.0).construct_kind == old(self).fork_at(
                            item.0,
                        ).construct_kind
                        &&& final(self).fork_at(item.0).deconstruct_kind == old(self).fork_at(
                            item.0,
                        ).deconstruct_kind
                        &&& final(self).fork_at(item.0).constructing == old(self).fork_at(
                            item.0,
                        ).constructing
                        &&& final(self).fork_at(item.0).state == old(self).fork_at(item.0).state
                        &&& final(self).fork_at(item.0).inbound@ == old(self).fork_at(
                            item.0,
                        ).inbound@.push(item.1)
                        &&& final(self).fork_at(item.0).routed@ == old(self).fork_at(
                            item.0,
                        ).routed@.push(item.1@)
                        &&& final(self).fork_at(item.0).delivered@ == old(self).fork_at(
                            item.0,
                        ).delivered@
                    } else {
                        // buffered as an orphan
                        &&& item.0 % 2 != old(self).parity()
                        &&& final(self).forks == old(self).forks
                        &&& forall|x: u64|
                            #[trigger] final(self).has_fork(x) == old(self).has_fork(x)
                        &&& forall|x: u64|
                            old(self).has_fork(x) ==> #[trigger] final(self).fork_at(x) == old(
                                self,
                            ).fork_at(x)
                        &&& forall|x: u64|
                            x != item.0 ==> #[trigger] final(self).has_orphan(x) == old(
                                self,
                            ).has_orphan(x)
                        &&& final(self).orphans@.len() == old(self).orphans@.len() + (
                        if old(self).has_orphan(item.0) {
                            0int
                        } else {
                            1int
                        })
                        &&& final(self).has_orphan(item.0)
                        &&& final(self).orphan_frames(item.0) == old(self).orphan_frames(
                            item.0,
                        ).push(item.1)
                        &&& forall|x: u64|
                            x != item.0 ==> final(self).orphan_frames(x) == old(
                                self,
                            ).orphan_frames(x)
                    }
                },
                Err(e) => {
                    &&& *final(self) == *old(self)
                    &&& (e == RouteError::ChannelClosed <==> old(self).closed)
                    &&& e == RouteError::ClosedFork ==> old(self).has_fork(item.0) && !(old(
                        self,
                    ).fork_at(item.0).state is Open)
                    &&& e == RouteError::KindMismatch ==> old(self).has_fork(item.0)
                        && payload_view_kind(item.1@) != old(self).fork_at(item.0).recv_kind()
                    &&& e == RouteError::UnknownFork ==> !old(self).has_fork(item.0) && item.0 % 2
                        == old(self).parity()
                },
            },
    {
        if self.closed {
            return Err(RouteError::ChannelClosed);
        }
        let id = item.0;
        match self.find_fork(id) {
            Some(i) => {
                if !(self.forks[i].state == ForkState::Open) {
                    return Err(RouteError::ClosedFork);
                }
                let k = item.1.kind();
                let rk = if self.forks[i].constructing {
                    self.forks[i].construct_kind
                } else {
                    self.forks[i].deconstruct_kind
                };
                if k != rk {
                    return Err(RouteError::KindMismatch);
                }
                let ghost pv = item.1@;
                let mut rec = self.forks.remove(i);
                rec.inbound.push(item.1);
                let ghost routed2 = rec.routed@.push(pv);
                rec.routed = Ghost(routed2);
                self.forks.insert(i, rec);
                proof {
                    assert(self.forks@ =~= old(self).forks@.update(
                        i as int,
                        self.forks@[i as int],
                    ));
                    lemma_fork_update(old(self).forks@, self.forks@, i as int);
                    assert(payloads_view(self.forks@[i as int].inbound@) =~= payloads_view(
                        old(self).forks@[i as int].inbound@,
                    ).push(pv));
                    assert(self.forks@[i as int].wf()) by {
                        assert(self.forks@[i as int].routed@ =~= self.forks@[i as int].delivered@
                            + payloads_view(self.forks@[i as int].inbound@));
                    }
                }
                Ok(())
            }
            None => {
                let local = if self.odd {
                    1u64
                } else {
                    0u64
                };
                if id % 2 == local {
                    return Err(RouteError::UnknownFork);
                }
                match self.find_orphan(id) {
                    Some(k) => {
                        let mut rec = self.orphans.remove(k);
                        rec.frames.push(item.1);
                        self.orphans.insert(k, rec);
                        proof {
                            assert(self.orphans@ =~= old(self).orphans@.update(
                                k as int,
                                self.orphans@[k as int],
                            ));
                            assert(self.orphan_index(id) == k) by {
                                let j = self.orphan_index(id);
                                if j != k {
                                    assert(self.orphans@[j].id == id);
                                }
                            }
                            assert forall|x: u64| x != id implies final(self).orphan_frames(x)
                                == old(self).orphan_frames(x) by {
                                if old(self).has_orphan(x) {
                                    let j = old(self).orphan_index(x);
                                    assert(self.orphans@[j].id == x);
                                    assert(self.has_orphan(x));
                                    let j2 = self.orphan_index(x);
                                    if j2 != j {
                                        assert(self.orphans@[j2].id == x);
                                        assert(old(self).orphans@[j2].id == x);
                                    }
                                } else {
                                    if self.has_orphan(x) {
                                        let j2 = self.orphan_index(x);
                                        assert(old(self).orphans@[j2].id == x);
                                    }
                                }
                            }
                            assert forall|x: u64| x != id implies self.has_orphan(x) == old(
                                self,
                            ).has_orphan(x) by {
                                if old(self).has_orphan(x) {
                                    let j = old(self).orphan_index(x);
                                    assert(self.orphans@[j].id == x);
                                    assert(self.has_orphan(x));
                                }
                                if self.has_orphan(x) {
                                    let j = self.orphan_index(x);
                                    if j != k as int {
                                        assert(old(self).orphans@[j].id == x);
                                        assert(old(self).has_orphan(x));
                                    }
                                }
                            }
                        }
                        Ok(())
                    }
                    None => {
                        let mut frames = Vec::new();
                        frames.push(item.1);
                        self.orphans.push(OrphanRecord { id, frames });
                        proof {
                            let n = self.orphans@.len() as int;
                            assert(self.orphans@.drop_last() =~= old(self).orphans@);
                            assert(self.has_orphan(id)) by {
                                assert(self.orphans@[n - 1].id == id);
                            }
                            assert(self.orphan_index(id) == n - 1) by {
                                let j = self.orphan_index(id);
                                if j != n - 1 {
                                    assert(old(self).orphans@[j].id == id);
                                }
                            }
                            assert(old(self).orphan_frames(id) =~= Seq::<Payload>::empty());
                            assert(self.orphan_frames(id) =~= old(self).orphan_frames(id).push(
                                item.1,
                            ));
                            assert forall|x: u64| x != id implies final(self).orphan_frames(x)
                                == old(self).orphan_frames(x) by {
                                if old(self).has_orphan(x) {
                                    let j = old(self).orphan_index(x);
                                    assert(self.orphans@[j].id == x);
                                    assert(self.has_orphan(x));
                                    let j2 = self.orphan_index(x);
                                    if j2 != j {
                                        assert(self.orphans@[j2].id == x);
                                        if j2 < n - 1 {
                                            assert(old(self).orphans@[j2].id == x);
                                        }
                                    }
                                } else {
                                    if self.has_orphan(x) {
                                        let j2 = self.orphan_index(x);
                                        assert(j2 < n - 1 ==> old(self).orphans@[j2].id == x);
                                    }
                                }
                            }
                            assert forall|x: u64| x != id implies self.has_orphan(x) == old(
                                self,
                            ).has_orphan(x) by {
                                if old(self).has_orphan(x) {
                                    let j = old(self).orphan_index(x);
                                    assert(self.orphans@[j].id == x);
                                    assert(self.has_orphan(x));
                                }
                                if self.has_orphan(x) {
                                    let j = self.orphan_index(x);
                                    if j < n - 1 {
                                        assert(old(self).orphans@[j].id == x);
                                        assert(old(self).has_orphan(x));
                                    } else {
                                        assert(self.orphans@[j].id == id);
                                    }
                                }
                            }
                        }
                        Ok(())
                    }
                }
            }
        }
    }

    /// Installs the consumer for a peer-allocated fork, recording the kind
    /// it will construct.  Installation drains the orphan table: every frame
    /// that arrived for the fork beforehand becomes pending delivery, in
    /// arrival order, none delivered yet.  Installing a consumer twice on
    /// one fork reference is refused.
    pub fn get_fork(
        &mut self,
        fork_ref: ForkRef,
        construct_kind: WireKind,
        deconstruct_kind: WireKind,
    ) -> (r: Result<(), ChannelError>)
        requires
            old(self).wf(),
            !old(self).closed,
        ensures
            final(self).wf(),
            old(self).same_admin(final(self)),
            final(self).outbound == old(self).outbound,
            match r {
                Ok(_) => {
                    &&& !old(self).has_fork(fork_ref.0)
                    &&& fork_ref.0 % 2 != old(self).parity()
                    &&& forall|j: int|
                        0 <= j < old(self).orphan_frames(fork_ref.0).len()
                            ==> payload_view_kind(#[trigger] old(self).orphan_frames(
                            fork_ref.0,
                        )[j]@) == construct_kind
                    &&& final(self).forks@.drop_last() == old(self).forks@
                    &&& final(self).forks@.len() == old(self).forks@.len() + 1
                    &&& final(self).has_fork(fork_ref.0)
                    &&& final(self).fork_at(fork_ref.0) == final(self).forks@.last()
                    &&& final(self).fork_at(fork_ref.0).id == fork_ref.0
                    &&& final(self).fork_at(fork_ref.0).construct_kind == construct_kind
                    &&& final(self).fork_at(fork_ref.0).deconstruct_kind == deconstruct_kind
                    &&& final(self).fork_at(fork_ref.0).constructing
                    &&& final(self).fork_at(fork_ref.0).state is Open
                    // orphan draining: what was buffered is now pending, in order
                    &&& final(self).fork_at(fork_ref.0).inbound@ == old(self).orphan_frames(
                        fork_ref.0,
                    )
                    &&& final(self).fork_at(fork_ref.0).routed@ == payloads_view(
                        old(self).orphan_frames(fork_ref.0),
                    )
                    &&& final(self).fork_at(fork_ref.0).delivered@.len() == 0
                    &&& !final(self).has_orphan(fork_ref.0)
                    &&& final(self).orphans@.len() == old(self).orphans@.len() - (
                    if old(self).has_orphan(fork_ref.0) {
                        1int
                    } else {
                        0int
                    })
                    &&& forall|x: u64|
                        #[trigger] final(self).has_orphan(x) ==> old(self).has_orphan(x)
                    &&& forall|x: u64|
                        x != fork_ref.0 ==> final(self).orphan_frames(x) == old(
                            self,
                        ).orphan_frames(x)
                    &&& forall|x: u64|
                        x != fork_ref.0 ==> final(self).has_fork(x) == old(self).has_fork(x)
                    &&& forall|x: u64|
                        x != fork_ref.0 && old(self).has_fork(x) ==> final(self).fork_at(x)
                            == old(self).fork_at(x)
                },
                Err(e) => {
                    &&& *final(self) == *old(self)
                    &&& (e == ChannelError::DuplicateFork <==> old(self).has_fork(fork_ref.0))
                    &&& e == ChannelError::UnknownFork ==> !old(self).has_fork(fork_ref.0)
                        && fork_ref.0 % 2 == old(self).parity()
                    &&& e == ChannelError::KindMismatch ==> exists|j: int|
                        0 <= j < old(self).orphan_frames(fork_ref.0).len()
                            && payload_view_kind(#[trigger] old(self).orphan_frames(
                            fork_ref.0,
                        )[j]@) != construct_kind
                },
            },
    {
        let id = fork_ref.0;
        if let Some(_) = self.find_fork(id) {
            return Err(ChannelError::DuplicateFork);
        }
        let local = if self.odd {
            1u64
        } else {
            0u64
        };
        if id % 2 == local {
            return Err(ChannelError::UnknownFork);
        }
        let frames: Vec<Payload> = match self.find_orphan(id) {
            Some(k) => {
                // validate the buffered frames before touching anything
                let mut j: usize = 0;
                while j < self.orphans[k].frames.len()
                    invariant
                        *self == *old(self),
                        self.wf(),
                        !self.closed,
                        id == fork_ref.0,
                        !self.has_fork(id),
                        id % 2 != self.parity(),
                        k < self.orphans@.len(),
                        self.orphans@[k as int].id == id,
                        self.orphan_index(id) == k,
                        self.has_orphan(id),
                        j <= self.orphans@[k as int].frames@.len(),
                        forall|x: int|
                            0 <= x < j ==> payload_view_kind(
                                #[trigger] self.orphans@[k as int].frames@[x]@,
                            ) == construct_kind,
                    decreases self.orphans@[k as int].frames@.len() - j,
                {
                    let fk = self.orphans[k].frames[j].kind();
                    if fk != construct_kind {
                        proof {
                            assert(payload_view_kind(
                                old(self).orphan_frames(fork_ref.0)[j as int]@,
                            ) != construct_kind);
                        }
                        return Err(ChannelError::KindMismatch);
                    }
                    j = j + 1;
                }
                let rec = self.orphans.remove(k);
                proof {
                    lemma_orphan_remove(old(self).orphans@, k as int);
                }
                rec.frames
            }
            None => {
                proof {
                    assert(old(self).orphan_frames(id) =~= Seq::<Payload>::empty());
                }
                Vec::new()
            }
        };
        let ghost routed0 = payloads_view(frames@);
        let record = IdChannelFork {
            id,
            construct_kind,
            deconstruct_kind,
            constructing: true,
            inbound: frames,
            state: ForkState::Open,
            routed: Ghost(routed0),
            delivered: Ghost(Seq::empty()),
        };
        self.forks.push(record);
        proof {
            let n = self.forks@.len() as int;
            assert(self.forks@.drop_last() =~= old(self).forks@);
            assert(self.has_fork(id)) by {
                assert(self.forks@[n - 1].id == id);
            }
            assert(self.fork_index(id) == n - 1) by {
                let j = self.fork_index(id);
                if j != n - 1 {
                    assert(old(self).forks@[j].id == id);
                }
            }
            assert(self.forks@[n - 1].wf()) by {
                assert(self.forks@[n - 1].routed@ =~= self.forks@[n - 1].delivered@
                    + payloads_view(self.forks@[n - 1].inbound@));
            }
            assert forall|x: u64| x != id implies self.has_fork(x) == old(self).has_fork(x) by {
                if old(self).has_fork(x) {
                    let j = old(self).fork_index(x);
                    assert(self.forks@[j].id == x);
                    assert(self.has_fork(x));
                }
                if self.has_fork(x) {
                    let j = self.fork_index(x);
                    if j < n - 1 {
                        assert(old(self).forks@[j].id == x);
                        assert(old(self).has_fork(x));
                    }
                }
            }
            assert forall|x: u64| x != id && old(self).has_fork(x) implies self.fork_at(x)
                == old(self).fork_at(x) by {
                let j = old(self).fork_index(x);
                assert(old(self).forks@[j].id == x);
                assert(self.forks@[j].id == x);
                assert(self.has_fork(x));
                let j2 = self.fork_index(x);
                assert(self.forks@[j2].id == x);
                if j2 < n - 1 {
                    assert(old(self).forks@[j2].id == x);
                    if j2 != j {
                        assert(old(self).forks@[j2].id == old(self).forks@[j].id);
                    }
                }
            }
        }
        Ok(())
    }

    /// Hands the consumer the next pending frame of a fork, in arrival
    /// order, or nothing if the queue is empty.
    pub fn recv_on(&mut self, id: u64) -> (r: Option<Payload>)
        requires
            old(self).wf(),
            old(self).has_fork(id),
        ensures
            final(self).wf(),
            old(self).same_admin(final(self)),
            final(self).outbound == old(self).outbound,
            final(self).orphans == old(self).orphans,
            old(self).forks_unchanged_except(final(self), id),
            forall|x: u64| #[trigger] final(self).has_fork(x) == old(self).has_fork(x),
            forall|x: u64| #[trigger] final(self).has_orphan(x) == old(self).has_orphan(x),
            forall|x: u64|
                x != id && old(self).has_fork(x) ==> #[trigger] final(self).fork_at(x) == old(
                    self,
                ).fork_at(x),
            final(self).has_fork(id),
            final(self).fork_at(id).id == old(self).fork_at(id).id,
            final(self).fork_at(id).construct_kind == old(self).fork_at(id).construct_kind,
            final(self).fork_at(id).deconstruct_kind == old(self).fork_at(id).deconstruct_kind,
            final(self).fork_at(id).constructing == old(self).fork_at(id).constructing,
            final(self).fork_at(id).state == old(self).fork_at(id).state,
            final(self).fork_at(id).routed == old(self).fork_at(id).routed,
            match r {
                Some(p) => {
                    &&& old(self).fork_at(id).inbound@.len() > 0
                    &&& p == old(self).fork_at(id).inbound@[0]
                    &&& final(self).fork_at(id).inbound@ == old(self).fork_at(
                        id,
                    ).inbound@.drop_first()
                    &&& final(self).fork_at(id).delivered@ == old(self).fork_at(
                        id,
                    ).delivered@.push(p@)
                    // delivery follows arrival order: the handed frame is the
                    // next routed frame after everything delivered so far
                    &&& p@ == old(self).fork_at(id).routed@[old(self).fork_at(
                        id,
                    ).delivered@.len() as int]
                },
                None => {
                    &&& old(self).fork_at(id).inbound@.len() == 0
                    &&& *final(self) == *old(self)
                },
            },
    {
        let i = match self.find_fork(id) {
            Some(i) => i,
            None => {
                proof {
                    assert(false);
                }
                return None;
            }
        };
        if self.forks[i].inbound.len() == 0 {
            return None;
        }
        let mut rec = self.forks.remove(i);
        let p = rec.inbound.remove(0);
        let ghost delivered2 = rec.delivered@.push(p@);
        rec.delivered = Ghost(delivered2);
        self.forks.insert(i, rec);
        proof {
            assert(self.forks@ =~= old(self).forks@.update(i as int, self.forks@[i as int]));
            lemma_fork_update(old(self).forks@, self.forks@, i as int);
            let oldrec = old(self).forks@[i as int];
            assert(payloads_view(oldrec.inbound@)[0] == p@);
            assert(payloads_view(self.forks@[i as int].inbound@) =~= payloads_view(
                oldrec.inbound@,
            ).drop_first());
            assert(self.forks@[i as int].wf()) by {
                assert(oldrec.routed@ == oldrec.delivered@ + payloads_view(oldrec.inbound@));
                assert(self.forks@[i as int].routed@ =~= self.forks@[i as int].delivered@
                    + payloads_view(self.forks@[i as int].inbound@));
            }
            assert(p@ == oldrec.routed@[oldrec.delivered@.len() as int]);
        }
        Some(p)
    }

    /// Queues one outbound frame of a fork this peer writes to.
    pub fn send_on(&mut self, id: u64, p: Payload)
        requires
            old(self).wf(),
            !old(self).closed,
            old(self).has_fork(id),
            payload_view_kind(p@) == old(self).fork_at(id).send_kind(),
        ensures
            final(self).wf(),
            old(self).same_admin(final(self)),
            final(self).forks == old(self).forks,
            final(self).orphans == old(self).orphans,
            final(self).outbound@.len() == old(self).outbound@.len() + 1,
            final(self).outbound@.drop_last() == old(self).outbound@,
            final(self).outbound@.last().0 == id,
            final(self).outbound@.last().1 == p,
            forall|x: u64| #[trigger] final(self).has_fork(x) == old(self).has_fork(x),
            forall|x: u64| #[trigger] final(self).has_orphan(x) == old(self).has_orphan(x),
            forall|x: u64|
                old(self).has_fork(x) ==> #[trigger] final(self).fork_at(x) == old(self).fork_at(
                    x,
                ),
    {
        self.outbound.push(ChannelItem(id, p));
        proof {
            assert(self.outbound@.drop_last() =~= old(self).outbound@);
        }
    }

    /// Takes the next outbound frame for the transport, in send order.
    pub fn next_outbound(&mut self) -> (r: Option<ChannelItem>)
        requires
            old(self).wf(),
        ensures
            final(self).wf(),
            old(self).same_admin(final(self)),
            final(self).forks == old(self).forks,
            final(self).orphans == old(self).orphans,
            forall|x: u64| #[trigger] final(self).has_fork(x) == old(self).has_fork(x),
            forall|x: u64| #[trigger] final(self).has_orphan(x) == old(self).has_orphan(x),
            forall|x: u64|
                old(self).has_fork(x) ==> #[trigger] final(self).fork_at(x) == old(self).fork_at(
                    x,
                ),
            match r {
                Some(item) => {
                    &&& old(self).outbound@.len() > 0
                    &&& item == old(self).outbound@[0]
                    &&& final(self).outbound@ == old(self).outbound@.drop_first()
                },
                None => {
                    &&& old(self).outbound@.len() == 0
                    &&& *final(self) == *old(self)
                },
            },
    {
        if self.outbound.len() == 0 {
            return None;
        }
        let item = self.outbound.remove(0);
        Some(item)
    }

    /// Marks a fork half-closed: its local consumer is gone and no more
    /// frames are expected locally.  The remote producer is not killed; it
    /// discovers closure when its sends fail.
    pub fn half_close_fork(&mut self, id: u64)
        requires
            old(self).wf(),
            old(self).has_fork(id),
        ensures
            final(self).wf(),
            old(self).same_admin(final(self)),
            final(self).outbound == old(self).outbound,
            final(self).orphans == old(self).orphans,
            old(self).forks_unchanged_except(final(self), id),
            forall|x: u64| #[trigger] final(self).has_fork(x) == old(self).has_fork(x),
            forall|x: u64|
                x != id && old(self).has_fork(x) ==> #[trigger] final(self).fork_at(x) == old(
                    self,
                ).fork_at(x),
            final(self).has_fork(id),
            final(self).fork_at(id).state is HalfClosed,
            final(self).fork_at(id).id == old(self).fork_at(id).id,
            final(self).fork_at(id).construct_kind == old(self).fork_at(id).construct_kind,
            final(self).fork_at(id).deconstruct_kind == old(self).fork_at(id).deconstruct_kind,
            final(self).fork_at(id).constructing == old(self).fork_at(id).constructing,
            final(self).fork_at(id).inbound == old(self).fork_at(id).inbound,
            final(self).fork_at(id).routed == old(self).fork_at(id).routed,
            final(self).fork_at(id).delivered == old(self).fork_at(id).delivered,
    {
        let i = match self.find_fork(id) {
            Some(i) => i,
            None => {
                proof {
                    assert(false);
                }
                return ;
            }
        };
        let mut rec = self.forks.remove(i);
        rec.state = ForkState::HalfClosed;
        self.forks.insert(i, rec);
        proof {
            assert(self.forks@ =~= old(self).forks@.update(i as int, self.forks@[i as int]));
            lemma_fork_update(old(self).forks@, self.forks@, i as int);
        }
    }

    /// Removes a finished fork's record: its producer is done and its
    /// consumer has drained everything pending.
    pub fn release_fork(&mut self, id: u64)
        requires
            old(self).wf(),
            old(self).has_fork(id),
            old(self).fork_at(id).inbound@.len() == 0,
        ensures
            final(self).wf(),
            old(self).same_admin(final(self)),
            final(self).outbound == old(self).outbound,
            final(self).orphans == old(self).orphans,
            !final(self).has_fork(id),
            final(self).forks@.len() == old(self).forks@.len() - 1,
            forall|x: u64|
                x != id ==> final(self).has_fork(x) == old(self).has_fork(x),
            forall|x: u64|
                x != id && old(self).has_fork(x) ==> final(self).fork_at(x) == old(
                    self,
                ).fork_at(x),
    {
        let i = match self.find_fork(id) {
            Some(i) => i,
            None => {
                proof {
                    assert(false);
                }
                return ;
            }
        };
        self.forks.remove(i);
        proof {
            let pre = old(self).forks@;
            let t = self.forks@;
            let k = i as int;
            assert(forall|j: int| 0 <= j < k ==> t[j] == pre[j]);
            assert(forall|j: int| k <= j < t.len() ==> t[j] == pre[j + 1]);
            assert(!self.has_fork(id)) by {
                if self.has_fork(id) {
                    let j = self.fork_index(id);
                    if j < k {
                        assert(pre[j].id == id);
                    } else {
                        assert(pre[j + 1].id == id);
                    }
                }
            }
            assert forall|x: u64| x != id implies self.has_fork(x) == old(self).has_fork(x) by {
                if old(self).has_fork(x) {
                    let j = old(self).fork_index(x);
                    assert(pre[j].id == x);
                    if j < k {
                        assert(t[j].id == x);
                    } else {
                        assert(j != k);
                        assert(t[j - 1].id == x);
                    }
                    assert(self.has_fork(x));
                } else {
                    if self.has_fork(x) {
                        let j = self.fork_index(x);
                        if j < k {
                            assert(pre[j].id == x);
                        } else {
                            assert(pre[j + 1].id == x);
                        }
                    }
                }
            }
            assert forall|x: u64| x != id && old(self).has_fork(x) implies self.fork_at(x)
                == old(self).fork_at(x) by {
                let j = old(self).fork_index(x);
                assert(pre[j].id == x);
                if j < k {
                    assert(t[j].id == x);
                } else {
                    assert(t[j - 1].id == x);
                }
                assert(self.has_fork(x));
                let j2 = self.fork_index(x);
                assert(t[j2].id == x);
                if j2 < k {
                    assert(pre[j2].id == x);
                    if j2 != j {
                        assert(pre[j2].id == pre[j].id);
                    }
                } else {
                    assert(pre[j2 + 1].id == x);
                    if j2 + 1 != j {
                        assert(pre[j2 + 1].id == pre[j].id);
                    }
                }
            }
        }
    }

    /// Tears the channel down: every fork transitions to `Closed` and no
    /// frame is routed or sent afterwards.
    pub fn close(&mut self)
        requires
            old(self).wf(),
        ensures
            final(self).wf(),
            final(self).closed,
            final(self).odd == old(self).odd,
            final(self).next_fork == old(self).next_fork,
            final(self).allocated == old(self).allocated,
            final(self).outbound == old(self).outbound,
            final(self).orphans == old(self).orphans,
            final(self).forks@.len() == old(self).forks@.len(),
            forall|j: int|
                0 <= j < old(self).forks@.len() ==> (#[trigger] final(self).forks@[j]).state
                    is Closed,
            forall|j: int|
                0 <= j < old(self).forks@.len() ==> {
                    let f = #[trigger] final(self).forks@[j];
                    let g = old(self).forks@[j];
                    f.id == g.id && f.construct_kind == g.construct_kind && f.deconstruct_kind
                        == g.deconstruct_kind && f.constructing == g.constructing && f.inbound
                        == g.inbound && f.routed == g.routed && f.delivered == g.delivered
                },
    {
        self.closed = true;
        let mut i: usize = 0;
        while i < self.forks.len()
            invariant
                self.wf(),
                self.closed,
                self.odd == old(self).odd,
                self.next_fork == old(self).next_fork,
                self.allocated == old(self).allocated,
                self.outbound == old(self).outbound,
                self.orphans == old(self).orphans,
                i <= self.forks@.len(),
                self.forks@.len() == old(self).forks@.len(),
                forall|j: int|
                    0 <= j < i ==> (#[trigger] self.forks@[j]).state is Closed,
                forall|j: int|
                    0 <= j < i ==> {
                        let f = #[trigger] self.forks@[j];
                        let g = old(self).forks@[j];
                        f.id == g.id && f.construct_kind == g.construct_kind
                            && f.deconstruct_kind == g.deconstruct_kind && f.constructing
                            == g.constructing && f.inbound == g.inbound && f.routed == g.routed
                            && f.delivered == g.delivered
                    },
                forall|j: int|
                    i <= j < self.forks@.len() ==> #[trigger] self.forks@[j] == old(
                        self,
                    ).forks@[j],
            decreases self.forks@.len() - i,
        {
            let ghost pre = self.forks@;
            let mut rec = self.forks.remove(i);
            rec.state = ForkState::Closed;
            self.forks.insert(i, rec);
            proof {
                assert(self.forks@ =~= pre.update(i as int, self.forks@[i as int]));
            }
            i = i + 1;
        }
    }
}

/// Within one channel lifetime, every two distinct allocations yield
/// distinct fork ids: the allocator is a strictly increasing counter over
/// this peer's parity class.
pub proof fn lemma_fork_ids_unique(c: &IdChannel)
    requires
        c.wf(),
    ensures
        forall|i: int, j: int|
            0 <= i < c.allocated@.len() && 0 <= j < c.allocated@.len() && i != j
                ==> #[trigger] c.allocated@[i] != #[trigger] c.allocated@[j],
{
}

/// Per-fork delivery is first-in first-out: what the consumer has been
/// handed is a prefix of what the router enqueued, frame for frame.
pub proof fn lemma_fifo_per_fork(f: &IdChannelFork)
    requires
        f.wf(),
    ensures
        f.delivered@.len() <= f.routed@.len(),
        forall|k: int| 0 <= k < f.delivered@.len() ==> f.delivered@[k] == f.routed@[k],
{
}

} // verus!
