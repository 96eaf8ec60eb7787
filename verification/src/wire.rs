//! Wire shapes: the payload values that frames of the multiplexed channel
//! carry, together with their mathematical views.
//!
//! Every frame on the wire is a [`ChannelItem`]: a fork id paired with a
//! self-describing [`Payload`].  The payload families mirror the kind
//! families of the runtime: primitive values, fork references, future
//! results, stream items, user aggregates, and the call/response frames of
//! the reflected protocol.

use vstd::prelude::*;

use crate::reflection::CallError;

verus! {

/// The wire representation of a fork id as it appears inside a payload that
/// references another sub-channel.
#[derive(Clone, Copy, Debug, PartialEq, Eq, Structural)]
pub struct ForkRef(pub u64);

/// A primitive value: a kind whose whole content travels in a single frame.
#[derive(Clone, Debug, PartialEq)]
pub enum Prim {
    Unit,
    Bool(bool),
    U64(u64),
    I64(i64),
    Text(String),
}

/// The view of a [`Prim`]: text is seen as its character sequence.
pub enum PrimV {
    Unit,
    Bool(bool),
    U64(u64),
    I64(i64),
    Text(Seq<char>),
}

impl View for Prim {
    type V = PrimV;

    open spec fn view(&self) -> PrimV {
        match self {
            Prim::Unit => PrimV::Unit,
            Prim::Bool(b) => PrimV::Bool(*b),
            Prim::U64(v) => PrimV::U64(*v),
            Prim::I64(v) => PrimV::I64(*v),
            Prim::Text(s) => PrimV::Text(s@),
        }
    }
}

/// The construct item of a future kind: which side completed, and the fork
/// that carries the payload.
#[derive(Clone, Copy, Debug, PartialEq, Eq, Structural)]
pub enum FResult {
    Value(ForkRef),
    Error(ForkRef),
}

/// The construct item of a stream kind: one forked element, a forked error,
/// or exhaustion.
#[derive(Clone, Copy, Debug, PartialEq, Eq, Structural)]
pub enum StreamItem {
    Item(ForkRef),
    Error(ForkRef),
    End,
}

/// The construct item of a user aggregate: the variant that was built and
/// one forked sub-value per field, in declaration order.
#[derive(Clone, Debug, PartialEq)]
pub struct Aggregate {
    /// Which variant of the aggregate this is; a struct has one.
    pub variant: u64,
    /// The fork carrying each field's value, in declaration order.
    pub fields: Vec<ForkRef>,
}

/// The view of an [`Aggregate`].
pub struct AggregateV {
    pub variant: u64,
    pub fields: Seq<ForkRef>,
}

impl View for Aggregate {
    type V = AggregateV;

    open spec fn view(&self) -> AggregateV {
        AggregateV { variant: self.variant, fields: self.fields@ }
    }
}

/// A method invocation frame of the reflected protocol.
#[derive(Clone, Debug, PartialEq)]
pub struct Call {
    /// Index of the invoked method in its interface descriptor.
    pub method: u64,
    /// The serialized arguments, in declaration order.
    pub args: Vec<Prim>,
    /// The caller-allocated response correlation id.
    pub protocol: u64,
}

/// The view of a [`Call`].
pub struct CallV {
    pub method: u64,
    pub args: Seq<PrimV>,
    pub protocol: u64,
}

/// The sequence of views of a sequence of primitives.
pub open spec fn prims_view(s: Seq<Prim>) -> Seq<PrimV> {
    s.map_values(|p: Prim| p@)
}

impl View for Call {
    type V = CallV;

    open spec fn view(&self) -> CallV {
        CallV { method: self.method, args: prims_view(self.args@), protocol: self.protocol }
    }
}

/// The wire item answering one method invocation: the construct item of the
/// method's return kind, or the dispatch error the invocation raised.
#[derive(Clone, Debug, PartialEq)]
pub enum ReturnItem {
    Prim(Prim),
    Res(FResult),
    Fork(ForkRef),
    Item(StreamItem),
    Error(CallError),
}

/// The view of a [`ReturnItem`].
pub enum ReturnItemV {
    Prim(PrimV),
    Res(FResult),
    Fork(ForkRef),
    Item(StreamItem),
    Error(CallError),
}

impl View for ReturnItem {
    type V = ReturnItemV;

    open spec fn view(&self) -> ReturnItemV {
        match self {
            ReturnItem::Prim(p) => ReturnItemV::Prim(p@),
            ReturnItem::Res(r) => ReturnItemV::Res(*r),
            ReturnItem::Fork(f) => ReturnItemV::Fork(*f),
            ReturnItem::Item(i) => ReturnItemV::Item(*i),
            ReturnItem::Error(e) => ReturnItemV::Error(*e),
        }
    }
}

/// A response frame of the reflected protocol, correlated to its call by
/// `protocol`.
#[derive(Clone, Debug, PartialEq)]
pub struct Response {
    pub method: u64,
    pub protocol: u64,
    pub item: ReturnItem,
}

/// The view of a [`Response`].
pub struct ResponseV {
    pub method: u64,
    pub protocol: u64,
    pub item: ReturnItemV,
}

impl View for Response {
    type V = ResponseV;

    open spec fn view(&self) -> ResponseV {
        ResponseV { method: self.method, protocol: self.protocol, item: self.item@ }
    }
}

/// A self-describing payload: the union of every wire item a registered kind
/// can place in a frame.
#[derive(Clone, Debug, PartialEq)]
pub enum Payload {
    Prim(Prim),
    Fork(ForkRef),
    Res(FResult),
    Item(StreamItem),
    Agg(Aggregate),
    Call(Call),
    Resp(Response),
}

/// The view of a [`Payload`].
pub enum PayloadV {
    Prim(PrimV),
    Fork(ForkRef),
    Res(FResult),
    Item(StreamItem),
    Agg(AggregateV),
    Call(CallV),
    Resp(ResponseV),
}

impl View for Payload {
    type V = PayloadV;

    open spec fn view(&self) -> PayloadV {
        match self {
            Payload::Prim(p) => PayloadV::Prim(p@),
            Payload::Fork(f) => PayloadV::Fork(*f),
            Payload::Res(r) => PayloadV::Res(*r),
            Payload::Item(i) => PayloadV::Item(*i),
            Payload::Agg(a) => PayloadV::Agg(a@),
            Payload::Call(c) => PayloadV::Call(c@),
            Payload::Resp(r) => PayloadV::Resp(r@),
        }
    }
}

/// The stable type tag of a wire item, as recorded in the registry and in
/// each fork record.
#[derive(Clone, Copy, Debug, PartialEq, Eq, Structural)]
pub enum WireKind {
    Unit,
    Bool,
    U64,
    I64,
    Text,
    Fork,
    Res,
    Item,
    Agg,
    Call,
    Resp,
}

/// The tag of a primitive view.
pub open spec fn prim_view_kind(p: PrimV) -> WireKind {
    match p {
        PrimV::Unit => WireKind::Unit,
        PrimV::Bool(_) => WireKind::Bool,
        PrimV::U64(_) => WireKind::U64,
        PrimV::I64(_) => WireKind::I64,
        PrimV::Text(_) => WireKind::Text,
    }
}

/// The tag of a payload view.
pub open spec fn payload_view_kind(p: PayloadV) -> WireKind {
    match p {
        PayloadV::Prim(q) => prim_view_kind(q),
        PayloadV::Fork(_) => WireKind::Fork,
        PayloadV::Res(_) => WireKind::Res,
        PayloadV::Item(_) => WireKind::Item,
        PayloadV::Agg(_) => WireKind::Agg,
        PayloadV::Call(_) => WireKind::Call,
        PayloadV::Resp(_) => WireKind::Resp,
    }
}

impl Payload {
    /// The tag of this payload.
    pub fn kind(&self) -> (k: WireKind)
        ensures
            k == payload_view_kind(self@),
    {
        match self {
            Payload::Prim(Prim::Unit) => WireKind::Unit,
            Payload::Prim(Prim::Bool(_)) => WireKind::Bool,
            Payload::Prim(Prim::U64(_)) => WireKind::U64,
            Payload::Prim(Prim::I64(_)) => WireKind::I64,
            Payload::Prim(Prim::Text(_)) => WireKind::Text,
            Payload::Fork(_) => WireKind::Fork,
            Payload::Res(_) => WireKind::Res,
            Payload::Item(_) => WireKind::Item,
            Payload::Agg(_) => WireKind::Agg,
            Payload::Call(_) => WireKind::Call,
            Payload::Resp(_) => WireKind::Resp,
        }
    }
}

impl Prim {
    /// A deep copy with the same view.
    pub fn duplicate(&self) -> (r: Prim)
        ensures
            r@ == self@,
    {
        match self {
            Prim::Unit => Prim::Unit,
            Prim::Bool(b) => Prim::Bool(*b),
            Prim::U64(v) => Prim::U64(*v),
            Prim::I64(v) => Prim::I64(*v),
            Prim::Text(s) => Prim::Text(s.clone()),
        }
    }

    /// The tag of this primitive.
    pub fn kind(&self) -> (k: WireKind)
        ensures
            k == prim_view_kind(self@),
    {
        match self {
            Prim::Unit => WireKind::Unit,
            Prim::Bool(_) => WireKind::Bool,
            Prim::U64(_) => WireKind::U64,
            Prim::I64(_) => WireKind::I64,
            Prim::Text(_) => WireKind::Text,
        }
    }
}

/// A wire-item type: a value that can stand as a frame's payload and be
/// taken back out of one.
pub trait SerdeAny: Sized {
    /// The payload this value embeds as.
    spec fn as_payload(&self) -> PayloadV;

    /// Which payloads hold a value of this type.
    spec fn fits(p: PayloadV) -> bool;

    /// Wraps the value as a payload.
    fn into_payload(self) -> (p: Payload)
        ensures
            p@ == self.as_payload(),
            Self::fits(p@),
    ;

    /// Takes a value of this type back out of a payload: exactly the
    /// payloads that hold one yield it.
    fn from_payload(p: Payload) -> (r: Option<Self>)
        ensures
            r is Some <==> Self::fits(p@),
            r matches Some(v) ==> v.as_payload() == p@,
    ;
}

impl SerdeAny for Prim {
    open spec fn as_payload(&self) -> PayloadV {
        PayloadV::Prim(self@)
    }

    open spec fn fits(p: PayloadV) -> bool {
        p is Prim
    }

    fn into_payload(self) -> (p: Payload) {
        Payload::Prim(self)
    }

    fn from_payload(p: Payload) -> (r: Option<Self>) {
        match p {
            Payload::Prim(q) => Some(q),
            _ => None,
        }
    }
}

impl SerdeAny for ForkRef {
    open spec fn as_payload(&self) -> PayloadV {
        PayloadV::Fork(*self)
    }

    open spec fn fits(p: PayloadV) -> bool {
        p is Fork
    }

    fn into_payload(self) -> (p: Payload) {
        Payload::Fork(self)
    }

    fn from_payload(p: Payload) -> (r: Option<Self>) {
        match p {
            Payload::Fork(f) => Some(f),
            _ => None,
        }
    }
}

impl SerdeAny for FResult {
    open spec fn as_payload(&self) -> PayloadV {
        PayloadV::Res(*self)
    }

    open spec fn fits(p: PayloadV) -> bool {
        p is Res
    }

    fn into_payload(self) -> (p: Payload) {
        Payload::Res(self)
    }

    fn from_payload(p: Payload) -> (r: Option<Self>) {
        match p {
            Payload::Res(x) => Some(x),
            _ => None,
        }
    }
}

impl SerdeAny for StreamItem {
    open spec fn as_payload(&self) -> PayloadV {
        PayloadV::Item(*self)
    }

    open spec fn fits(p: PayloadV) -> bool {
        p is Item
    }

    fn into_payload(self) -> (p: Payload) {
        Payload::Item(self)
    }

    fn from_payload(p: Payload) -> (r: Option<Self>) {
        match p {
            Payload::Item(i) => Some(i),
            _ => None,
        }
    }
}

impl SerdeAny for Call {
    open spec fn as_payload(&self) -> PayloadV {
        PayloadV::Call(self@)
    }

    open spec fn fits(p: PayloadV) -> bool {
        p is Call
    }

    fn into_payload(self) -> (p: Payload) {
        Payload::Call(self)
    }

    fn from_payload(p: Payload) -> (r: Option<Self>) {
        match p {
            Payload::Call(c) => Some(c),
            _ => None,
        }
    }
}

impl SerdeAny for Response {
    open spec fn as_payload(&self) -> PayloadV {
        PayloadV::Resp(self@)
    }

    open spec fn fits(p: PayloadV) -> bool {
        p is Resp
    }

    fn into_payload(self) -> (p: Payload) {
        Payload::Resp(self)
    }

    fn from_payload(p: Payload) -> (r: Option<Self>) {
        match p {
            Payload::Resp(x) => Some(x),
            _ => None,
        }
    }
}

/// One tagged frame of the multiplexed channel: the fork it belongs to and
/// its payload.
#[derive(Clone, Debug, PartialEq)]
pub struct ChannelItem(pub u64, pub Payload);

/// The view of a [`ChannelItem`].
pub struct ChannelItemV {
    pub channel: u64,
    pub data: PayloadV,
}

impl View for ChannelItem {
    type V = ChannelItemV;

    open spec fn view(&self) -> ChannelItemV {
        ChannelItemV { channel: self.0, data: self.1@ }
    }
}

} // verus!
