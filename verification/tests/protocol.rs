use vessels::codec::serialize_item;
use vessels::protocol::{transport_call, Proxy};
use vessels::reflection::{
    ArgumentCountError, CallError, InterfaceDesc, MethodDesc, MethodTypes, OutOfRangeError,
    Receiver, TypeTag,
};
use vessels::wire::{
    Call, ChannelItem, ForkRef, FResult, Payload, Prim, Response, ReturnItem, WireKind,
};

/// An interface of one method: `next(&mut self) -> Future<u64, ()>`.
fn counter_interface() -> InterfaceDesc {
    InterfaceDesc {
        this: TypeTag(100),
        name: String::from("Counter"),
        methods: vec![MethodDesc {
            name: String::from("next"),
            types: MethodTypes {
                arguments: vec![],
                output: WireKind::U64,
                receiver: Receiver::Mutable,
            },
        }],
        supertraits: vec![],
    }
}

/// An interface of one method taking a single integer argument.
fn adder_interface() -> InterfaceDesc {
    InterfaceDesc {
        this: TypeTag(200),
        name: String::from("Adder"),
        methods: vec![MethodDesc {
            name: String::from("add"),
            types: MethodTypes {
                arguments: vec![WireKind::U64],
                output: WireKind::U64,
                receiver: Receiver::Mutable,
            },
        }],
        supertraits: vec![],
    }
}

#[test]
fn method_call_on_a_counter() {
    let iface = counter_interface();
    // the host's implementation state: a counter initialized at 7
    let mut counter: u64 = 7;
    let mut proxy = Proxy::new();

    // first invocation: correlation id 1, resolves Ok(7)
    let pid1 = proxy.invoke(&iface, 0, vec![], Receiver::Mutable).expect("valid call");
    assert_eq!(pid1, 1);
    let call1 = proxy.next_call().expect("queued");
    assert_eq!(call1.protocol, 1);
    let served = counter;
    counter += 1;
    let (result1, wire1) = transport_call(&iface, call1, Receiver::Mutable, Prim::U64(served));
    assert_eq!(result1, Ok(Prim::U64(7)));
    // wire witness: the call, the response naming a fork, the data frame
    assert_eq!(wire1.len(), 3);
    assert_eq!(
        wire1[0],
        serialize_item(&ChannelItem(
            0,
            Payload::Call(Call { method: 0, args: vec![], protocol: 1 })
        ))
    );
    assert_eq!(
        wire1[1],
        serialize_item(&ChannelItem(
            0,
            Payload::Resp(Response {
                method: 0,
                protocol: 1,
                item: ReturnItem::Res(FResult::Value(ForkRef(2))),
            })
        ))
    );
    assert_eq!(wire1[2], serialize_item(&ChannelItem(2, Payload::Prim(Prim::U64(7)))));

    // the proxy correlates the response to the invocation
    let resp1 = Response {
        method: 0,
        protocol: 1,
        item: ReturnItem::Res(FResult::Value(ForkRef(2))),
    };
    assert_eq!(proxy.resolve(&resp1), Some(WireKind::U64));

    // second invocation: correlation id 2, resolves Ok(8)
    let pid2 = proxy.invoke(&iface, 0, vec![], Receiver::Mutable).expect("valid call");
    assert_eq!(pid2, 2);
    let call2 = proxy.next_call().expect("queued");
    let served = counter;
    let (result2, _) = transport_call(&iface, call2, Receiver::Mutable, Prim::U64(served));
    assert_eq!(result2, Ok(Prim::U64(8)));
}

#[test]
fn argument_count_error_keeps_the_channel_live() {
    let iface = adder_interface();
    // a hand-crafted frame invokes the one-argument method with two
    let crafted = Call {
        method: 0,
        args: vec![Prim::U64(1), Prim::U64(2)],
        protocol: 9,
    };
    let (result, wire) = transport_call(&iface, crafted, Receiver::Mutable, Prim::U64(0));
    assert_eq!(
        result,
        Err(CallError::ArgumentCount(ArgumentCountError { expected: 1, got: 2 }))
    );
    // the error travels as a response; nothing else was torn down
    assert_eq!(wire.len(), 2);
    assert_eq!(
        wire[1],
        serialize_item(&ChannelItem(
            0,
            Payload::Resp(Response {
                method: 0,
                protocol: 9,
                item: ReturnItem::Error(CallError::ArgumentCount(ArgumentCountError {
                    expected: 1,
                    got: 2,
                })),
            })
        ))
    );
    // a subsequent valid call succeeds
    let good = Call { method: 0, args: vec![Prim::U64(5)], protocol: 10 };
    let (result, _) = transport_call(&iface, good, Receiver::Mutable, Prim::U64(6));
    assert_eq!(result, Ok(Prim::U64(6)));
}

#[test]
fn out_of_range_and_type_and_receiver_errors() {
    let iface = adder_interface();
    let out = Call { method: 3, args: vec![], protocol: 1 };
    let (r, _) = transport_call(&iface, out, Receiver::Mutable, Prim::U64(0));
    assert_eq!(r, Err(CallError::OutOfRange(OutOfRangeError { index: 3 })));

    let wrong_type = Call { method: 0, args: vec![Prim::Bool(true)], protocol: 2 };
    let (r, _) = transport_call(&iface, wrong_type, Receiver::Mutable, Prim::U64(0));
    assert_eq!(r, Err(CallError::Type(0)));

    let wrong_receiver = Call { method: 0, args: vec![Prim::U64(1)], protocol: 3 };
    let (r, _) = transport_call(&iface, wrong_receiver, Receiver::Immutable, Prim::U64(0));
    assert_eq!(r, Err(CallError::IncorrectReceiver(Receiver::Mutable)));
}

#[test]
fn the_proxy_validates_before_queueing() {
    let iface = adder_interface();
    let mut proxy = Proxy::new();
    let r = proxy.invoke(&iface, 0, vec![Prim::Bool(false)], Receiver::Mutable);
    assert_eq!(r, Err(CallError::Type(0)));
    assert!(proxy.next_call().is_none());
}

#[test]
fn calls_leave_the_proxy_in_issue_order() {
    let iface = adder_interface();
    let mut proxy = Proxy::new();
    proxy.invoke(&iface, 0, vec![Prim::U64(1)], Receiver::Mutable).expect("valid");
    proxy.invoke(&iface, 0, vec![Prim::U64(2)], Receiver::Mutable).expect("valid");
    let c1 = proxy.next_call().expect("first");
    let c2 = proxy.next_call().expect("second");
    assert_eq!(c1.protocol, 1);
    assert_eq!(c2.protocol, 2);
    assert_eq!(c1.args, vec![Prim::U64(1)]);
    assert_eq!(c2.args, vec![Prim::U64(2)]);
}

#[test]
fn responses_with_unknown_correlation_ids_resolve_nothing() {
    let mut proxy = Proxy::new();
    let resp = Response {
        method: 0,
        protocol: 77,
        item: ReturnItem::Res(FResult::Value(ForkRef(2))),
    };
    assert_eq!(proxy.resolve(&resp), None);
}
