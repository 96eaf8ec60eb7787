use vessels::reflection::{
    decimal_string, ArgumentCountError, CallError, ErasedHandle, InterfaceDesc, MethodDesc,
    MethodTypes, NameError, OutOfRangeError, Receiver, TypeTag,
};
use vessels::wire::WireKind;

fn shape_interface() -> InterfaceDesc {
    InterfaceDesc {
        this: TypeTag(7),
        name: String::from("Shape"),
        methods: vec![
            MethodDesc {
                name: String::from("area"),
                types: MethodTypes {
                    arguments: vec![],
                    output: WireKind::U64,
                    receiver: Receiver::Immutable,
                },
            },
            MethodDesc {
                name: String::from("scale"),
                types: MethodTypes {
                    arguments: vec![WireKind::U64],
                    output: WireKind::Unit,
                    receiver: Receiver::Mutable,
                },
            },
        ],
        supertraits: vec![TypeTag(1), TypeTag(2)],
    }
}

#[test]
fn descriptor_lookups() {
    let iface = shape_interface();
    assert_eq!(iface.count(), 2);
    assert_eq!(iface.this(), TypeTag(7));
    assert_eq!(iface.name(), String::from("Shape"));
    assert_eq!(iface.supertraits(), vec![TypeTag(1), TypeTag(2)]);
    assert_eq!(iface.by_name(&String::from("scale")), Ok(1));
    assert_eq!(
        iface.by_name(&String::from("rotate")),
        Err(NameError { name: String::from("rotate") })
    );
    assert_eq!(iface.name_of(0), Ok(String::from("area")));
    assert_eq!(iface.name_of(9), Err(OutOfRangeError { index: 9 }));
    let t = iface.types(1).expect("in range");
    assert_eq!(t.arguments, vec![WireKind::U64]);
    assert_eq!(t.output, WireKind::Unit);
    assert_eq!(t.receiver, Receiver::Mutable);
    assert!(iface.types(2).is_err());
}

#[test]
fn receiver_mutability() {
    assert!(Receiver::Mutable.is_mutable());
    assert!(!Receiver::Immutable.is_mutable());
    assert!(!Receiver::Owned.is_mutable());
}

#[test]
fn upcast_then_downcast_returns_the_object() {
    let obj = ErasedHandle {
        iface: TypeTag(7),
        supertraits: vec![TypeTag(1), TypeTag(2)],
        object: 42,
    };
    // upcast to a satisfied supertrait, then downcast to the same one
    let up = obj.clone().upcast(TypeTag(2)).expect("a satisfied supertrait");
    assert_eq!(up.iface, TypeTag(2));
    let back = up.downcast(TypeTag(2)).expect("downcast after upcast");
    assert_eq!(back.object, obj.object);
    assert_eq!(back.supertraits, obj.supertraits);
}

#[test]
fn casts_to_unsatisfiable_tags_fail() {
    let obj = ErasedHandle { iface: TypeTag(7), supertraits: vec![TypeTag(1)], object: 1 };
    assert_eq!(
        obj.clone().upcast(TypeTag(9)),
        Err(vessels::reflection::CastError { target: TypeTag(9) })
    );
    assert_eq!(
        obj.downcast(TypeTag(9)),
        Err(vessels::reflection::CastError { target: TypeTag(9) })
    );
}

#[test]
fn decimal_rendering() {
    assert_eq!(decimal_string(0), String::from("0"));
    assert_eq!(decimal_string(7), String::from("7"));
    assert_eq!(decimal_string(10), String::from("10"));
    assert_eq!(decimal_string(1234567890), String::from("1234567890"));
    assert_eq!(
        decimal_string(u64::MAX),
        String::from("18446744073709551615")
    );
}

#[test]
fn dispatch_errors_describe_themselves() {
    assert_eq!(
        CallError::Type(2).describe(),
        String::from("invalid type for argument 2")
    );
    assert_eq!(
        CallError::OutOfRange(OutOfRangeError { index: 5 }).describe(),
        String::from("method 5 out of range")
    );
    assert_eq!(
        CallError::ArgumentCount(ArgumentCountError { expected: 1, got: 2 }).describe(),
        String::from("got 2 arguments, expected 1")
    );
    assert_eq!(
        CallError::IncorrectReceiver(Receiver::Mutable).describe(),
        String::from("expected a mutable receiver")
    );
    assert_eq!(Receiver::Owned.describe(), String::from("an owned"));
}
