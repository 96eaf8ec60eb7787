//! Reflection data for method-bearing interfaces: method signatures, the
//! errors a dispatch can raise, and the typed cast facility over an erased
//! object handle.

use vstd::prelude::*;
use vstd::slice::slice_to_vec;

use crate::codec::push_char;
use crate::wire::{prims_view, Call, PrimV, WireKind, prim_view_kind};

verus! {

/// The index of a method within its interface descriptor.
pub type MethodIndex = u8;

/// The reified identity of a reflected interface.
#[derive(Clone, Copy, Debug, PartialEq, Eq, Structural)]
pub struct TypeTag(pub u64);

/// How a method takes its receiver.
#[derive(Clone, Copy, Debug, PartialEq, Eq, Structural)]
pub enum Receiver {
    Mutable,
    Immutable,
    Owned,
}

impl Receiver {
    /// Whether this receiver kind takes the object mutably.
    pub fn is_mutable(&self) -> (r: bool)
        ensures
            r == (*self is Mutable),
    {
        if let Receiver::Mutable = self {
            true
        } else {
            false
        }
    }
}

/// The declared signature of one method: its argument types, the wire type
/// of its return kind's construct item, and its receiver.
#[derive(Clone, Debug, PartialEq)]
pub struct MethodTypes {
    pub arguments: Vec<WireKind>,
    pub output: WireKind,
    pub receiver: Receiver,
}

/// The view of a [`MethodTypes`].
pub struct MethodTypesV {
    pub arguments: Seq<WireKind>,
    pub output: WireKind,
    pub receiver: Receiver,
}

impl View for MethodTypes {
    type V = MethodTypesV;

    open spec fn view(&self) -> MethodTypesV {
        MethodTypesV {
            arguments: self.arguments@,
            output: self.output,
            receiver: self.receiver,
        }
    }
}

/// A method index that no method of the interface bears.
#[derive(Clone, Copy, Debug, PartialEq, Eq, Structural)]
pub struct OutOfRangeError {
    pub index: MethodIndex,
}

/// An invocation that handed the wrong number of arguments.
#[derive(Clone, Copy, Debug, PartialEq, Eq, Structural)]
pub struct ArgumentCountError {
    pub expected: usize,
    pub got: usize,
}

/// A method name that no method of the interface bears.
#[derive(Clone, Debug, PartialEq)]
pub struct NameError {
    pub name: String,
}

/// A cast to a type id that the object cannot satisfy.
#[derive(Clone, Copy, Debug, PartialEq, Eq, Structural)]
pub struct CastError {
    pub target: TypeTag,
}

/// The ways dispatching a method invocation can fail.
#[derive(Clone, Copy, Debug, PartialEq, Eq, Structural)]
pub enum CallError {
    /// An argument at the given position had the wrong type.
    Type(u8),
    /// The argument count did not match the declaration.
    ArgumentCount(ArgumentCountError),
    /// The method index was out of range.
    OutOfRange(OutOfRangeError),
    /// The receiver kind did not satisfy the declaration.
    IncorrectReceiver(Receiver),
}

/// Whether holding an object with receiver kind `held` permits invoking a
/// method declared with receiver kind `declared`: an owned handle permits
/// everything, a mutable one permits all but owned methods, an immutable
/// one only immutable methods.
pub open spec fn receiver_allows(held: Receiver, declared: Receiver) -> bool {
    match held {
        Receiver::Owned => true,
        Receiver::Mutable => !(declared is Owned),
        Receiver::Immutable => declared is Immutable,
    }
}

/// One method of an interface: its name and its declared signature.
#[derive(Clone, Debug, PartialEq)]
pub struct MethodDesc {
    pub name: String,
    pub types: MethodTypes,
}

/// The view of a [`MethodDesc`].
pub struct MethodDescV {
    pub name: Seq<char>,
    pub types: MethodTypesV,
}

impl View for MethodDesc {
    type V = MethodDescV;

    open spec fn view(&self) -> MethodDescV {
        MethodDescV { name: self.name@, types: self.types@ }
    }
}

/// The sequence of views of a sequence of method descriptors.
pub open spec fn methods_view(s: Seq<MethodDesc>) -> Seq<MethodDescV> {
    s.map_values(|m: MethodDesc| m@)
}

/// The static descriptor of a reflected interface: its reified identity,
/// its methods in declaration order, and its supertraits' identities.
#[derive(Clone, Debug, PartialEq)]
pub struct InterfaceDesc {
    pub this: TypeTag,
    pub name: String,
    pub methods: Vec<MethodDesc>,
    pub supertraits: Vec<TypeTag>,
}

/// The view of an [`InterfaceDesc`].
pub struct InterfaceDescV {
    pub this: TypeTag,
    pub name: Seq<char>,
    pub methods: Seq<MethodDescV>,
    pub supertraits: Seq<TypeTag>,
}

impl View for InterfaceDesc {
    type V = InterfaceDescV;

    open spec fn view(&self) -> InterfaceDescV {
        InterfaceDescV {
            this: self.this,
            name: self.name@,
            methods: methods_view(self.methods@),
            supertraits: self.supertraits@,
        }
    }
}

/// Argument validation from position `pos` on: the first position whose
/// argument's wire type differs from the declaration is the reported one.
pub open spec fn spec_check_args(
    declared: Seq<WireKind>,
    args: Seq<PrimV>,
    pos: nat,
) -> Result<(), CallError>
    decreases declared.len() - pos,
{
    if pos >= declared.len() {
        Ok(())
    } else if prim_view_kind(args[pos as int]) != declared[pos as int] {
        Err(CallError::Type(pos as u8))
    } else {
        spec_check_args(declared, args, pos + 1)
    }
}

/// What dispatching an invocation yields: the method index must be in
/// range, the argument count and each argument's wire type must match the
/// declaration, and the receiver kind must permit the method; the checks
/// are made in that order and the first failure is reported.
pub open spec fn spec_check_call(
    iface: InterfaceDescV,
    method: u64,
    args: Seq<PrimV>,
    held: Receiver,
) -> Result<(), CallError> {
    if method >= iface.methods.len() {
        Err(CallError::OutOfRange(OutOfRangeError { index: method as u8 }))
    } else {
        let m = iface.methods[method as int].types;
        if args.len() != m.arguments.len() {
            Err(
                CallError::ArgumentCount(
                    ArgumentCountError {
                        expected: m.arguments.len() as usize,
                        got: args.len() as usize,
                    },
                ),
            )
        } else if spec_check_args(m.arguments, args, 0) is Err {
            spec_check_args(m.arguments, args, 0)
        } else if !receiver_allows(held, m.receiver) {
            Err(CallError::IncorrectReceiver(m.receiver))
        } else {
            Ok(())
        }
    }
}

/// An interface descriptor a process can dispatch against: at most
/// [`MethodIndex`]-many methods, each with at most that many arguments.
pub open spec fn iface_wf(iface: InterfaceDescV) -> bool {
    &&& iface.methods.len() <= 255
    &&& forall|j: int|
        0 <= j < iface.methods.len() ==> (#[trigger] iface.methods[j]).types.arguments.len()
            <= 255
}

impl InterfaceDesc {
    /// The number of methods.
    pub fn count(&self) -> (r: MethodIndex)
        requires
            iface_wf(self@),
        ensures
            r == self@.methods.len(),
    {
        self.methods.len() as u8
    }

    /// The interface's reified identity.
    pub fn this(&self) -> (r: TypeTag)
        ensures
            r == self@.this,
    {
        self.this
    }

    /// The interface's name.
    pub fn name(&self) -> (r: String)
        ensures
            r@ == self@.name,
    {
        self.name.clone()
    }

    /// The supertraits' identities, one for each supertrait.
    pub fn supertraits(&self) -> (r: Vec<TypeTag>)
        ensures
            r@ == self@.supertraits,
    {
        slice_to_vec(self.supertraits.as_slice())
    }

    /// The name of the method at `index`, or an error naming the index if
    /// no method bears it.
    pub fn name_of(&self, index: MethodIndex) -> (r: Result<String, OutOfRangeError>)
        ensures
            match r {
                Ok(s) => index < self@.methods.len() && s@ == self@.methods[index as int].name,
                Err(e) => index >= self@.methods.len() && e == (OutOfRangeError { index }),
            },
    {
        if (index as usize) < self.methods.len() {
            Ok(self.methods[index as usize].name.clone())
        } else {
            Err(OutOfRangeError { index })
        }
    }

    /// The declared signature of the method at `index`.
    pub fn types(&self, index: MethodIndex) -> (r: Result<MethodTypes, OutOfRangeError>)
        ensures
            match r {
                Ok(t) => index < self@.methods.len() && t@ == self@.methods[index as int].types,
                Err(e) => index >= self@.methods.len() && e == (OutOfRangeError { index }),
            },
    {
        if (index as usize) < self.methods.len() {
            let m = &self.methods[index as usize];
            Ok(
                MethodTypes {
                    arguments: slice_to_vec(m.types.arguments.as_slice()),
                    output: m.types.output,
                    receiver: m.types.receiver,
                },
            )
        } else {
            Err(OutOfRangeError { index })
        }
    }

    /// The index of the first method with the given name, or an error
    /// carrying the name if none bears it.
    pub fn by_name(&self, name: &String) -> (r: Result<MethodIndex, NameError>)
        requires
            iface_wf(self@),
        ensures
            match r {
                Ok(i) => {
                    &&& i < self@.methods.len()
                    &&& self@.methods[i as int].name == name@
                    &&& forall|j: int| 0 <= j < i ==> self@.methods[j].name != name@
                },
                Err(e) => {
                    &&& forall|j: int|
                        0 <= j < self@.methods.len() ==> self@.methods[j].name != name@
                    &&& e.name@ == name@
                },
            },
    {
        let mut i: usize = 0;
        while i < self.methods.len()
            invariant
                iface_wf(self@),
                i <= self@.methods.len(),
                forall|j: int| 0 <= j < i ==> self@.methods[j].name != name@,
            decreases self@.methods.len() - i,
        {
            if self.methods[i].name == *name {
                return Ok(i as u8);
            }
            i = i + 1;
        }
        Err(NameError { name: name.clone() })
    }

    /// Validates one invocation frame against this interface, as the host
    /// shim does before dispatching it.
    pub fn check_call(&self, call: &Call, held: Receiver) -> (r: Result<(), CallError>)
        ensures
            r == spec_check_call(self@, call.method, prims_view(call.args@), held),
    {
        if call.method >= self.methods.len() as u64 {
            return Err(
                CallError::OutOfRange(
                    OutOfRangeError { index: #[verifier::truncate] (call.method as u8) },
                ),
            );
        }
        let m = &self.methods[call.method as usize];
        if call.args.len() != m.types.arguments.len() {
            return Err(
                CallError::ArgumentCount(
                    ArgumentCountError {
                        expected: m.types.arguments.len(),
                        got: call.args.len(),
                    },
                ),
            );
        }
        let ghost declared = m.types.arguments@;
        let ghost given = prims_view(call.args@);
        let mut pos: usize = 0;
        while pos < m.types.arguments.len()
            invariant
                call.method < self.methods@.len(),
                m == &self.methods@[call.method as int],
                declared == m.types.arguments@,
                given == prims_view(call.args@),
                given.len() == declared.len(),
                pos <= declared.len(),
                spec_check_args(declared, given, 0) == spec_check_args(
                    declared,
                    given,
                    pos as nat,
                ),
            decreases declared.len() - pos,
        {
            let k = call.args[pos].kind();
            if k != m.types.arguments[pos] {
                proof {
                    assert(spec_check_args(declared, given, pos as nat) == Err::<
                        (),
                        CallError,
                    >(CallError::Type(pos as u8)));
                }
                return Err(CallError::Type(pos as u8));
            }
            pos = pos + 1;
        }
        if !match held {
            Receiver::Owned => true,
            Receiver::Mutable => !(m.types.receiver == Receiver::Owned),
            Receiver::Immutable => m.types.receiver == Receiver::Immutable,
        } {
            return Err(CallError::IncorrectReceiver(m.types.receiver));
        }
        Ok(())
    }
}

/// The decimal digit characters in order.
pub open spec fn dec_digit(d: int) -> char {
    seq!['0', '1', '2', '3', '4', '5', '6', '7', '8', '9'][d]
}

/// The decimal rendering of a number, most significant digit first.
pub open spec fn spec_decimal(v: nat) -> Seq<char>
    decreases v,
{
    if v < 10 {
        seq![dec_digit(v as int)]
    } else {
        spec_decimal(v / 10).push(dec_digit((v % 10) as int))
    }
}

/// The character of one decimal digit.
fn digit_char(d: u64) -> (c: char)
    requires
        d < 10,
    ensures
        c == dec_digit(d as int),
{
    if d == 0 {
        '0'
    } else if d == 1 {
        '1'
    } else if d == 2 {
        '2'
    } else if d == 3 {
        '3'
    } else if d == 4 {
        '4'
    } else if d == 5 {
        '5'
    } else if d == 6 {
        '6'
    } else if d == 7 {
        '7'
    } else if d == 8 {
        '8'
    } else {
        '9'
    }
}

/// Renders a number in decimal.
pub fn decimal_string(v: u64) -> (s: String)
    ensures
        s@ == spec_decimal(v as nat),
    decreases v,
{
    if v < 10 {
        let mut s = String::new();
        push_char(&mut s, digit_char(v));
        proof {
            assert(s@ =~= spec_decimal(v as nat));
        }
        s
    } else {
        let mut s = decimal_string(v / 10);
        push_char(&mut s, digit_char(v % 10));
        s
    }
}

/// The wording for a receiver kind.
pub open spec fn spec_receiver_text(r: Receiver) -> Seq<char> {
    match r {
        Receiver::Mutable => "a mutable"@,
        Receiver::Immutable => "an immutable"@,
        Receiver::Owned => "an owned"@,
    }
}

impl Receiver {
    /// The wording for this receiver kind.
    pub fn describe(&self) -> (s: String)
        ensures
            s@ == spec_receiver_text(*self),
    {
        match self {
            Receiver::Mutable => String::from_str("a mutable"),
            Receiver::Immutable => String::from_str("an immutable"),
            Receiver::Owned => String::from_str("an owned"),
        }
    }
}

/// The wording for a dispatch error.
pub open spec fn spec_call_error_text(e: CallError) -> Seq<char> {
    match e {
        CallError::Type(p) => "invalid type for argument "@ + spec_decimal(p as nat),
        CallError::OutOfRange(o) => "method "@ + spec_decimal(o.index as nat)
            + " out of range"@,
        CallError::ArgumentCount(a) => "got "@ + spec_decimal(a.got as nat)
            + " arguments, expected "@ + spec_decimal(a.expected as nat),
        CallError::IncorrectReceiver(r) => "expected "@ + spec_receiver_text(r) + " receiver"@,
    }
}

impl CallError {
    /// The wording for this dispatch error.
    pub fn describe(&self) -> (s: String)
        ensures
            s@ == spec_call_error_text(*self),
    {
        match self {
            CallError::Type(p) => {
                let mut s = String::from_str("invalid type for argument ");
                let d = decimal_string(*p as u64);
                s.append(d.as_str());
                s
            }
            CallError::OutOfRange(o) => {
                let mut s = String::from_str("method ");
                let d = decimal_string(o.index as u64);
                s.append(d.as_str());
                s.append(" out of range");
                s
            }
            CallError::ArgumentCount(a) => {
                let mut s = String::from_str("got ");
                let d = decimal_string(a.got as u64);
                s.append(d.as_str());
                s.append(" arguments, expected ");
                let d2 = decimal_string(a.expected as u64);
                s.append(d2.as_str());
                s
            }
            CallError::IncorrectReceiver(r) => {
                let mut s = String::from_str("expected ");
                let d = r.describe();
                s.append(d.as_str());
                s.append(" receiver");
                s
            }
        }
    }
}

/// The view of an erased handle.
pub struct ErasedHandleV {
    pub iface: TypeTag,
    pub supertraits: Seq<TypeTag>,
    pub object: u64,
}

/// An owning handle over a reflected object whose concrete identity is
/// reified as a type tag: the interface it is currently viewed as, the
/// identities it can be upcast to, and the identity of the underlying
/// object itself.
#[derive(Clone, Debug, PartialEq)]
pub struct ErasedHandle {
    pub iface: TypeTag,
    pub supertraits: Vec<TypeTag>,
    pub object: u64,
}

impl View for ErasedHandle {
    type V = ErasedHandleV;

    open spec fn view(&self) -> ErasedHandleV {
        ErasedHandleV {
            iface: self.iface,
            supertraits: self.supertraits@,
            object: self.object,
        }
    }
}

/// What a downcast yields: the handle itself exactly when the requested
/// identity is the one the handle is viewed as.
pub open spec fn spec_downcast(h: ErasedHandleV, target: TypeTag) -> Result<
    ErasedHandleV,
    CastError,
> {
    if target == h.iface {
        Ok(h)
    } else {
        Err(CastError { target })
    }
}

/// What an upcast yields: the same object viewed as the requested
/// interface, exactly when that interface is among the supertraits.
pub open spec fn spec_upcast(h: ErasedHandleV, target: TypeTag) -> Result<
    ErasedHandleV,
    CastError,
> {
    if h.supertraits.contains(target) {
        Ok(ErasedHandleV { iface: target, supertraits: h.supertraits, object: h.object })
    } else {
        Err(CastError { target })
    }
}

impl ErasedHandle {
    /// Downcasts the handle to the requested identity, consuming it.
    pub fn downcast(self, target: TypeTag) -> (r: Result<ErasedHandle, CastError>)
        ensures
            match r {
                Ok(h) => spec_downcast(self@, target) == Ok::<ErasedHandleV, CastError>(h@),
                Err(e) => spec_downcast(self@, target) == Err::<ErasedHandleV, CastError>(e),
            },
    {
        if target == self.iface {
            Ok(self)
        } else {
            Err(CastError { target })
        }
    }

    /// Upcasts the handle to a satisfied supertrait, consuming it.
    pub fn upcast(self, target: TypeTag) -> (r: Result<ErasedHandle, CastError>)
        ensures
            match r {
                Ok(h) => spec_upcast(self@, target) == Ok::<ErasedHandleV, CastError>(h@),
                Err(e) => spec_upcast(self@, target) == Err::<ErasedHandleV, CastError>(e),
            },
    {
        let mut j: usize = 0;
        let mut found = false;
        while j < self.supertraits.len()
            invariant
                j <= self.supertraits@.len(),
                found == exists|k: int| 0 <= k < j && self.supertraits@[k] == target,
            decreases self.supertraits@.len() - j,
        {
            if self.supertraits[j] == target {
                found = true;
            }
            j = j + 1;
        }
        if found {
            Ok(ErasedHandle { iface: target, supertraits: self.supertraits, object: self.object })
        } else {
            proof {
                assert(!self.supertraits@.contains(target));
            }
            Err(CastError { target })
        }
    }
}

/// The cast law: upcasting to a satisfied supertrait and downcasting to
/// the same interface yields the original object back — same identity,
/// same supertraits.
pub proof fn lemma_cast_round_trip(h: ErasedHandleV, target: TypeTag)
    requires
        h.supertraits.contains(target),
    ensures
        spec_upcast(h, target) is Ok,
        spec_downcast(spec_upcast(h, target)->Ok_0, target) is Ok,
        spec_downcast(spec_upcast(h, target)->Ok_0, target)->Ok_0.object == h.object,
        spec_downcast(spec_upcast(h, target)->Ok_0, target)->Ok_0.supertraits == h.supertraits,
        spec_downcast(spec_upcast(h, target)->Ok_0, target)->Ok_0.iface == target,
{
}

} // verus!
