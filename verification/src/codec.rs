//! Conversions between native types and dynamic values, with and without
//! a type check.

use crate::types::{
    admits, native_mismatch_text, type_mismatch_text, Type, TypeMismatchError, TypeView,
};
use crate::value::{Value, ValueView};
use vstd::prelude::*;

verus! {

/// A native type that knows the [`Type`] of its encodings.
pub trait InferType {
    /// The content of the inferred type.
    spec fn inferred() -> TypeView;

    /// The type that admits the encodings of this native type.
    fn infer_type() -> (t: Type)
        ensures
            t@ == Self::inferred(),
            t.wf(),
    ;
}

/// A native type that can be read from a [`Value`].
pub trait Decode: Sized {
    /// Whether `v` converts to this type.
    spec fn decodable(v: ValueView) -> bool;

    /// Whether `out` is what `v` converts to.
    spec fn decodes_to(v: ValueView, out: Self) -> bool;

    /// The name under which this type appears in mismatch messages.
    spec fn native_name_spec() -> Seq<char>;

    /// Converts `val`, or rejects it where its variant does not fit.
    fn decode(val: Value) -> (r: Option<Self>)
        ensures
            r is Some <==> Self::decodable(val@),
            r matches Some(out) ==> Self::decodes_to(val@, out),
    ;

    /// The name under which this type appears in mismatch messages.
    fn native_name() -> (name: &'static str)
        ensures
            name@ == Self::native_name_spec(),
    ;
}

/// A native type that can be written as a [`Value`]. Encoding is total.
pub trait Encode: Sized {
    /// The content of the value that `self` encodes to.
    spec fn encoded(self) -> ValueView;

    /// Converts `val` to a value.
    fn encode(val: Self) -> (v: Value)
        ensures
            v@ == val.encoded(),
    ;
}

impl InferType for () {
    open spec fn inferred() -> TypeView {
        TypeView::Nil
    }

    fn infer_type() -> (t: Type) {
        Type::Nil
    }
}

impl Encode for () {
    open spec fn encoded(self) -> ValueView {
        ValueView::Nil
    }

    fn encode(val: ()) -> (v: Value) {
        Value::Nil
    }
}

impl Decode for () {
    open spec fn decodable(v: ValueView) -> bool {
        v is Nil
    }

    open spec fn decodes_to(v: ValueView, out: ()) -> bool {
        v is Nil
    }

    open spec fn native_name_spec() -> Seq<char> {
        seq!['(', ')']
    }

    fn decode(val: Value) -> (r: Option<()>) {
        match val {
            Value::Nil => Some(()),
            _ => None,
        }
    }

    fn native_name() -> (name: &'static str) {
        proof {
            reveal_strlit("()");
        }
        assert("()"@ =~= Self::native_name_spec());
        "()"
    }
}

impl InferType for i64 {
    open spec fn inferred() -> TypeView {
        TypeView::Int
    }

    fn infer_type() -> (t: Type) {
        Type::Int
    }
}

impl Encode for i64 {
    open spec fn encoded(self) -> ValueView {
        ValueView::Int(self)
    }

    fn encode(val: i64) -> (v: Value) {
        Value::Int(val)
    }
}

impl Decode for i64 {
    open spec fn decodable(v: ValueView) -> bool {
        v is Int
    }

    open spec fn decodes_to(v: ValueView, out: i64) -> bool {
        v == ValueView::Int(out)
    }

    open spec fn native_name_spec() -> Seq<char> {
        seq!['i', '6', '4']
    }

    fn decode(val: Value) -> (r: Option<i64>) {
        match val {
            Value::Int(n) => Some(n),
            _ => None,
        }
    }

    fn native_name() -> (name: &'static str) {
        proof {
            reveal_strlit("i64");
        }
        assert("i64"@ =~= Self::native_name_spec());
        "i64"
    }
}

impl InferType for String {
    open spec fn inferred() -> TypeView {
        TypeView::String
    }

    fn infer_type() -> (t: Type) {
        Type::String
    }
}

impl Encode for String {
    open spec fn encoded(self) -> ValueView {
        ValueView::String(self@)
    }

    fn encode(val: String) -> (v: Value) {
        Value::String(val)
    }
}

impl Decode for String {
    open spec fn decodable(v: ValueView) -> bool {
        v is String
    }

    open spec fn decodes_to(v: ValueView, out: String) -> bool {
        v == ValueView::String(out@)
    }

    open spec fn native_name_spec() -> Seq<char> {
        seq!['a', 'l', 'l', 'o', 'c', ':', ':', 's', 't', 'r', 'i', 'n', 'g', ':', ':', 'S', 't', 'r', 'i', 'n', 'g']
    }

    fn decode(val: Value) -> (r: Option<String>) {
        match val {
            Value::String(s) => Some(s),
            _ => None,
        }
    }

    fn native_name() -> (name: &'static str) {
        proof {
            reveal_strlit("alloc::string::String");
        }
        assert("alloc::string::String"@ =~= Self::native_name_spec());
        "alloc::string::String"
    }
}

impl InferType for Value {
    open spec fn inferred() -> TypeView {
        TypeView::Any
    }

    fn infer_type() -> (t: Type) {
        Type::Any
    }
}

impl Encode for Value {
    open spec fn encoded(self) -> ValueView {
        self@
    }

    fn encode(val: Value) -> (v: Value) {
        val
    }
}

impl Decode for Value {
    open spec fn decodable(v: ValueView) -> bool {
        true
    }

    open spec fn decodes_to(v: ValueView, out: Value) -> bool {
        out@ == v
    }

    open spec fn native_name_spec() -> Seq<char> {
        seq!['r', 'p', 'c', 'q', 'u', 'i', 'c', 'k', 'l', 'y', ':', ':', 'v', 'a', 'l', 'u', 'e', ':', ':', 'V', 'a', 'l', 'u', 'e']
    }

    fn decode(val: Value) -> (r: Option<Value>) {
        Some(val)
    }

    fn native_name() -> (name: &'static str) {
        proof {
            reveal_strlit("rpcquickly::value::Value");
        }
        assert("rpcquickly::value::Value"@ =~= Self::native_name_spec());
        "rpcquickly::value::Value"
    }
}

impl<'a> InferType for &'a str {
    open spec fn inferred() -> TypeView {
        TypeView::String
    }

    fn infer_type() -> (t: Type) {
        Type::String
    }
}

impl<'a> Encode for &'a str {
    open spec fn encoded(self) -> ValueView {
        ValueView::String(self@)
    }

    fn encode(val: &'a str) -> (v: Value) {
        Value::String(val.to_owned())
    }
}

/// Decoding behind a type check.
pub trait DecodeTypeCheck: Decode {
    /// Checks `val` against `ty`, then converts it. A value that `ty`
    /// admits but that does not convert is a mismatch against the native
    /// type.
    fn decode_typeck(ty: &Type, val: Value) -> (r: Result<Self, TypeMismatchError>)
        ensures
            r is Ok <==> admits(ty@, val@) && Self::decodable(val@),
            r matches Ok(out) ==> Self::decodes_to(val@, out),
            r matches Err(e) ==> if admits(ty@, val@) {
                e@ == native_mismatch_text(val@, Self::native_name_spec())
            } else {
                e@ == type_mismatch_text(ty@, val@)
            },
    ;
}

/// Encoding followed by a type check.
pub trait EncodeTypeCheck: Encode {
    /// Converts `val`, then checks the value against `ty`.
    fn encode_typeck(ty: &Type, val: Self) -> (r: Result<Value, TypeMismatchError>)
        ensures
            r is Ok <==> admits(ty@, val.encoded()),
            r matches Ok(v) ==> v@ == val.encoded(),
            r matches Err(e) ==> e@ == type_mismatch_text(ty@, val.encoded()),
    ;

    /// Converts `val`, whose encoding the inferred type must admit.
    fn encode_infer(val: Self) -> (v: Value) where Self: InferType + Sized
        requires
            admits(Self::inferred(), val.encoded()),
        ensures
            v@ == val.encoded(),
    ;
}

impl<T: Decode> DecodeTypeCheck for T {
    fn decode_typeck(ty: &Type, val: Value) -> (r: Result<Self, TypeMismatchError>) {
        match ty.check(&val) {
            Err(e) => Err(e),
            Ok(()) => {
                let kept = val.clone();
                match T::decode(val) {
                    Some(out) => Ok(out),
                    None => Err(TypeMismatchError::rust_type(&kept, T::native_name())),
                }
            },
        }
    }
}

impl<T: Encode> EncodeTypeCheck for T {
    fn encode_typeck(ty: &Type, val: Self) -> (r: Result<Value, TypeMismatchError>) {
        let v = Self::encode(val);
        match ty.check(&v) {
            Err(e) => Err(e),
            Ok(()) => Ok(v),
        }
    }

    fn encode_infer(val: Self) -> (v: Value) where Self: InferType + Sized {
        let v = Self::encode(val);
        v
    }
}

/// Decoding the encoding of a unit gives the unit back.
pub proof fn lemma_roundtrip_unit(x: ())
    ensures
        <()>::decodable(x.encoded()),
        <()>::decodes_to(x.encoded(), x),
{
}

/// Decoding the encoding of an integer gives the integer back.
pub proof fn lemma_roundtrip_int(x: i64)
    ensures
        i64::decodable(x.encoded()),
        forall|y: i64| i64::decodes_to(x.encoded(), y) <==> y == x,
{
}

/// Decoding the encoding of a string gives a string with the same text.
pub proof fn lemma_roundtrip_string(x: String)
    ensures
        String::decodable(x.encoded()),
        forall|y: String| String::decodes_to(x.encoded(), y) <==> y@ == x@,
{
}

/// Decoding the encoding of a value gives a value with the same content.
pub proof fn lemma_roundtrip_value(x: Value)
    ensures
        Value::decodable(x.encoded()),
        forall|y: Value| Value::decodes_to(x.encoded(), y) <==> y@ == x@,
{
}

/// The type inferred for a built-in native type admits every encoding of
/// a value of that type.
pub proof fn lemma_inferred_admits_encoded(unit: (), n: i64, s: String, slice: &str, v: Value)
    ensures
        admits(<()>::inferred(), unit.encoded()),
        admits(i64::inferred(), n.encoded()),
        admits(String::inferred(), s.encoded()),
        admits(<&str>::inferred(), slice.encoded()),
        admits(Value::inferred(), v.encoded()),
{
}

} // verus!
