use rpcquickly::codec::{Decode, DecodeTypeCheck, Encode, EncodeTypeCheck, InferType};
use rpcquickly::types::Type;
use rpcquickly::value::Value;

#[test]
fn units_survive_a_round_trip() {
    assert_eq!(<()>::decode(<()>::encode(())), Some(()));
}

#[test]
fn integers_survive_a_round_trip() {
    for n in [0i64, 1, -1, 42, i64::MAX, i64::MIN] {
        assert_eq!(i64::decode(i64::encode(n)), Some(n));
    }
}

#[test]
fn strings_survive_a_round_trip() {
    for s in ["", "a", "Hello, world!", "héllo"] {
        assert_eq!(String::decode(String::encode(s.to_string())), Some(s.to_string()));
    }
}

#[test]
fn values_survive_a_round_trip() {
    for v in [Value::Nil, Value::Int(5), Value::from("v")] {
        assert_eq!(Value::decode(Value::encode(v.clone())), Some(v));
    }
}

#[test]
fn encodings_of_the_native_types() {
    assert_eq!(<()>::encode(()), Value::Nil);
    assert_eq!(i64::encode(-7), Value::Int(-7));
    assert_eq!(String::encode("s".to_string()), Value::String("s".to_string()));
    assert_eq!(<&str>::encode("s"), Value::String("s".to_string()));
    assert_eq!(Value::encode(Value::Int(1)), Value::Int(1));
}

#[test]
fn decoding_rejects_other_variants() {
    assert_eq!(<()>::decode(Value::Int(0)), None);
    assert_eq!(<()>::decode(Value::from("")), None);
    assert_eq!(i64::decode(Value::Nil), None);
    assert_eq!(i64::decode(Value::from("1")), None);
    assert_eq!(String::decode(Value::Nil), None);
    assert_eq!(String::decode(Value::Int(1)), None);
}

#[test]
fn inferred_types_of_the_native_types() {
    assert_eq!(<()>::infer_type().to_string(), "Nil");
    assert_eq!(i64::infer_type().to_string(), "Int");
    assert_eq!(String::infer_type().to_string(), "String");
    assert_eq!(<&str>::infer_type().to_string(), "String");
    assert_eq!(Value::infer_type().to_string(), "Any");
}

#[test]
fn the_inferred_type_admits_every_encoding() {
    assert_eq!(<()>::encode_typeck(&<()>::infer_type(), ()).unwrap(), Value::Nil);
    for n in [0i64, -1, i64::MAX] {
        assert_eq!(i64::encode_typeck(&i64::infer_type(), n).unwrap(), Value::Int(n));
    }
    assert_eq!(
        String::encode_typeck(&String::infer_type(), "s".to_string()).unwrap(),
        Value::from("s")
    );
    assert_eq!(<&str>::encode_typeck(&<&str>::infer_type(), "s").unwrap(), Value::from("s"));
    for v in [Value::Nil, Value::Int(5), Value::from("v")] {
        assert_eq!(Value::encode_typeck(&Value::infer_type(), v.clone()).unwrap(), v);
    }
}

#[test]
fn encode_infer_encodes() {
    assert_eq!(<()>::encode_infer(()), Value::Nil);
    assert_eq!(i64::encode_infer(9), Value::Int(9));
    assert_eq!(String::encode_infer("s".to_string()), Value::from("s"));
    assert_eq!(<&str>::encode_infer("s"), Value::from("s"));
    assert_eq!(Value::encode_infer(Value::Nil), Value::Nil);
}

#[test]
fn checked_decoding_checks_first() {
    let err = i64::decode_typeck(&Type::String, Value::Int(1)).unwrap_err();
    assert_eq!(err.to_string(), "<1> :/: String");
    assert_eq!(i64::decode_typeck(&Type::Int, Value::Int(1)).unwrap(), 1);
    assert_eq!(i64::decode_typeck(&Type::Any, Value::Int(1)).unwrap(), 1);
    let narrow = Type::one_of(vec![Value::Int(1), Value::Int(2)]);
    assert_eq!(i64::decode_typeck(&narrow, Value::Int(2)).unwrap(), 2);
    let err = i64::decode_typeck(&narrow, Value::Int(3)).unwrap_err();
    assert_eq!(err.to_string(), "<3> :/: OneOf(<1>, <2>)");
}

#[test]
fn checked_decoding_reports_the_native_type() {
    let err = i64::decode_typeck(&Type::Any, Value::from("x")).unwrap_err();
    assert_eq!(err.to_string(), "<\"x\"> -/-> i64");
    let err = String::decode_typeck(&Type::Any, Value::Nil).unwrap_err();
    assert_eq!(err.to_string(), "<Nil> -/-> alloc::string::String");
    let err = <()>::decode_typeck(&Type::Int, Value::Int(4)).unwrap_err();
    assert_eq!(err.to_string(), "<4> -/-> ()");
    assert_eq!(Value::native_name(), "rpcquickly::value::Value");
}

#[test]
fn checked_encoding_checks_the_encoded_value() {
    let narrow = Type::one_of(vec![Value::from("right"), Value::from("wrong")]);
    assert_eq!(
        String::encode_typeck(&narrow, "right".to_string()).unwrap(),
        Value::from("right")
    );
    let err = String::encode_typeck(&narrow, "maybe".to_string()).unwrap_err();
    assert_eq!(err.to_string(), "<\"maybe\"> :/: OneOf(<\"right\">, <\"wrong\">)");
    let err = i64::encode_typeck(&Type::Nil, 1).unwrap_err();
    assert_eq!(err.to_string(), "<1> :/: Nil");
}
