use rpcquickly::codec::Decode;
use rpcquickly::dispatcher::{
    CallError, CallableRpcFunction, DispatchError, Dispatcher, RpcFunction, RpcFunctionInfo,
};
use rpcquickly::types::{Signature, Type, TypeMismatchError};
use rpcquickly::value::Value;
use std::cell::Cell;
use std::rc::Rc;

/// A function that can be run in place.
trait Invoke: RpcFunction {
    fn invoke(&self, args: Self::Domain) -> Self::Range;
}

/// A registered function behind one uniform interface.
struct Handle(Box<dyn Fn(Value) -> Result<Value, CallError>>);

impl<RFn: Invoke + 'static> From<CallableRpcFunction<RFn>> for Handle {
    fn from(entry: CallableRpcFunction<RFn>) -> Self {
        Handle(Box::new(move |args| {
            let native = entry.begin_call(args)?;
            let retval = entry.rpc_function.invoke(native);
            entry.finish_call(retval)
        }))
    }
}

fn run(dispatcher: &Dispatcher<Handle>, name: &str, args: Value) -> Result<Value, DispatchError> {
    let entry = dispatcher.call(name)?;
    Dispatcher::<Handle>::finish((entry.handler.0)(args))
}

struct Hello;

impl RpcFunction for Hello {
    type Domain = String;
    type Range = String;

    fn name(&self) -> &str {
        "Hello"
    }

    fn signature(&self) -> Option<(Type, Type)> {
        None
    }
}

impl Invoke for Hello {
    fn invoke(&self, name: String) -> String {
        format!("Hello, {}!", name)
    }
}

struct MultipleChoice {
    answer: &'static str,
    calls: Rc<Cell<u32>>,
}

fn choices() -> Vec<Value> {
    vec![Value::from("a"), Value::from("b"), Value::from("c"), Value::from("d")]
}

impl RpcFunction for MultipleChoice {
    type Domain = String;
    type Range = String;

    fn name(&self) -> &str {
        "MultipleChoice"
    }

    fn signature(&self) -> Option<(Type, Type)> {
        Some((
            Type::one_of(choices()),
            Type::one_of(vec![Value::from("right"), Value::from("wrong")]),
        ))
    }
}

impl Invoke for MultipleChoice {
    fn invoke(&self, guess: String) -> String {
        self.calls.set(self.calls.get() + 1);
        if guess == self.answer {
            "right".to_string()
        } else {
            "wrong".to_string()
        }
    }
}

/// Claims to return a choice, and returns something else.
struct Liar;

impl RpcFunction for Liar {
    type Domain = ();
    type Range = String;

    fn name(&self) -> &str {
        "Liar"
    }

    fn signature(&self) -> Option<(Type, Type)> {
        Some((Type::Nil, Type::one_of(vec![Value::from("right"), Value::from("wrong")])))
    }
}

impl Invoke for Liar {
    fn invoke(&self, _args: ()) -> String {
        "maybe".to_string()
    }
}

/// States a wider domain than its native parameter can take.
struct Wide;

impl RpcFunction for Wide {
    type Domain = i64;
    type Range = i64;

    fn name(&self) -> &str {
        "Wide"
    }

    fn signature(&self) -> Option<(Type, Type)> {
        Some((Type::Any, Type::Int))
    }
}

impl Invoke for Wide {
    fn invoke(&self, n: i64) -> i64 {
        n.wrapping_add(1)
    }
}

struct Named {
    name: &'static str,
    reply: i64,
}

impl RpcFunction for Named {
    type Domain = Value;
    type Range = i64;

    fn name(&self) -> &str {
        self.name
    }

    fn signature(&self) -> Option<(Type, Type)> {
        Some((Type::Any, Type::Int))
    }
}

impl Invoke for Named {
    fn invoke(&self, _args: Value) -> i64 {
        self.reply
    }
}

fn names(directory: &[RpcFunctionInfo]) -> Vec<String> {
    directory.iter().map(|info| info.name().to_string()).collect()
}

fn with_multiple_choice(answer: &'static str) -> (Dispatcher<Handle>, Rc<Cell<u32>>) {
    let calls = Rc::new(Cell::new(0));
    let mut dispatcher = Dispatcher::new();
    dispatcher.add(MultipleChoice { answer, calls: calls.clone() });
    (dispatcher, calls)
}

#[test]
fn hello_greets() {
    let mut dispatcher: Dispatcher<Handle> = Dispatcher::new();
    dispatcher.add_infer_signature(Hello);
    let retval = run(&dispatcher, "Hello", Value::from("world")).unwrap();
    assert_eq!(retval, Value::from("Hello, world!"));
    assert_eq!(String::decode(retval), Some("Hello, world!".to_string()));
}

#[test]
fn hello_has_the_inferred_signature() {
    let mut dispatcher: Dispatcher<Handle> = Dispatcher::new();
    dispatcher.add_infer_signature(Hello);
    let directory = dispatcher.rpc_functions();
    assert_eq!(directory.len(), 1);
    assert_eq!(directory[0].name(), "Hello");
    assert_eq!(directory[0].signature().domain.to_string(), "String");
    assert_eq!(directory[0].signature().range.to_string(), "String");
}

#[test]
fn multiple_choice_has_one_right_answer() {
    for answer in ["a", "b", "c", "d"] {
        let (dispatcher, calls) = with_multiple_choice(answer);
        let mut rights = 0;
        let mut wrongs = 0;
        for guess in ["a", "b", "c", "d"] {
            let retval = run(&dispatcher, "MultipleChoice", Value::from(guess)).unwrap();
            if retval == Value::from("right") {
                assert_eq!(guess, answer);
                rights += 1;
            } else {
                assert_eq!(retval, Value::from("wrong"));
                wrongs += 1;
            }
        }
        assert_eq!(rights, 1);
        assert_eq!(wrongs, 3);
        assert_eq!(calls.get(), 4);
    }
}

#[test]
fn bad_domain_values_never_reach_the_function() {
    let (dispatcher, calls) = with_multiple_choice("a");
    let expected = [
        "<\"x\"> :/: OneOf(<\"a\">, <\"b\">, <\"c\">, <\"d\">)",
        "<10> :/: OneOf(<\"a\">, <\"b\">, <\"c\">, <\"d\">)",
        "<Nil> :/: OneOf(<\"a\">, <\"b\">, <\"c\">, <\"d\">)",
    ];
    let bad = [Value::from("x"), Value::from(10), Value::from(())];
    for (bad_guess, message) in bad.into_iter().zip(expected) {
        match run(&dispatcher, "MultipleChoice", bad_guess) {
            Err(DispatchError::CallError(CallError::Domain(mismatch))) => {
                assert_eq!(mismatch.to_string(), message);
            }
            other => panic!("no domain error: {:?}", other),
        }
    }
    assert_eq!(calls.get(), 0);
}

#[test]
fn a_value_outside_the_range_is_withheld() {
    let mut dispatcher: Dispatcher<Handle> = Dispatcher::new();
    dispatcher.add(Liar);
    match run(&dispatcher, "Liar", Value::Nil) {
        Err(DispatchError::CallError(CallError::Range(mismatch))) => {
            assert_eq!(mismatch.to_string(), "<\"maybe\"> :/: OneOf(<\"right\">, <\"wrong\">)");
        }
        other => panic!("no range error: {:?}", other),
    }
}

#[test]
fn an_admitted_value_that_does_not_convert_is_a_domain_error() {
    let mut dispatcher: Dispatcher<Handle> = Dispatcher::new();
    dispatcher.add(Wide);
    assert_eq!(run(&dispatcher, "Wide", Value::Int(1)).unwrap(), Value::Int(2));
    match run(&dispatcher, "Wide", Value::from("one")) {
        Err(DispatchError::CallError(CallError::Domain(mismatch))) => {
            assert_eq!(mismatch.to_string(), "<\"one\"> -/-> i64");
        }
        other => panic!("no domain error: {:?}", other),
    }
}

#[test]
fn unknown_function() {
    let (dispatcher, calls) = with_multiple_choice("a");
    assert!(matches!(run(&dispatcher, "Nope", Value::Nil), Err(DispatchError::NoSuchFunction)));
    assert!(matches!(dispatcher.call("Nope"), Err(DispatchError::NoSuchFunction)));
    assert!(matches!(dispatcher.call("multiplechoice"), Err(DispatchError::NoSuchFunction)));
    assert!(matches!(dispatcher.call(""), Err(DispatchError::NoSuchFunction)));
    assert!(dispatcher.call("MultipleChoice").is_ok());
    assert_eq!(calls.get(), 0);
}

#[test]
fn an_empty_registry_knows_no_function() {
    let dispatcher: Dispatcher<Handle> = Dispatcher::new();
    assert!(dispatcher.rpc_functions().is_empty());
    assert!(matches!(dispatcher.call("Hello"), Err(DispatchError::NoSuchFunction)));
}

#[test]
fn directory_lists_hello_and_multiple_choice() {
    let calls = Rc::new(Cell::new(0));
    let mut dispatcher: Dispatcher<Handle> = Dispatcher::new();
    dispatcher.add(MultipleChoice { answer: "b", calls });
    dispatcher.add_infer_signature(Hello);
    let directory = dispatcher.rpc_functions();
    assert_eq!(names(&directory), ["Hello", "MultipleChoice"]);
    assert_eq!(directory[0].signature().domain.to_string(), "String");
    assert_eq!(directory[0].signature().range.to_string(), "String");
    assert_eq!(
        directory[1].signature().domain.to_string(),
        "OneOf(<\"a\">, <\"b\">, <\"c\">, <\"d\">)"
    );
    assert_eq!(directory[1].signature().range.to_string(), "OneOf(<\"right\">, <\"wrong\">)");
}

#[test]
fn directory_is_sorted_by_name() {
    let mut dispatcher: Dispatcher<Handle> = Dispatcher::new();
    for name in ["delta", "alpha", "charlie", "Bravo", "echo", "alphabet", ""] {
        dispatcher.add(Named { name, reply: 0 });
    }
    let directory = dispatcher.rpc_functions();
    assert_eq!(names(&directory), ["", "Bravo", "alpha", "alphabet", "charlie", "delta", "echo"]);
}

#[test]
fn a_second_registration_replaces_the_first() {
    let mut dispatcher: Dispatcher<Handle> = Dispatcher::new();
    dispatcher.add(Named { name: "f", reply: 1 });
    dispatcher.add(Named { name: "g", reply: 10 });
    assert_eq!(run(&dispatcher, "f", Value::Nil).unwrap(), Value::Int(1));
    dispatcher.add(Named { name: "f", reply: 2 });
    assert_eq!(names(&dispatcher.rpc_functions()), ["f", "g"]);
    assert_eq!(run(&dispatcher, "f", Value::Nil).unwrap(), Value::Int(2));
    assert_eq!(run(&dispatcher, "g", Value::Nil).unwrap(), Value::Int(10));
}

#[test]
fn insert_takes_name_signature_and_handler() {
    let mut dispatcher: Dispatcher<u32> = Dispatcher::new();
    dispatcher.insert("b".to_string(), Signature { domain: Type::Int, range: Type::Nil }, 2);
    dispatcher.insert("a".to_string(), Signature { domain: Type::Nil, range: Type::Int }, 1);
    dispatcher.insert("b".to_string(), Signature { domain: Type::Any, range: Type::Any }, 3);
    let directory = dispatcher.rpc_functions();
    assert_eq!(names(&directory), ["a", "b"]);
    assert_eq!(directory[1].signature().domain.to_string(), "Any");
    let entry = dispatcher.call("b").unwrap();
    assert_eq!(entry.name, "b");
    assert_eq!(entry.handler, 3);
    assert_eq!(dispatcher.call("a").unwrap().handler, 1);
}

#[test]
fn the_stages_of_a_call() {
    let calls = Rc::new(Cell::new(0));
    let entry = CallableRpcFunction::new(MultipleChoice { answer: "c", calls });
    assert_eq!(entry.name(), "MultipleChoice");
    assert_eq!(entry.signature().range.to_string(), "OneOf(<\"right\">, <\"wrong\">)");
    assert_eq!(entry.begin_call(Value::from("c")).unwrap(), "c");
    assert!(matches!(entry.begin_call(Value::from("e")), Err(CallError::Domain(_))));
    assert_eq!(entry.finish_call("right".to_string()).unwrap(), Value::from("right"));
    assert!(matches!(entry.finish_call("c".to_string()), Err(CallError::Range(_))));
    let inferred = CallableRpcFunction::new_infer_signature(Hello);
    assert_eq!(inferred.signature().domain.to_string(), "String");
    assert_eq!(inferred.begin_call(Value::from("anything")).unwrap(), "anything");
    assert!(matches!(inferred.begin_call(Value::Int(1)), Err(CallError::Domain(_))));
}

#[test]
fn error_messages() {
    assert_eq!(DispatchError::NoSuchFunction.to_string(), "no function with given name");
    let mismatch = TypeMismatchError::rpc_type(&Type::Int, &Value::Nil);
    assert_eq!(
        CallError::Domain(mismatch.clone()).to_string(),
        "domain type mismatch: <Nil> :/: Int"
    );
    assert_eq!(
        CallError::Range(mismatch.clone()).to_string(),
        "(BUG in RPC function) range type mismatch: <Nil> :/: Int"
    );
    assert_eq!(
        DispatchError::CallError(CallError::Domain(mismatch.clone())).to_string(),
        "calling function: domain type mismatch: <Nil> :/: Int"
    );
    assert_eq!(
        DispatchError::from(CallError::Range(mismatch)).to_string(),
        "calling function: (BUG in RPC function) range type mismatch: <Nil> :/: Int"
    );
}

#[test]
fn finish_wraps_the_error_of_a_call() {
    assert_eq!(Dispatcher::<Handle>::finish(Ok(Value::Int(1))).unwrap(), Value::Int(1));
    let mismatch = TypeMismatchError::rust_type(&Value::Nil, "i64");
    match Dispatcher::<Handle>::finish(Err(CallError::Domain(mismatch))) {
        Err(DispatchError::CallError(CallError::Domain(m))) => {
            assert_eq!(m.to_string(), "<Nil> -/-> i64");
        }
        other => panic!("not wrapped: {:?}", other),
    }
}

#[test]
fn directory_entries_can_be_built_and_copied() {
    let info = RpcFunctionInfo::new("f".to_string(), Signature { domain: Type::Int, range: Type::Nil });
    let copy = info.clone();
    assert_eq!(copy.name(), "f");
    assert_eq!(copy.signature().domain.to_string(), "Int");
    assert_eq!(copy.signature().range.to_string(), "Nil");
}

#[test]
fn a_default_registry_is_empty() {
    let dispatcher: Dispatcher<Handle> = Dispatcher::default();
    assert!(dispatcher.rpc_functions().is_empty());
}
