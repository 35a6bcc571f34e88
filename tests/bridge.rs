use denox::context::{Action, Evaluation, Event, Phase, MAX_DEPTH};
use denox::decode::{decode, decode_number};
use denox::encode::{encode, encode_entries, key_text};
use denox::number::Double;
use denox::term::{BridgeError, ConversionDetail, Direction, EngineValue, HostTerm};

fn num(x: f64) -> EngineValue {
    EngineValue::Number(x.to_bits())
}

fn s(text: &str) -> String {
    text.to_string()
}

fn round_trip(t: &HostTerm) -> HostTerm {
    let v = encode(t, MAX_DEPTH).unwrap();
    decode(&v, MAX_DEPTH).unwrap()
}

/// Drives one evaluation through a successful injection, compile and run.
fn run_to_completion(bindings: &Vec<(HostTerm, HostTerm)>, value: EngineValue) -> Result<HostTerm, BridgeError> {
    let (mut ev, action) = Evaluation::start(bindings);
    assert!(matches!(action, Action::Inject(_)));
    assert!(matches!(ev.step(Event::Injected), Action::Compile));
    assert!(matches!(ev.step(Event::CompileSucceeded), Action::Run));
    assert!(matches!(ev.step(Event::Completed(value)), Action::Release));
    assert!(matches!(ev.step(Event::Released), Action::Deliver));
    assert_eq!(ev.phase, Phase::Closed);
    ev.outcome.unwrap()
}

#[test]
fn round_trip_nested_term() {
    let t = HostTerm::List(vec![
        HostTerm::Nil,
        HostTerm::Boolean(true),
        HostTerm::Integer(-42),
        HostTerm::Str(s("hello")),
        HostTerm::Mapping(vec![
            (HostTerm::Str(s("inner")), HostTerm::List(vec![HostTerm::Integer(1), HostTerm::List(vec![])])),
            (HostTerm::Str(s("flag")), HostTerm::Boolean(false)),
        ]),
    ]);
    assert_eq!(round_trip(&t), t);
}

#[test]
fn round_trip_largest_exact_integers() {
    let big = 1i64 << 53;
    assert_eq!(round_trip(&HostTerm::Integer(big)), HostTerm::Integer(big));
    assert_eq!(round_trip(&HostTerm::Integer(-big)), HostTerm::Integer(-big));
    assert_eq!(round_trip(&HostTerm::Integer(i64::MIN)), HostTerm::Integer(i64::MIN));
}

#[test]
fn whole_float_comes_back_as_integer() {
    assert_eq!(round_trip(&HostTerm::Float(3.0f64.to_bits())), HostTerm::Integer(3));
    assert_eq!(round_trip(&HostTerm::Float(2.5f64.to_bits())), HostTerm::Float(2.5f64.to_bits()));
}

#[test]
fn symbol_becomes_string() {
    assert_eq!(round_trip(&HostTerm::Symbol(s("ok"))), HostTerm::Str(s("ok")));
}

#[test]
fn integer_widening_matches_binary64() {
    let cases: [i64; 9] = [0, 1, -1, 7, 1 << 52, (1 << 53) + 1, (1 << 53) + 3, i64::MAX, -(1 << 60) - 1];
    for i in cases {
        let d = Double::from_integer(i);
        assert_eq!(d.to_bits(), (i as f64).to_bits(), "widening {}", i);
    }
}

#[test]
fn large_integer_loses_precision() {
    let i = (1i64 << 53) + 1;
    assert_eq!(round_trip(&HostTerm::Integer(i)), HostTerm::Integer(1i64 << 53));
}

#[test]
fn number_decisions() {
    assert_eq!(decode_number(2.0f64.to_bits()), HostTerm::Integer(2));
    assert_eq!(decode_number((-0.0f64).to_bits()), HostTerm::Integer(0));
    assert_eq!(decode_number(0.5f64.to_bits()), HostTerm::Float(0.5f64.to_bits()));
    assert_eq!(decode_number(f64::NAN.to_bits()), HostTerm::Float(f64::NAN.to_bits()));
    assert_eq!(decode_number(f64::INFINITY.to_bits()), HostTerm::Float(f64::INFINITY.to_bits()));
    assert_eq!(decode_number(1e300f64.to_bits()), HostTerm::Float(1e300f64.to_bits()));
    assert_eq!(decode_number((-9223372036854775808.0f64).to_bits()), HostTerm::Integer(i64::MIN));
    assert_eq!(decode_number(9223372036854775808.0f64.to_bits()), HostTerm::Float(9223372036854775808.0f64.to_bits()));
    assert_eq!(decode_number(4503599627370497.0f64.to_bits()), HostTerm::Integer(4503599627370497));
}

#[test]
fn bits_split_and_join() {
    let bits = (-1.5f64).to_bits();
    let d = Double::from_bits(bits);
    assert!(d.negative);
    assert_eq!(d.exponent, 1023);
    assert_eq!(d.fraction, 1u64 << 51);
    assert_eq!(d.to_bits(), bits);
}

#[test]
fn determinism_one_plus_one() {
    assert_eq!(run_to_completion(&vec![], num(2.0)), Ok(HostTerm::Integer(2)));
}

#[test]
fn binding_injection() {
    let bindings = vec![
        (HostTerm::Str(s("x")), HostTerm::Integer(2)),
        (HostTerm::Str(s("y")), HostTerm::Integer(3)),
    ];
    let (_, action) = Evaluation::start(&bindings);
    assert_eq!(action, Action::Inject(vec![(s("x"), num(2.0)), (s("y"), num(3.0))]));
    assert_eq!(run_to_completion(&bindings, num(5.0)), Ok(HostTerm::Integer(5)));
}

#[test]
fn array_order_preserved() {
    let v = EngineValue::Array(vec![num(3.0), num(1.0), num(2.0)]);
    assert_eq!(
        run_to_completion(&vec![], v),
        Ok(HostTerm::List(vec![HostTerm::Integer(3), HostTerm::Integer(1), HostTerm::Integer(2)]))
    );
}

#[test]
fn object_conversion() {
    let v = EngineValue::Object(vec![(s("a"), num(1.0)), (s("b"), num(2.0))]);
    let t = run_to_completion(&vec![], v).unwrap();
    match t {
        HostTerm::Mapping(entries) => {
            assert_eq!(entries.len(), 2);
            assert!(entries.contains(&(HostTerm::Str(s("a")), HostTerm::Integer(1))));
            assert!(entries.contains(&(HostTerm::Str(s("b")), HostTerm::Integer(2))));
        }
        other => panic!("not a mapping: {:?}", other),
    }
}

#[test]
fn compile_failure() {
    let (mut ev, _) = Evaluation::start(&vec![]);
    ev.step(Event::Injected);
    assert!(matches!(ev.step(Event::CompileFailed(s("SyntaxError: Unexpected token '}'"))), Action::Release));
    assert_eq!(ev.phase, Phase::Failed);
    assert!(matches!(ev.step(Event::Released), Action::Deliver));
    assert_eq!(ev.outcome, Some(Err(BridgeError::Compile(s("SyntaxError: Unexpected token '}'")))));
}

#[test]
fn runtime_failure() {
    let (mut ev, _) = Evaluation::start(&vec![]);
    ev.step(Event::Injected);
    ev.step(Event::CompileSucceeded);
    assert!(matches!(ev.step(Event::Threw(s("Error: boom"))), Action::Release));
    match ev.outcome {
        Some(Err(BridgeError::RuntimeExecution(d))) => assert!(d.contains("boom")),
        other => panic!("unexpected outcome: {:?}", other),
    }
}

#[test]
fn out_of_order_event_is_ignored() {
    let (mut ev, _) = Evaluation::start(&vec![]);
    assert!(matches!(ev.step(Event::CompileSucceeded), Action::Ignore));
    assert_eq!(ev.phase, Phase::Created);
    assert_eq!(ev.outcome, None);
}

#[test]
fn injection_refused() {
    let (mut ev, _) = Evaluation::start(&vec![]);
    assert!(matches!(ev.step(Event::InjectionRefused), Action::Release));
    assert_eq!(
        ev.outcome,
        Some(Err(BridgeError::Conversion(Direction::Encode, ConversionDetail::CreationRefused)))
    );
}

#[test]
fn binding_with_integer_key_fails() {
    let bindings = vec![(HostTerm::Integer(1), HostTerm::Nil)];
    let (ev, action) = Evaluation::start(&bindings);
    assert!(matches!(action, Action::Release));
    assert_eq!(ev.phase, Phase::Failed);
    assert_eq!(
        ev.outcome,
        Some(Err(BridgeError::Conversion(Direction::Encode, ConversionDetail::UnnamedKey)))
    );
}

#[test]
fn symbol_keys_name_properties() {
    let entries = vec![(HostTerm::Symbol(s("k")), HostTerm::Boolean(true))];
    assert_eq!(encode_entries(&entries, 4), Ok(vec![(s("k"), EngineValue::Boolean(true))]));
    assert_eq!(key_text(&HostTerm::Symbol(s("k"))), Some(s("k")));
    assert_eq!(key_text(&HostTerm::Nil), None);
}

#[test]
fn opaque_values() {
    assert_eq!(decode(&EngineValue::Opaque(Some(s("function f() {}"))), 1), Ok(HostTerm::Str(s("function f() {}"))));
    assert_eq!(
        decode(&EngineValue::Opaque(None), 1),
        Err(BridgeError::Conversion(Direction::Decode, ConversionDetail::NoTextForm))
    );
    assert_eq!(decode(&EngineValue::Null, 1), Ok(HostTerm::Nil));
}

#[test]
fn nesting_beyond_depth_is_refused() {
    let t = HostTerm::List(vec![HostTerm::List(vec![HostTerm::Nil])]);
    assert_eq!(encode(&t, 2), Err(BridgeError::DepthExceeded));
    assert!(encode(&t, 3).is_ok());
    let v = EngineValue::Array(vec![EngineValue::Array(vec![])]);
    assert_eq!(decode(&v, 1), Err(BridgeError::DepthExceeded));
    assert_eq!(decode(&v, 2), Ok(HostTerm::List(vec![HostTerm::List(vec![])])));
}

#[test]
fn deep_result_fails_the_call() {
    let mut v = EngineValue::Null;
    for _ in 0..MAX_DEPTH {
        v = EngineValue::Array(vec![v]);
    }
    assert_eq!(run_to_completion(&vec![], v), Err(BridgeError::DepthExceeded));
}

#[test]
fn nested_unnamed_key_fails_encoding() {
    let t = HostTerm::List(vec![HostTerm::Mapping(vec![(HostTerm::Boolean(true), HostTerm::Nil)])]);
    assert_eq!(
        encode(&t, MAX_DEPTH),
        Err(BridgeError::Conversion(Direction::Encode, ConversionDetail::UnnamedKey))
    );
}

#[test]
fn mapping_encodes_in_entry_order() {
    let t = HostTerm::Mapping(vec![
        (HostTerm::Str(s("b")), HostTerm::Float(0.25f64.to_bits())),
        (HostTerm::Symbol(s("a")), HostTerm::Nil),
    ]);
    assert_eq!(
        encode(&t, 2),
        Ok(EngineValue::Object(vec![(s("b"), num(0.25)), (s("a"), EngineValue::Null)]))
    );
}
