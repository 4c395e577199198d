use curly::canon::SumLayout;
use curly::error::CompileError;
use curly::names::sanitise_symbol;
use curly::runtime::{
    box_argument, cast_between_sums, cast_into_sum, push_arguments, unbox_argument, BoundArg,
    CallStep, ClosureValue, Slot, TaggedValue, Value,
};
use curly::types::{HashSetWrapper, Type};

fn word(w: u64) -> BoundArg {
    BoundArg { slot: Slot::Word(w), cleanup: false }
}

#[test]
fn cast_reads_back_the_member() {
    let s = SumLayout { members: vec![Type::Bool, Type::Int, Type::Float] };
    let v = cast_into_sum(&s, &Type::Int, Value::Int(42)).unwrap();
    assert_eq!(v, TaggedValue { tag: 1, payload: Value::Int(42) });
    assert!(matches!(s.member(v.tag), Some(Type::Int)));
    assert_eq!(v.payload, Value::Int(42));
}

#[test]
fn cast_between_sums_remaps_the_tag() {
    let narrow = SumLayout { members: vec![Type::Int, Type::Bool] };
    let wide = SumLayout { members: vec![Type::Float, Type::Bool, Type::Int] };
    let v = cast_into_sum(&narrow, &Type::Int, Value::Int(7)).unwrap();
    let w = cast_between_sums(&narrow, &wide, v).unwrap();
    assert_eq!(w, TaggedValue { tag: 2, payload: Value::Int(7) });
    assert_eq!(w, cast_into_sum(&wide, &Type::Int, Value::Int(7)).unwrap());
    assert_eq!(cast_between_sums(&narrow, &narrow, v).unwrap(), v);
}

#[test]
fn cast_to_a_missing_member_fails() {
    let s = SumLayout { members: vec![Type::Int] };
    let r = cast_into_sum(&s, &Type::Bool, Value::Bool(true));
    assert_eq!(r, Err(CompileError::InternalInvariantViolation));
    let bad = TaggedValue { tag: 5, payload: Value::Int(1) };
    assert_eq!(cast_between_sums(&s, &s, bad), Err(CompileError::InternalInvariantViolation));
    let wide = SumLayout { members: vec![Type::Int, Type::Bool] };
    let b = TaggedValue { tag: 1, payload: Value::Bool(false) };
    assert_eq!(cast_between_sums(&wide, &s, b), Err(CompileError::InternalInvariantViolation));
}

#[test]
fn boxing_round_trips() {
    let func = Type::Func(Box::new(Type::Int), Box::new(Type::Int));
    let fsum = Type::Sum(HashSetWrapper(vec![Type::Int, func.deep_copy()]));
    let isum = Type::Sum(HashSetWrapper(vec![Type::Int, Type::Bool]));
    let cases: Vec<(Type, Value, BoundArg)> = vec![
        (Type::Int, Value::Int(-5), word(u64::MAX - 4)),
        (Type::Float, Value::Float(2.5f64.to_bits()), word(2.5f64.to_bits())),
        (Type::Bool, Value::Bool(true), word(1)),
        (Type::Bool, Value::Bool(false), word(0)),
        (Type::Enum("E".to_string()), Value::Unit, word(0)),
        (Type::String, Value::Str(9), BoundArg { slot: Slot::Boxed(9), cleanup: false }),
        (func, Value::Closure(3), BoundArg { slot: Slot::Boxed(3), cleanup: true }),
        (fsum, Value::Union(4), BoundArg { slot: Slot::Boxed(4), cleanup: true }),
        (isum, Value::Union(5), BoundArg { slot: Slot::Boxed(5), cleanup: false }),
    ];
    for (t, v, expected) in cases {
        let b = box_argument(&t, v).unwrap();
        assert_eq!(b, expected);
        assert_eq!(unbox_argument(&t, b.slot).unwrap(), v);
    }
    assert_eq!(f64::from_bits(2.5f64.to_bits()), 2.5);
}

#[test]
fn boxing_a_mistyped_value_fails() {
    assert_eq!(box_argument(&Type::Int, Value::Bool(true)), Err(CompileError::InternalInvariantViolation));
    assert_eq!(
        box_argument(&Type::Symbol("A".to_string()), Value::Int(1)),
        Err(CompileError::InternalInvariantViolation)
    );
    assert_eq!(unbox_argument(&Type::Int, Slot::Boxed(1)), Err(CompileError::InternalInvariantViolation));
}

#[test]
fn partial_application_leaves_the_source_closure() {
    let g = ClosureValue::new("g".to_string(), 3);
    let with_capture = g.apply(&vec![BoundArg { slot: Slot::Boxed(8), cleanup: true }]);
    let partial = with_capture.apply(&vec![word(1)]);
    assert_eq!(g.args.len(), 0);
    assert_eq!(with_capture.args.len(), 1);
    assert_eq!(partial.args.len(), 2);
    assert_eq!(partial.arity, 3);
    assert_eq!(partial.code, "g");
    assert_eq!(partial.refcount, 1);
    assert_eq!(partial.args, vec![BoundArg { slot: Slot::Boxed(8), cleanup: true }, word(1)]);
}

#[test]
fn groupings_reach_the_same_invocation() {
    let f = ClosureValue::new("f".to_string(), 3);
    let a = f.apply(&vec![word(1)]);
    let first = push_arguments(a, vec![word(2), word(3)]);
    let ab = f.apply(&vec![word(1), word(2)]);
    let second = push_arguments(ab, vec![word(3)]);
    match (first, second) {
        (CallStep::Invoke(x), CallStep::Invoke(y)) => {
            assert_eq!(x.args, vec![word(1), word(2), word(3)]);
            assert_eq!(x.args, y.args);
            assert_eq!(x.code, "f");
            assert!(x.rest.is_empty() && y.rest.is_empty());
        },
        _ => panic!("three arguments saturate an arity of three"),
    }
}

#[test]
fn dispatch_waits_then_hands_on_leftovers() {
    let f = ClosureValue::new("f".to_string(), 2);
    match push_arguments(f, vec![word(1)]) {
        CallStep::Pending(p) => {
            assert_eq!(p.args, vec![word(1)]);
            match push_arguments(p, vec![word(2), word(3)]) {
                CallStep::Invoke(i) => {
                    assert_eq!(i.args, vec![word(1), word(2)]);
                    assert_eq!(i.rest, vec![word(3)]);
                },
                _ => panic!("saturated"),
            }
        },
        _ => panic!("one of two arguments"),
    }
    let z = ClosureValue::new("z".to_string(), 0);
    assert!(matches!(push_arguments(z, vec![]), CallStep::Invoke(_)));
}

#[test]
fn symbols_are_sanitised() {
    assert_eq!(sanitise_symbol("f'"), "f$$PRIME$$$");
    assert_eq!(sanitise_symbol("x''y"), "x$$PRIME$$$$PRIME$$y$");
    assert_eq!(sanitise_symbol(""), "$");
    assert_eq!(sanitise_symbol("plain"), "plain$");
}
