use curly::canon::{canonicalize_sum, collect_types, CanonicalType, SumLayout};
use curly::error::CompileError;
use curly::types::{types_equal, HashSetWrapper, Span, Type};

fn sum(members: Vec<Type>) -> Type {
    Type::Sum(HashSetWrapper(members))
}

fn named(name: &str) -> Type {
    Type::Symbol(name.to_string())
}

fn same(a: &[Type], b: &[Type]) -> bool {
    a.len() == b.len() && a.iter().zip(b.iter()).all(|(x, y)| types_equal(x, y))
}

fn table() -> Vec<(String, Type)> {
    vec![
        ("A".to_string(), sum(vec![Type::Float, Type::Bool])),
        ("B".to_string(), named("A")),
        ("Fn".to_string(), Type::Func(Box::new(Type::Int), Box::new(Type::Int))),
    ]
}

#[test]
fn nested_sums_flatten_in_walk_order() {
    let t = sum(vec![Type::Int, sum(vec![Type::Bool, Type::Int]), named("B")]);
    let l = canonicalize_sum(&table(), &t).unwrap();
    assert!(same(&l.members, &[Type::Int, Type::Bool, Type::Float]));
}

#[test]
fn canonicalizing_twice_keeps_the_tags() {
    let t = sum(vec![named("A"), Type::Enum("None".to_string()), sum(vec![Type::Float, Type::Int])]);
    let once = canonicalize_sum(&table(), &t).unwrap();
    assert!(same(
        &once.members,
        &[Type::Float, Type::Bool, Type::Enum("None".to_string()), Type::Int]
    ));
    let again = canonicalize_sum(&table(), &sum(once.members.iter().map(|m| m.deep_copy()).collect()))
        .unwrap();
    assert!(same(&once.members, &again.members));
    for m in again.members.iter() {
        assert!(!matches!(m, Type::Sum(_) | Type::Symbol(_)));
    }
}

#[test]
fn tags_and_members_correspond() {
    let t = sum(vec![Type::Int, Type::Bool, named("A")]);
    let l = canonicalize_sum(&table(), &t).unwrap();
    for (i, m) in l.members.iter().enumerate() {
        assert_eq!(l.tag_of(m), Some(i));
        assert!(types_equal(l.member(i).unwrap(), m));
    }
    assert_eq!(l.tag_of(&Type::String), None);
    assert!(l.member(l.members.len()).is_none());
}

#[test]
fn alias_cycle_is_unsupported() {
    let t = vec![("X".to_string(), named("Y")), ("Y".to_string(), named("X"))];
    let r = canonicalize_sum(&t, &sum(vec![Type::Int, named("X")]));
    assert_eq!(r.err(), Some(CompileError::UnsupportedConstruct));
    let r = collect_types(&t);
    assert_eq!(r.err(), Some(CompileError::UnsupportedConstruct));
}

#[test]
fn recursive_sum_is_unsupported() {
    let t = vec![("L".to_string(), sum(vec![Type::Int, named("L")]))];
    let r = canonicalize_sum(&t, &named("L"));
    assert_eq!(r.err(), Some(CompileError::UnsupportedConstruct));
}

#[test]
fn unknown_name_is_an_invariant_violation() {
    let r = canonicalize_sum(&table(), &sum(vec![Type::Int, named("Nope")]));
    assert_eq!(r.err(), Some(CompileError::InternalInvariantViolation));
}

#[test]
fn conversion_error_member_is_reported_with_its_span() {
    let sp = Span { start: 3, end: 9 };
    let r = canonicalize_sum(&table(), &sum(vec![Type::Int, Type::ConversionError(sp)]));
    assert_eq!(r.err(), Some(CompileError::TypeConversionError(sp)));
}

#[test]
fn untyped_member_is_unsupported() {
    let r = canonicalize_sum(&table(), &sum(vec![Type::Int, Type::Unknown]));
    assert_eq!(r.err(), Some(CompileError::UnsupportedConstruct));
}

#[test]
fn type_table_is_canonicalized_entry_by_entry() {
    let out = collect_types(&table()).unwrap();
    assert_eq!(out.len(), 3);
    assert_eq!(out[0].0, "A");
    assert_eq!(out[1].0, "B");
    match (&out[0].1, &out[1].1) {
        (CanonicalType::Union(a), CanonicalType::Union(b)) => {
            assert!(same(&a.members, &[Type::Float, Type::Bool]));
            assert!(same(&b.members, &a.members));
        },
        _ => panic!("sums become unions"),
    }
    match &out[2].1 {
        CanonicalType::Plain(t) => {
            assert!(types_equal(t, &Type::Func(Box::new(Type::Int), Box::new(Type::Int))))
        },
        _ => panic!("a function type stays plain"),
    }
}

#[test]
fn two_sums_number_a_member_independently() {
    let s1 = SumLayout { members: vec![Type::Int, Type::Bool] };
    let s2 = SumLayout { members: vec![Type::Bool, Type::Float, Type::Int] };
    assert_eq!(s1.tag_of(&Type::Int), Some(0));
    assert_eq!(s2.tag_of(&Type::Int), Some(2));
}

#[test]
fn copies_and_equality_are_structural() {
    let t = sum(vec![Type::Int, Type::Func(Box::new(named("A")), Box::new(Type::Bool))]);
    let c = t.deep_copy();
    assert!(types_equal(&t, &c));
    assert!(!types_equal(&t, &sum(vec![Type::Int])));
    assert!(!types_equal(&named("A"), &named("B")));
    assert!(types_equal(&Type::Enum("E".to_string()), &Type::Enum("E".to_string())));
}

fn unit_with(types: Vec<(String, Type)>) -> curly::frontend::IR {
    let mut ir = curly::frontend::IR::new();
    ir.types = types;
    ir
}

#[test]
fn subtypes_follow_names_and_sum_members() {
    let ir = unit_with(table());
    assert_eq!(Type::Int.is_subtype(&Type::Int, &ir), Ok(true));
    assert_eq!(Type::Int.is_subtype(&Type::Bool, &ir), Ok(false));
    assert_eq!(Type::Bool.is_subtype(&named("B"), &ir), Ok(true));
    assert_eq!(named("A").is_subtype(&named("B"), &ir), Ok(true));
    assert_eq!(Type::Int.is_subtype(&named("B"), &ir), Ok(false));
    let nested = sum(vec![Type::Int, named("A")]);
    assert_eq!(Type::Float.is_subtype(&nested, &ir), Ok(true));
    let f = Type::Func(Box::new(Type::Int), Box::new(Type::Int));
    assert_eq!(f.is_subtype(&named("Fn"), &ir), Ok(true));
    assert_eq!(Type::Enum("E".to_string()).is_subtype(&Type::Enum("F".to_string()), &ir), Ok(false));
}

#[test]
fn subtype_errors_on_bad_names() {
    let ir = unit_with(table());
    assert_eq!(Type::Int.is_subtype(&named("Nope"), &ir), Err(CompileError::InternalInvariantViolation));
    assert_eq!(named("Nope").is_subtype(&Type::Int, &ir), Err(CompileError::InternalInvariantViolation));
    let cyc = unit_with(vec![("X".to_string(), named("X"))]);
    assert_eq!(Type::Int.is_subtype(&named("X"), &cyc), Err(CompileError::UnsupportedConstruct));
}
