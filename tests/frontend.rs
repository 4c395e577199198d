use curly::frontend::{ArityInfo, IRMetadata, SExpr, SExprMetadata, Scope, IR};
use curly::types::{types_equal, Span, Type};

fn meta(start: usize) -> SExprMetadata {
    SExprMetadata { span: Span { start, end: start + 1 }, _type: Type::Int, arity: ArityInfo::Known(0) }
}

#[test]
fn scopes_push_and_pop() {
    let mut m = IRMetadata { scope: Scope::new() };
    m.scope.variables.push(("x".to_string(), Type::Int));
    m.push_scope();
    assert!(m.scope.variables.is_empty());
    assert_eq!(m.scope.parent.as_ref().unwrap().variables.len(), 1);
    m.push_scope();
    m.pop_scope();
    m.pop_scope();
    assert_eq!(m.scope.variables.len(), 1);
    assert!(m.scope.parent.is_none());
    m.pop_scope();
    assert_eq!(m.scope.variables.len(), 1);
    assert!(m.scope.parent.is_none());
}

#[test]
fn metadata_is_reachable_from_every_node() {
    let e = SExpr::Application(meta(4), Box::new(SExpr::Int(meta(0), 1)), Box::new(SExpr::True(meta(2))));
    assert_eq!(e.get_metadata().span, Span { start: 4, end: 5 });
    let mut f = SExpr::Float(meta(7), 1.5f64.to_bits());
    f.get_mutable_metadata()._type = Type::Float;
    assert!(types_equal(&f.get_metadata()._type, &Type::Float));
    assert_eq!(f.get_metadata().span.start, 7);
    match f {
        SExpr::Float(_, bits) => assert_eq!(f64::from_bits(bits), 1.5),
        _ => panic!("still a float"),
    }
}

#[test]
fn new_unit_is_empty_and_clear_keeps_functions() {
    let mut ir = IR::new();
    assert!(ir.funcs.is_empty() && ir.sexprs.is_empty() && ir.types.is_empty());
    ir.sexprs.push(SExpr::False(meta(0)));
    ir.types.push(("T".to_string(), Type::Bool));
    ir.clear();
    assert!(ir.sexprs.is_empty());
    assert_eq!(ir.types.len(), 1);
}
