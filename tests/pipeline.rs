use curly::error::CompileError;
use curly::frontend::{ArityInfo, IRFunction, SExpr, SExprMetadata, IR};
use curly::ir::{
    calculate_lifetimes, convert_frontend_ir_to_backend_ir, insert_rc_instructions, IrArgument,
    IrFunction, IrInstruction, IrSsa,
};
use curly::types::{Span, Type};

fn meta(arity: ArityInfo) -> SExprMetadata {
    SExprMetadata { span: Span { start: 0, end: 0 }, _type: Type::Unknown, arity }
}

fn sym(name: &str) -> SExpr {
    SExpr::Symbol(meta(ArityInfo::Unknown), name.to_string())
}

fn func_ref(name: &str) -> SExpr {
    SExpr::Function(meta(ArityInfo::Unknown), name.to_string())
}

fn app(arity: ArityInfo, f: SExpr, a: SExpr) -> SExpr {
    SExpr::Application(meta(arity), Box::new(f), Box::new(a))
}

fn function(name: &str, args: &[&str], captured: &[&str], body: SExpr) -> IRFunction {
    IRFunction {
        name: name.to_string(),
        args: args.iter().map(|a| (a.to_string(), Type::Int)).collect(),
        captured_names: captured.iter().map(|c| c.to_string()).collect(),
        body,
        global: true,
    }
}

fn unit(funcs: Vec<IRFunction>) -> IR {
    let mut ir = IR::new();
    ir.funcs = funcs;
    ir
}

fn ssa(local: Option<usize>, instr: IrInstruction, args: Vec<IrArgument>) -> IrSsa {
    IrSsa { local, local_lifetime: 0, local_register: 0, instr, args }
}

fn shape(f: &IrFunction) -> Vec<(Option<usize>, IrInstruction, Vec<IrArgument>)> {
    f.ssas.iter().map(|s| (s.local, s.instr, s.args.clone())).collect()
}

#[test]
fn saturated_known_call_is_direct() {
    let f = function("f", &["x"], &[], sym("x"));
    let h = function("h", &["y"], &[], app(ArityInfo::Known(0), func_ref("f"), sym("y")));
    let m = convert_frontend_ir_to_backend_ir(&unit(vec![f, h])).unwrap();
    assert_eq!(m.funcs.len(), 2);
    let h = &m.funcs[1];
    assert_eq!(h.name, "h");
    assert_eq!(h.argc, 1);
    assert_eq!(
        shape(h),
        vec![
            (
                Some(0),
                IrInstruction::Call(true),
                vec![IrArgument::Function("f".to_string()), IrArgument::Argument(0)],
            ),
            (None, IrInstruction::Ret, vec![IrArgument::Local(0)]),
        ]
    );
    assert_eq!(h.ssas[0].local_lifetime, 1);
    let f = &m.funcs[0];
    assert_eq!(
        shape(f),
        vec![
            (Some(0), IrInstruction::Load, vec![IrArgument::Argument(0)]),
            (None, IrInstruction::Ret, vec![IrArgument::Local(0)]),
        ]
    );
}

#[test]
fn partial_application_retains_captured_value() {
    let g = function("g", &["a", "b"], &["h"], sym("a"));
    let outer = function(
        "outer",
        &["v"],
        &["h"],
        app(ArityInfo::Known(1), func_ref("g"), sym("v")),
    );
    let m = convert_frontend_ir_to_backend_ir(&unit(vec![g, outer])).unwrap();
    let o = &m.funcs[1];
    assert_eq!(o.argc, 2);
    assert_eq!(m.funcs[0].argc, 3);
    assert_eq!(
        shape(o),
        vec![
            (None, IrInstruction::RcInc, vec![IrArgument::Argument(0)]),
            (
                Some(0),
                IrInstruction::Apply,
                vec![IrArgument::Function("g".to_string()), IrArgument::Argument(0)],
            ),
            (None, IrInstruction::RcInc, vec![IrArgument::Argument(1)]),
            (
                Some(1),
                IrInstruction::Apply,
                vec![IrArgument::Local(0), IrArgument::Argument(1)],
            ),
            (None, IrInstruction::RcFuncFree, vec![IrArgument::Local(0)]),
            (None, IrInstruction::Ret, vec![IrArgument::Local(1)]),
        ]
    );
}

#[test]
fn dynamic_call_brackets_arguments() {
    let k = function("k", &["c", "x"], &[], app(ArityInfo::Unknown, sym("c"), sym("x")));
    let m = convert_frontend_ir_to_backend_ir(&unit(vec![k])).unwrap();
    assert_eq!(
        shape(&m.funcs[0]),
        vec![
            (None, IrInstruction::RcInc, vec![IrArgument::Argument(1)]),
            (
                Some(0),
                IrInstruction::Call(false),
                vec![IrArgument::Argument(0), IrArgument::Argument(1)],
            ),
            (None, IrInstruction::RcFuncFree, vec![IrArgument::Argument(1)]),
            (None, IrInstruction::Ret, vec![IrArgument::Local(0)]),
        ]
    );
}

#[test]
fn curried_chain_threads_the_callee() {
    let add = function("add", &["p", "q"], &[], sym("p"));
    let body = app(
        ArityInfo::Known(0),
        app(ArityInfo::Known(1), func_ref("add"), sym("x")),
        sym("y"),
    );
    let user = function("user", &["x", "y"], &[], body);
    let m = convert_frontend_ir_to_backend_ir(&unit(vec![add, user])).unwrap();
    assert_eq!(
        shape(&m.funcs[1]),
        vec![
            (None, IrInstruction::RcInc, vec![IrArgument::Argument(0)]),
            (
                Some(0),
                IrInstruction::Apply,
                vec![IrArgument::Function("add".to_string()), IrArgument::Argument(0)],
            ),
            (
                Some(1),
                IrInstruction::Call(true),
                vec![IrArgument::Local(0), IrArgument::Argument(1)],
            ),
            (None, IrInstruction::RcFuncFree, vec![IrArgument::Local(0)]),
            (None, IrInstruction::Ret, vec![IrArgument::Local(1)]),
        ]
    );
}

#[test]
fn unused_result_is_released_at_once() {
    let mut f = IrFunction {
        name: "u".to_string(),
        argc: 1,
        ssas: vec![
            ssa(
                Some(0),
                IrInstruction::Call(true),
                vec![IrArgument::Function("w".to_string()), IrArgument::Argument(0)],
            ),
            ssa(Some(1), IrInstruction::Load, vec![IrArgument::Argument(0)]),
            ssa(None, IrInstruction::Ret, vec![IrArgument::Local(1)]),
        ],
    };
    calculate_lifetimes(&mut f);
    assert_eq!(f.ssas[0].local_lifetime, 0);
    assert_eq!(f.ssas[1].local_lifetime, 1);
    insert_rc_instructions(&mut f);
    assert_eq!(
        shape(&f),
        vec![
            (
                Some(0),
                IrInstruction::Call(true),
                vec![IrArgument::Function("w".to_string()), IrArgument::Argument(0)],
            ),
            (None, IrInstruction::RcFuncFree, vec![IrArgument::Local(0)]),
            (Some(1), IrInstruction::Load, vec![IrArgument::Argument(0)]),
            (None, IrInstruction::Ret, vec![IrArgument::Local(1)]),
        ]
    );
}

#[test]
fn lifetimes_measure_distance_to_last_use() {
    let mut f = IrFunction {
        name: "l".to_string(),
        argc: 1,
        ssas: vec![
            ssa(Some(0), IrInstruction::Load, vec![IrArgument::Argument(0)]),
            ssa(Some(1), IrInstruction::Load, vec![IrArgument::Argument(0)]),
            ssa(Some(2), IrInstruction::Apply, vec![IrArgument::Local(0), IrArgument::Local(1)]),
            ssa(Some(3), IrInstruction::Call(false), vec![IrArgument::Local(0), IrArgument::Local(2)]),
            ssa(None, IrInstruction::Ret, vec![IrArgument::Local(3)]),
        ],
    };
    f.ssas[4].local_lifetime = 7;
    calculate_lifetimes(&mut f);
    let lts: Vec<usize> = f.ssas.iter().map(|s| s.local_lifetime).collect();
    assert_eq!(lts, vec![3, 1, 1, 1, 7]);
    assert_eq!(f.get_last_local(), Some(3));
    assert_eq!(f.get_next_local(), 4);
}

#[test]
fn empty_function_has_no_locals() {
    let f = IrFunction { name: "e".to_string(), argc: 0, ssas: vec![] };
    assert_eq!(f.get_last_local(), None);
    assert_eq!(f.get_next_local(), 0);
}

#[test]
fn literal_body_is_unsupported() {
    let f = function("f", &["x"], &[], SExpr::Int(meta(ArityInfo::Unknown), 5));
    let r = convert_frontend_ir_to_backend_ir(&unit(vec![f]));
    assert_eq!(r.err(), Some(CompileError::UnsupportedConstruct));
}

#[test]
fn unknown_symbol_is_unsupported() {
    let f = function("f", &["x"], &[], sym("nope"));
    let r = convert_frontend_ir_to_backend_ir(&unit(vec![f]));
    assert_eq!(r.err(), Some(CompileError::UnsupportedConstruct));
}

#[test]
fn unknown_function_is_an_invariant_violation() {
    let f = function("f", &["x"], &[], func_ref("missing"));
    let r = convert_frontend_ir_to_backend_ir(&unit(vec![f]));
    assert_eq!(r.err(), Some(CompileError::InternalInvariantViolation));
}

#[test]
fn captured_name_must_be_a_parameter() {
    let g = function("g", &["a"], &["h"], sym("a"));
    let f = function("f", &["x"], &[], func_ref("g"));
    let r = convert_frontend_ir_to_backend_ir(&unit(vec![g, f]));
    assert_eq!(r.err(), Some(CompileError::UnsupportedConstruct));
}

#[test]
fn later_parameter_shadows_captured_name() {
    let f = function("f", &["x"], &["x"], sym("x"));
    let m = convert_frontend_ir_to_backend_ir(&unit(vec![f])).unwrap();
    assert_eq!(
        shape(&m.funcs[0]),
        vec![
            (Some(0), IrInstruction::Load, vec![IrArgument::Argument(1)]),
            (None, IrInstruction::Ret, vec![IrArgument::Local(0)]),
        ]
    );
}

#[test]
fn empty_unit_compiles_to_empty_module() {
    let m = convert_frontend_ir_to_backend_ir(&IR::new()).unwrap();
    assert_eq!(m.funcs.len(), 0);
}
