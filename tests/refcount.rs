use curly::frontend::{ArityInfo, IRFunction, SExpr, SExprMetadata, IR};
use curly::ir::{convert_frontend_ir_to_backend_ir, IrArgument, IrFunction, IrInstruction};
use curly::types::{Span, Type};

fn meta(arity: ArityInfo) -> SExprMetadata {
    SExprMetadata { span: Span { start: 0, end: 0 }, _type: Type::Unknown, arity }
}

fn sym(name: &str) -> SExpr {
    SExpr::Symbol(meta(ArityInfo::Unknown), name.to_string())
}

fn func_ref(name: &str) -> SExpr {
    SExpr::Function(meta(ArityInfo::Unknown), name.to_string())
}

fn app(arity: ArityInfo, f: SExpr, a: SExpr) -> SExpr {
    SExpr::Application(meta(arity), Box::new(f), Box::new(a))
}

fn function(name: &str, args: &[&str], captured: &[&str], body: SExpr) -> IRFunction {
    IRFunction {
        name: name.to_string(),
        args: args.iter().map(|a| (a.to_string(), Type::Int)).collect(),
        captured_names: captured.iter().map(|c| c.to_string()).collect(),
        body,
        global: true,
    }
}

struct Heap {
    counts: Vec<i64>,
    owns: Vec<Vec<usize>>,
}

impl Heap {
    fn allocate(&mut self, owns: Vec<usize>) -> usize {
        self.counts.push(1);
        self.owns.push(owns);
        self.counts.len() - 1
    }

    fn release(&mut self, o: usize) {
        self.counts[o] -= 1;
        assert!(self.counts[o] >= 0, "object {} released too often", o);
        if self.counts[o] == 0 {
            for child in self.owns[o].clone() {
                self.release(child);
            }
        }
    }
}

/// Runs the stream with a reference-count oracle: parameters are objects the
/// caller holds once, `Apply` makes a closure that owns its bound operands,
/// `Call` makes a fresh object, and the caller releases the returned object.
/// Afterwards every parameter must be back to the caller's one reference and
/// every object the function made must be freed.
fn check_balanced(f: &IrFunction) {
    let mut heap = Heap { counts: vec![], owns: vec![] };
    for _ in 0..f.argc {
        heap.allocate(vec![]);
    }
    let mut locals: Vec<Option<usize>> = vec![];
    let object = |locals: &Vec<Option<usize>>, a: &IrArgument| -> Option<usize> {
        match a {
            IrArgument::Argument(i) => Some(*i),
            IrArgument::Local(l) => locals[*l],
            IrArgument::Function(_) => None,
        }
    };
    let mut returned = None;
    for ssa in f.ssas.iter() {
        let result = match ssa.instr {
            IrInstruction::Load => object(&locals, &ssa.args[0]),
            IrInstruction::Apply => {
                let owned = ssa.args[1..].iter().filter_map(|a| object(&locals, a)).collect();
                Some(heap.allocate(owned))
            },
            IrInstruction::Call(_) => Some(heap.allocate(vec![])),
            IrInstruction::RcInc => {
                heap.counts[object(&locals, &ssa.args[0]).unwrap()] += 1;
                None
            },
            IrInstruction::RcFuncFree => {
                heap.release(object(&locals, &ssa.args[0]).unwrap());
                None
            },
            IrInstruction::Ret => {
                returned = ssa.args.first().and_then(|a| object(&locals, a));
                None
            },
        };
        if let Some(l) = ssa.local {
            assert_eq!(l, locals.len());
            locals.push(result);
        }
    }
    if let Some(o) = returned {
        if o >= f.argc {
            heap.release(o);
        }
    }
    for (o, c) in heap.counts.iter().enumerate() {
        let expected = if o < f.argc { 1 } else { 0 };
        assert_eq!(*c, expected, "object {} ends with count {}", o, c);
    }
}

fn compile(funcs: Vec<IRFunction>) -> Vec<IrFunction> {
    let mut ir = IR::new();
    ir.funcs = funcs;
    convert_frontend_ir_to_backend_ir(&ir).unwrap().funcs
}

#[test]
fn partial_application_balances() {
    let g = function("g", &["a", "b"], &["h"], sym("a"));
    let outer = function("outer", &["v"], &["h"], app(ArityInfo::Known(1), func_ref("g"), sym("v")));
    for f in compile(vec![g, outer]).iter() {
        check_balanced(f);
    }
}

#[test]
fn dynamic_call_balances() {
    let k = function("k", &["c", "x"], &[], app(ArityInfo::Unknown, sym("c"), sym("x")));
    check_balanced(&compile(vec![k])[0]);
}

#[test]
fn curried_chain_balances() {
    let add = function("add", &["p", "q"], &[], sym("p"));
    let body = app(
        ArityInfo::Unknown,
        app(
            ArityInfo::Known(0),
            app(ArityInfo::Known(1), func_ref("add"), sym("x")),
            sym("y"),
        ),
        app(ArityInfo::Known(1), func_ref("add"), sym("y")),
    );
    let user = function("user", &["x", "y"], &[], body);
    let out = compile(vec![add, user]);
    for f in out.iter() {
        check_balanced(f);
    }
    let incs = out[1].ssas.iter().filter(|s| s.instr == IrInstruction::RcInc).count();
    let frees = out[1].ssas.iter().filter(|s| s.instr == IrInstruction::RcFuncFree).count();
    assert_eq!(incs, 3);
    assert_eq!(frees, 4);
}

#[test]
fn closure_passed_to_dynamic_call_balances() {
    let g = function("g", &["a"], &["h"], sym("a"));
    let body = app(ArityInfo::Unknown, sym("c"), func_ref("g"));
    let user = function("user", &["h", "c"], &[], body);
    check_balanced(&compile(vec![g, user])[1]);
}
