use vstd::prelude::*;

use crate::error::CompileError;
use crate::frontend::{ArityInfo, IRFunction, SExpr, IR};
use crate::types::Type;

verus! {

/// An instruction of the SSA stream.
#[derive(Copy, Clone, Debug, PartialEq, Eq, Structural)]
pub enum IrInstruction {
    /// Returns from the function, with the value of its operand if it has one.
    Ret,
    /// Names an argument or a function address as a fresh local.
    Load,
    /// Binds the operands after the first to the closure or function that the
    /// first names, giving a new closure.
    Apply,
    /// Calls its first operand with the others. `true` when the arity is known
    /// at compile time (a direct call), `false` when it is resolved at run
    /// time through the closure's wrapper.
    Call(bool),
    /// Retains a closure: increments its reference count.
    RcInc,
    /// Releases a closure: decrements its reference count, and frees it and
    /// releases the values it owns when the count reaches zero.
    RcFuncFree,
}

/// An operand of an instruction.
#[derive(Clone, Debug, PartialEq, Eq, Hash)]
pub enum IrArgument {
    /// A local defined earlier in the stream.
    Local(usize),
    /// A parameter of the enclosing function; captured values come first.
    Argument(usize),
    /// The address of a top-level function.
    Function(String),
}

/// One instruction together with the local it defines.
#[derive(Debug)]
pub struct IrSsa {
    /// The local defined by this instruction, if any.
    pub local: Option<usize>,
    /// How many instructions after this one the defined local is last used
    /// (0 when it is never used again).
    pub local_lifetime: usize,
    /// The register the defined local is allocated in.
    pub local_register: usize,
    /// The operation.
    pub instr: IrInstruction,
    /// The operands.
    pub args: Vec<IrArgument>,
}

/// What an [`IrSsa`] holds, with its operands as a sequence.
pub struct SsaView {
    pub local: Option<usize>,
    pub lifetime: usize,
    pub register: usize,
    pub instr: IrInstruction,
    pub args: Seq<IrArgument>,
}

impl View for IrSsa {
    type V = SsaView;

    open spec fn view(&self) -> SsaView {
        SsaView {
            local: self.local,
            lifetime: self.local_lifetime,
            register: self.local_register,
            instr: self.instr,
            args: self.args@,
        }
    }
}

/// A function of the SSA form.
#[derive(Debug)]
pub struct IrFunction {
    /// The name of the function.
    pub name: String,
    /// How many parameters it takes, captured values included.
    pub argc: usize,
    /// Its instructions, in order.
    pub ssas: Vec<IrSsa>,
}

/// A module of the SSA form.
#[derive(Debug)]
pub struct IrModule {
    pub funcs: Vec<IrFunction>,
}

/// The instruction stream as a sequence of views.
pub open spec fn stream(s: Seq<IrSsa>) -> Seq<SsaView> {
    s.map_values(|x: IrSsa| x@)
}

impl IrFunction {
    /// The instructions of the function, viewed.
    pub open spec fn stream(&self) -> Seq<SsaView> {
        stream(self.ssas@)
    }
}

/// The local defined last in `s`, if any.
pub open spec fn last_local(s: Seq<SsaView>) -> Option<usize>
    decreases s.len(),
{
    if s.len() == 0 {
        None
    } else if s.last().local is Some {
        s.last().local
    } else {
        last_local(s.drop_last())
    }
}

/// The number of the next local to define: one past the last one defined.
pub open spec fn next_local(s: Seq<SsaView>) -> nat {
    match last_local(s) {
        Some(l) => (l + 1) as nat,
        None => 0,
    }
}

impl IrFunction {
    /// Returns the local defined last, if any.
    pub fn get_last_local(&self) -> (r: Option<usize>)
        ensures
            r == last_local(self.stream()),
    {
        let mut i = self.ssas.len();
        assert(self.stream().take(i as int) =~= self.stream());
        while i > 0
            invariant
                i <= self.ssas@.len(),
                last_local(self.stream()) == last_local(self.stream().take(i as int)),
            decreases i,
        {
            assert(self.stream().take(i as int).drop_last() =~= self.stream().take(i - 1));
            if let Some(l) = self.ssas[i - 1].local {
                return Some(l);
            }
            i = i - 1;
        }
        None
    }

    /// Returns the number of the next local to define.
    pub fn get_next_local(&self) -> (r: usize)
        requires
            next_local(self.stream()) <= usize::MAX,
        ensures
            r == next_local(self.stream()),
    {
        match self.get_last_local() {
            Some(l) => l + 1,
            None => 0,
        }
    }
}

/// Whether one of `args` is the local `l`.
pub open spec fn uses_local(args: Seq<IrArgument>, l: usize) -> bool {
    exists|k: int| 0 <= k < args.len() && args[k] == IrArgument::Local(l)
}

/// The index of the last instruction before `hi` that uses the local `l`, or
/// -1 when none does.
pub open spec fn last_use(s: Seq<SsaView>, l: usize, hi: int) -> int
    decreases hi,
{
    if hi <= 0 {
        -1
    } else if uses_local(s[hi - 1].args, l) {
        hi - 1
    } else {
        last_use(s, l, hi - 1)
    }
}

/// The distance from instruction `i` to the last use of the local it defines,
/// 0 when it is never used after `i`.
pub open spec fn distance_to_last_use(s: Seq<SsaView>, i: int, l: usize) -> nat {
    let u = last_use(s, l, s.len() as int);
    if u > i {
        (u - i) as nat
    } else {
        0
    }
}

/// `v` with the lifetime `lifetime`.
pub open spec fn with_lifetime(v: SsaView, lifetime: usize) -> SsaView {
    SsaView {
        local: v.local,
        lifetime: lifetime,
        register: v.register,
        instr: v.instr,
        args: v.args,
    }
}

/// The stream with the lifetime of every defining instruction set to the
/// distance to the last use of its local; other instructions keep theirs.
pub open spec fn with_lifetimes(s: Seq<SsaView>) -> Seq<SsaView> {
    Seq::new(
        s.len(),
        |i: int|
            match s[i].local {
                Some(l) => with_lifetime(s[i], distance_to_last_use(s, i, l) as usize),
                None => s[i],
            },
    )
}

/// Whether one of `args` is the local `l`.
fn uses_local_exec(args: &Vec<IrArgument>, l: usize) -> (r: bool)
    ensures
        r == uses_local(args@, l),
{
    let mut k: usize = 0;
    while k < args.len()
        invariant
            k <= args@.len(),
            forall|m: int| 0 <= m < k ==> args@[m] != IrArgument::Local(l),
        decreases args@.len() - k,
    {
        match &args[k] {
            IrArgument::Local(x) => {
                if *x == l {
                    return true;
                }
            },
            _ => {},
        }
        k = k + 1;
    }
    false
}

/// The distance from instruction `i` to the last later use of `l`.
fn find_distance(ssas: &Vec<IrSsa>, i: usize, l: usize) -> (r: usize)
    requires
        i < ssas@.len(),
    ensures
        r == distance_to_last_use(stream(ssas@), i as int, l),
{
    let ghost s = stream(ssas@);
    let mut j = ssas.len();
    while j > i + 1
        invariant
            i < j <= ssas@.len(),
            s == stream(ssas@),
            last_use(s, l, s.len() as int) == last_use(s, l, j as int),
        decreases j,
    {
        if uses_local_exec(&ssas[j - 1].args, l) {
            return j - 1 - i;
        }
        j = j - 1;
    }
    proof {
        lemma_last_use(s, l, j as int);
    }
    0
}

proof fn lemma_last_use(s: Seq<SsaView>, l: usize, hi: int)
    requires
        0 <= hi <= s.len(),
    ensures
        -1 <= last_use(s, l, hi) < hi,
        last_use(s, l, hi) >= 0 ==> uses_local(s[last_use(s, l, hi)].args, l),
        forall|j: int| last_use(s, l, hi) < j < hi ==> !uses_local(#[trigger] s[j].args, l),
    decreases hi,
{
    if hi > 0 {
        lemma_last_use(s, l, hi - 1);
    }
}

/// The lifetimes that [`calculate_lifetimes`] computes are exact: the
/// instruction `lifetime` steps after the one that defines a local is the
/// last to use it (when the lifetime is not 0), and no later instruction uses
/// it. So releasing a local right after that instruction never leaves a use
/// of it behind. (A stream is held in memory, so it has at most
/// `usize::MAX` instructions.)
pub proof fn lemma_lifetime_is_last_use(s: Seq<SsaView>, d: int)
    requires
        s.len() <= usize::MAX,
        0 <= d < s.len(),
        s[d].local is Some,
    ensures
        with_lifetimes(s)[d].lifetime > 0 ==> uses_local(
            s[d + with_lifetimes(s)[d].lifetime].args,
            s[d].local->Some_0,
        ),
        forall|j: int|
            d + with_lifetimes(s)[d].lifetime < j < s.len() ==> !uses_local(
                #[trigger] with_lifetimes(s)[j].args,
                s[d].local->Some_0,
            ),
{
    let l = s[d].local->Some_0;
    lemma_last_use(s, l, s.len() as int);
    let dist = distance_to_last_use(s, d, l);
    assert(dist < s.len());
    assert(with_lifetimes(s)[d].lifetime == dist);
    assert forall|j: int|
        d + with_lifetimes(s)[d].lifetime < j < s.len() implies !uses_local(
        #[trigger] with_lifetimes(s)[j].args,
        l,
    ) by {
        assert(with_lifetimes(s)[j].args == s[j].args);
    }
}

/// Sets the lifetime of every defining instruction to the distance to the
/// last use of its local. Only lifetimes change.
pub fn calculate_lifetimes(func: &mut IrFunction)
    ensures
        final(func).name == old(func).name,
        final(func).argc == old(func).argc,
        final(func).stream() == with_lifetimes(old(func).stream()),
{
    let ghost s = old(func).stream();
    let n = func.ssas.len();
    let mut lifetimes: Vec<usize> = Vec::new();
    let mut i: usize = 0;
    while i < n
        invariant
            n == func.ssas@.len(),
            s == func.stream(),
            i <= n,
            lifetimes@.len() == i,
            forall|k: int| 0 <= k < i ==> (#[trigger] with_lifetimes(s)[k]).lifetime == lifetimes@[k],
        decreases n - i,
    {
        let lt = match func.ssas[i].local {
            Some(l) => find_distance(&func.ssas, i, l),
            None => func.ssas[i].local_lifetime,
        };
        lifetimes.push(lt);
        i = i + 1;
    }
    let mut rest: Vec<IrSsa> = Vec::new();
    core::mem::swap(&mut rest, &mut func.ssas);
    let mut k: usize = 0;
    while k < n
        invariant
            n == lifetimes@.len(),
            k <= n,
            rest@.len() == n - k,
            func.ssas@.len() == k,
            forall|m: int| 0 <= m < n - k ==> #[trigger] rest@[m]@ == s[m + k],
            forall|m: int| 0 <= m < k ==> #[trigger] func.ssas@[m]@ == with_lifetimes(s)[m],
            forall|m: int| 0 <= m < n ==> (#[trigger] with_lifetimes(s)[m]).lifetime == lifetimes@[m],
            s.len() == n,
            func.name == old(func).name,
            func.argc == old(func).argc,
        decreases n - k,
    {
        let mut ssa = rest.remove(0);
        assert(ssa@ == s[k as int]);
        ssa.local_lifetime = lifetimes[k];
        assert(ssa@ == with_lifetimes(s)[k as int]);
        func.ssas.push(ssa);
        k = k + 1;
    }
    assert(func.stream() =~= with_lifetimes(s));
}

/// A copy of `a`.
fn copy_argument(a: &IrArgument) -> (r: IrArgument)
    ensures
        r == *a,
{
    match a {
        IrArgument::Local(l) => IrArgument::Local(*l),
        IrArgument::Argument(x) => IrArgument::Argument(*x),
        IrArgument::Function(f) => IrArgument::Function(f.clone()),
    }
}

/// A copy of `v`.
fn copy_arguments(v: &Vec<IrArgument>) -> (r: Vec<IrArgument>)
    ensures
        r@ == v@,
{
    let mut r: Vec<IrArgument> = Vec::new();
    let mut k: usize = 0;
    while k < v.len()
        invariant
            k <= v@.len(),
            r@ == v@.take(k as int),
        decreases v@.len() - k,
    {
        r.push(copy_argument(&v[k]));
        k = k + 1;
        assert(r@ =~= v@.take(k as int));
    }
    assert(v@.take(k as int) =~= v@);
    r
}

/// A copy of `x`.
fn copy_ssa(x: &IrSsa) -> (r: IrSsa)
    ensures
        r@ == x@,
{
    IrSsa {
        local: x.local,
        local_lifetime: x.local_lifetime,
        local_register: x.local_register,
        instr: x.instr,
        args: copy_arguments(&x.args),
    }
}

/// An instruction that defines no local and has the single operand `a`.
pub open spec fn marker(instr: IrInstruction, a: IrArgument) -> SsaView {
    SsaView { local: None, lifetime: 0, register: 0, instr: instr, args: seq![a] }
}

/// One `instr` marker for each operand after the first (the callee), in
/// order, leaving out function addresses: they are static code and never
/// counted.
pub open spec fn markers(instr: IrInstruction, args: Seq<IrArgument>) -> Seq<SsaView>
    decreases args.len(),
{
    if args.len() <= 1 {
        seq![]
    } else if args.last() is Function {
        markers(instr, args.drop_last())
    } else {
        markers(instr, args.drop_last()).push(marker(instr, args.last()))
    }
}

/// The retains placed right before `v`: every bound operand of an `Apply`
/// (the new closure co-owns it) and of a dynamically dispatched `Call`.
pub open spec fn retains_before(v: SsaView) -> Seq<SsaView> {
    if v.instr == IrInstruction::Apply || v.instr == IrInstruction::Call(false) {
        markers(IrInstruction::RcInc, v.args)
    } else {
        seq![]
    }
}

/// The releases placed right after a dynamically dispatched `Call`, which
/// only borrows its operands.
pub open spec fn releases_after(v: SsaView) -> Seq<SsaView> {
    if v.instr == IrInstruction::Call(false) {
        markers(IrInstruction::RcFuncFree, v.args)
    } else {
        seq![]
    }
}

/// Whether `v` defines a local that holds a closure it owns: the result of
/// an `Apply` or a `Call`.
pub open spec fn owns_result(v: SsaView) -> bool {
    v.local is Some && (v.instr == IrInstruction::Apply || v.instr is Call)
}

/// Whether the owned local defined at `d` is last used at instruction `i`.
pub open spec fn dies_at(s: Seq<SsaView>, d: int, i: int) -> bool {
    owns_result(s[d]) && d + s[d].lifetime == i
}

/// The releases, in order of definition, of the owned locals defined before
/// `hi` whose last use is instruction `i`.
pub open spec fn releases_at(s: Seq<SsaView>, i: int, hi: int) -> Seq<SsaView>
    decreases hi,
{
    if hi <= 0 {
        seq![]
    } else if dies_at(s, hi - 1, i) {
        releases_at(s, i, hi - 1).push(
            marker(IrInstruction::RcFuncFree, IrArgument::Local(s[hi - 1].local->Some_0)),
        )
    } else {
        releases_at(s, i, hi - 1)
    }
}

/// What instruction `i` becomes: its retains, itself, the releases of a
/// dynamic call, then the releases of the owned locals that die there. Locals
/// still alive at the final instruction are handed to the caller.
pub open spec fn expand(s: Seq<SsaView>, i: int) -> Seq<SsaView> {
    retains_before(s[i]) + seq![s[i]] + releases_after(s[i]) + if i + 1 < s.len() {
        releases_at(s, i, i + 1)
    } else {
        seq![]
    }
}

/// The first `n` instructions of `s`, each expanded.
pub open spec fn with_rc(s: Seq<SsaView>, n: int) -> Seq<SsaView>
    decreases n,
{
    if n <= 0 {
        seq![]
    } else {
        with_rc(s, n - 1) + expand(s, n - 1)
    }
}

proof fn lemma_stream_push(v: Seq<IrSsa>, x: IrSsa)
    ensures
        stream(v.push(x)) == stream(v).push(x@),
{
    assert(stream(v.push(x)) =~= stream(v).push(x@));
}

/// Appends the markers of `args` to `out`.
fn push_markers(out: &mut Vec<IrSsa>, instr: IrInstruction, args: &Vec<IrArgument>)
    ensures
        stream(final(out)@) == stream(old(out)@) + markers(instr, args@),
{
    let ghost start = stream(out@);
    if args.len() == 0 {
        assert(start + markers(instr, args@) =~= start);
        return;
    }
    let mut k: usize = 1;
    assert(markers(instr, args@.take(1)) =~= seq![]);
    assert(start + markers(instr, args@.take(1)) =~= start);
    while k < args.len()
        invariant
            1 <= k <= args@.len(),
            stream(out@) == start + markers(instr, args@.take(k as int)),
        decreases args@.len() - k,
    {
        let ghost before = out@;
        assert(args@.take(k + 1).drop_last() =~= args@.take(k as int));
        match &args[k] {
            IrArgument::Function(_) => {},
            a => {
                let m = IrSsa {
                    local: None,
                    local_lifetime: 0,
                    local_register: 0,
                    instr: instr,
                    args: vec![copy_argument(a)],
                };
                out.push(m);
                proof {
                    lemma_stream_push(before, m);
                    assert(m@.args =~= seq![args@[k as int]]);
                }
            },
        }
        k = k + 1;
        assert(stream(out@) =~= start + markers(instr, args@.take(k as int)));
    }
    assert(args@.take(k as int) =~= args@);
}

/// Appends the releases of the owned locals, among the instructions up to
/// `i`, whose last use is instruction `i`.
fn push_releases(out: &mut Vec<IrSsa>, input: &Vec<IrSsa>, i: usize)
    requires
        i < input@.len(),
    ensures
        stream(final(out)@) == stream(old(out)@) + releases_at(stream(input@), i as int, i + 1),
{
    let ghost s = stream(input@);
    let ghost start = stream(out@);
    let len = input.len();
    assert(i < len);
    let hi = i + 1;
    let mut d: usize = 0;
    assert(start + releases_at(s, i as int, 0) =~= start);
    while d < hi
        invariant
            hi == i + 1,
            d <= i + 1,
            i < input@.len(),
            s == stream(input@),
            stream(out@) == start + releases_at(s, i as int, d as int),
        decreases i + 1 - d,
    {
        let ghost before = out@;
        let x = &input[d];
        let owning = match x.instr {
            IrInstruction::Apply => true,
            IrInstruction::Call(_) => true,
            _ => false,
        };
        match x.local {
            Some(l) => {
                if owning && x.local_lifetime == i - d {
                    let m = IrSsa {
                        local: None,
                        local_lifetime: 0,
                        local_register: 0,
                        instr: IrInstruction::RcFuncFree,
                        args: vec![IrArgument::Local(l)],
                    };
                    out.push(m);
                    proof {
                        lemma_stream_push(before, m);
                        assert(m.args@ =~= seq![IrArgument::Local(l)]);
                        assert(m@ == marker(IrInstruction::RcFuncFree, IrArgument::Local(l)));
                    }
                }
            },
            None => {},
        }
        d = d + 1;
        assert(stream(out@) =~= start + releases_at(s, i as int, d as int));
    }
}

/// Makes closure ownership explicit. Before every `Apply`, each bound operand
/// that is not a function address is retained; every dynamically dispatched
/// `Call` retains such operands before and releases them right after; and
/// each owned local (the result of an `Apply` or a `Call`) is released right
/// after the instruction that last uses it, as the lifetimes computed by
/// [`calculate_lifetimes`] say, unless that is the final instruction.
pub fn insert_rc_instructions(func: &mut IrFunction)
    ensures
        final(func).name == old(func).name,
        final(func).argc == old(func).argc,
        final(func).stream() == with_rc(old(func).stream(), old(func).stream().len() as int),
{
    let ghost s = old(func).stream();
    let mut input: Vec<IrSsa> = Vec::new();
    core::mem::swap(&mut input, &mut func.ssas);
    let n = input.len();
    let mut i: usize = 0;
    assert(func.stream() =~= with_rc(s, 0));
    while i < n
        invariant
            stream(input@) == s,
            n == s.len(),
            i <= n,
            func.stream() == with_rc(s, i as int),
            func.name == old(func).name,
            func.argc == old(func).argc,
        decreases n - i,
    {
        let ghost start = func.stream();
        let instr = input[i].instr;
        let retains = match instr {
            IrInstruction::Apply => true,
            IrInstruction::Call(false) => true,
            _ => false,
        };
        let dynamic = match instr {
            IrInstruction::Call(false) => true,
            _ => false,
        };
        if retains {
            push_markers(&mut func.ssas, IrInstruction::RcInc, &input[i].args);
        }
        let ghost mid = func.ssas@;
        let c = copy_ssa(&input[i]);
        func.ssas.push(c);
        proof {
            lemma_stream_push(mid, c);
        }
        if dynamic {
            push_markers(&mut func.ssas, IrInstruction::RcFuncFree, &input[i].args);
        }
        if i + 1 < n {
            push_releases(&mut func.ssas, &input, i);
        }
        assert(func.stream() =~= with_rc(s, i + 1));
        i = i + 1;
    }
}

/// The index of the last parameter named `name`.
pub open spec fn param_index(params: Seq<String>, name: Seq<char>) -> Option<usize>
    decreases params.len(),
{
    if params.len() == 0 {
        None
    } else if params.last()@ == name {
        Some((params.len() - 1) as usize)
    } else {
        param_index(params.drop_last(), name)
    }
}

/// The index of the last function named `name`.
pub open spec fn function_index(funcs: Seq<IRFunction>, name: Seq<char>) -> Option<int>
    decreases funcs.len(),
{
    if funcs.len() == 0 {
        None
    } else if funcs.last().name@ == name {
        Some(funcs.len() - 1)
    } else {
        function_index(funcs.drop_last(), name)
    }
}

/// The operand that stands for `e` without any instruction: a parameter, or
/// the address of a function that captures nothing. `Ok(None)` when `e` needs
/// instructions of its own.
pub open spec fn operand_of(params: Seq<String>, funcs: Seq<IRFunction>, e: SExpr) -> Result<
    Option<IrArgument>,
    CompileError,
> {
    match e {
        SExpr::Symbol(_, s) => match param_index(params, s@) {
            Some(k) => Ok(Some(IrArgument::Argument(k))),
            None => Err(CompileError::UnsupportedConstruct),
        },
        SExpr::Function(_, f) => match function_index(funcs, f@) {
            Some(k) => if funcs[k].captured_names@.len() == 0 {
                Ok(Some(IrArgument::Function(f)))
            } else {
                Ok(None)
            },
            None => Err(CompileError::InternalInvariantViolation),
        },
        _ => Ok(None),
    }
}

/// The parameters that hold the values named by `names`.
pub open spec fn captured_operands(params: Seq<String>, names: Seq<String>) -> Result<
    Seq<IrArgument>,
    CompileError,
>
    decreases names.len(),
{
    if names.len() == 0 {
        Ok(seq![])
    } else {
        match captured_operands(params, names.drop_last()) {
            Err(x) => Err(x),
            Ok(ops) => match param_index(params, names.last()@) {
                Some(k) => Ok(ops.push(IrArgument::Argument(k))),
                None => Err(CompileError::UnsupportedConstruct),
            },
        }
    }
}

/// The instruction for an application whose result still expects `arity`
/// arguments: a partial application builds a closure, a saturating one calls.
pub open spec fn application_instr(arity: ArityInfo) -> IrInstruction {
    match arity {
        ArityInfo::Known(v) => if v != 0 {
            IrInstruction::Apply
        } else {
            IrInstruction::Call(true)
        },
        ArityInfo::Unknown => IrInstruction::Call(false),
    }
}

/// `s` with one more instruction, which defines the next local.
pub open spec fn define(s: Seq<SsaView>, instr: IrInstruction, args: Seq<IrArgument>) -> Result<
    Seq<SsaView>,
    CompileError,
> {
    if next_local(s) > usize::MAX {
        Err(CompileError::InternalInvariantViolation)
    } else {
        Ok(
            s.push(
                SsaView {
                    local: Some(next_local(s) as usize),
                    lifetime: 0,
                    register: 0,
                    instr: instr,
                    args: args,
                },
            ),
        )
    }
}

/// The stream `s` followed by the instructions that compute `e` into a fresh
/// local (the last one defined). Applications are lowered callee first, then
/// argument, and chains of them left to right.
pub open spec fn lower(params: Seq<String>, funcs: Seq<IRFunction>, e: SExpr, s: Seq<SsaView>) -> Result<
    Seq<SsaView>,
    CompileError,
>
    decreases e, 0int,
{
    match operand_of(params, funcs, e) {
        Err(x) => Err(x),
        Ok(Some(op)) => define(s, IrInstruction::Load, seq![op]),
        Ok(None) => match e {
            SExpr::Function(_, f) => match function_index(funcs, f@) {
                Some(k) => match captured_operands(params, funcs[k].captured_names@) {
                    Err(x) => Err(x),
                    Ok(ops) => define(
                        s,
                        IrInstruction::Apply,
                        seq![IrArgument::Function(f)] + ops,
                    ),
                },
                None => Err(CompileError::InternalInvariantViolation),
            },
            SExpr::Application(m, f, a) => match lower_operand(params, funcs, *f, s) {
                Err(x) => Err(x),
                Ok((s1, fop)) => match lower_operand(params, funcs, *a, s1) {
                    Err(x) => Err(x),
                    Ok((s2, aop)) => define(s2, application_instr(m.arity), seq![fop, aop]),
                },
            },
            _ => Err(CompileError::UnsupportedConstruct),
        },
    }
}

/// The operand for `e`, with the instructions that compute it appended to
/// `s` when it needs any.
pub open spec fn lower_operand(
    params: Seq<String>,
    funcs: Seq<IRFunction>,
    e: SExpr,
    s: Seq<SsaView>,
) -> Result<(Seq<SsaView>, IrArgument), CompileError>
    decreases e, 1int,
{
    match operand_of(params, funcs, e) {
        Err(x) => Err(x),
        Ok(Some(op)) => Ok((s, op)),
        Ok(None) => match lower(params, funcs, e, s) {
            Err(x) => Err(x),
            Ok(s1) => Ok((s1, IrArgument::Local(last_local(s1)->Some_0))),
        },
    }
}

/// Finds the last parameter named `name`.
fn find_param(params: &Vec<String>, name: &String) -> (r: Option<usize>)
    ensures
        r == param_index(params@, name@),
{
    let mut k = params.len();
    assert(params@.take(k as int) =~= params@);
    while k > 0
        invariant
            k <= params@.len(),
            param_index(params@, name@) == param_index(params@.take(k as int), name@),
        decreases k,
    {
        assert(params@.take(k as int).drop_last() =~= params@.take(k - 1));
        if params[k - 1] == *name {
            return Some(k - 1);
        }
        k = k - 1;
    }
    None
}

/// Finds the last function named `name`.
fn find_function(funcs: &Vec<IRFunction>, name: &String) -> (r: Option<usize>)
    ensures
        r matches Some(k) ==> k < funcs@.len() && function_index(funcs@, name@) == Some(k as int),
        r is None ==> function_index(funcs@, name@) is None,
{
    let mut k = funcs.len();
    assert(funcs@.take(k as int) =~= funcs@);
    while k > 0
        invariant
            k <= funcs@.len(),
            function_index(funcs@, name@) == function_index(funcs@.take(k as int), name@),
        decreases k,
    {
        assert(funcs@.take(k as int).drop_last() =~= funcs@.take(k - 1));
        if funcs[k - 1].name == *name {
            return Some(k - 1);
        }
        k = k - 1;
    }
    None
}

/// The parameters that hold the captured values `names`.
fn get_captured_operands(params: &Vec<String>, names: &Vec<String>) -> (r: Result<
    Vec<IrArgument>,
    CompileError,
>)
    ensures
        r matches Ok(v) ==> captured_operands(params@, names@) == Ok::<_, CompileError>(v@),
        r matches Err(x) ==> captured_operands(params@, names@) == Err::<Seq<IrArgument>, _>(x),
{
    let mut ops: Vec<IrArgument> = Vec::new();
    let mut k: usize = 0;
    assert(names@.take(0) =~= seq![]);
    while k < names.len()
        invariant
            k <= names@.len(),
            captured_operands(params@, names@.take(k as int)) == Ok::<_, CompileError>(ops@),
        decreases names@.len() - k,
    {
        assert(names@.take(k + 1).drop_last() =~= names@.take(k as int));
        match find_param(params, &names[k]) {
            Some(i) => {
                ops.push(IrArgument::Argument(i));
            },
            None => {
                proof {
                    lemma_captured_error(params@, names@, k as int + 1);
                }
                return Err(CompileError::UnsupportedConstruct);
            },
        }
        k = k + 1;
    }
    assert(names@.take(k as int) =~= names@);
    Ok(ops)
}

proof fn lemma_captured_error(params: Seq<String>, names: Seq<String>, n: int)
    requires
        0 < n <= names.len(),
        captured_operands(params, names.take(n)) is Err,
    ensures
        captured_operands(params, names) == captured_operands(params, names.take(n)),
    decreases names.len() - n,
{
    if n < names.len() {
        assert(names.take(n + 1).drop_last() =~= names.take(n));
        lemma_captured_error(params, names, n + 1);
    } else {
        assert(names.take(n) =~= names);
    }
}

/// The operand that stands for `sexpr` without any instruction, if there is
/// one.
fn get_arg_if_applicable(params: &Vec<String>, sexpr: &SExpr, funcs: &Vec<IRFunction>) -> (r: Result<
    Option<IrArgument>,
    CompileError,
>)
    ensures
        r == operand_of(params@, funcs@, *sexpr),
{
    match sexpr {
        SExpr::Symbol(_, s) => match find_param(params, s) {
            Some(k) => Ok(Some(IrArgument::Argument(k))),
            None => Err(CompileError::UnsupportedConstruct),
        },
        SExpr::Function(_, f) => match find_function(funcs, f) {
            Some(k) => {
                if funcs[k].captured_names.len() == 0 {
                    Ok(Some(IrArgument::Function(f.clone())))
                } else {
                    Ok(None)
                }
            },
            None => Err(CompileError::InternalInvariantViolation),
        },
        _ => Ok(None),
    }
}

/// Appends an instruction that defines the next local.
fn push_definition(func: &mut IrFunction, instr: IrInstruction, args: Vec<IrArgument>) -> (r: Result<
    usize,
    CompileError,
>)
    ensures
        final(func).name == old(func).name,
        final(func).argc == old(func).argc,
        r matches Ok(l) ==> last_local(final(func).stream()) == Some(l) && l == next_local(
            old(func).stream(),
        ) && define(
            old(func).stream(),
            instr,
            args@,
        ) == Ok::<_, CompileError>(final(func).stream()),
        r matches Err(x) ==> define(old(func).stream(), instr, args@) == Err::<Seq<SsaView>, _>(x),
{
    let local = match func.get_last_local() {
        Some(l) => {
            if l == usize::MAX {
                return Err(CompileError::InternalInvariantViolation);
            }
            l + 1
        },
        None => 0,
    };
    let ghost before = func.ssas@;
    let x = IrSsa {
        local: Some(local),
        local_lifetime: 0,
        local_register: 0,
        instr: instr,
        args: args,
    };
    func.ssas.push(x);
    proof {
        lemma_stream_push(before, x);
        assert(func.stream().drop_last() =~= stream(before));
    }
    Ok(local)
}

/// Appends the instructions that compute `sexpr` into a fresh local, and
/// returns that local.
fn conversion_helper(
    params: &Vec<String>,
    func: &mut IrFunction,
    sexpr: &SExpr,
    funcs: &Vec<IRFunction>,
) -> (r: Result<usize, CompileError>)
    ensures
        final(func).name == old(func).name,
        final(func).argc == old(func).argc,
        r matches Ok(l) ==> last_local(final(func).stream()) == Some(l) && lower(
            params@,
            funcs@,
            *sexpr,
            old(func).stream(),
        ) == Ok::<_, CompileError>(final(func).stream()),
        r matches Err(x) ==> lower(params@, funcs@, *sexpr, old(func).stream()) == Err::<
            Seq<SsaView>,
            _,
        >(x),
    decreases *sexpr, 0int,
{
    match get_arg_if_applicable(params, sexpr, funcs) {
        Err(x) => Err(x),
        Ok(Some(op)) => {
            let args = vec![op];
            assert(args@ =~= seq![op]);
            push_definition(func, IrInstruction::Load, args)
        },
        Ok(None) => match sexpr {
            SExpr::Function(_, f) => {
                let k = match find_function(funcs, f) {
                    Some(k) => k,
                    None => {
                        return Err(CompileError::InternalInvariantViolation);
                    },
                };
                let ops = get_captured_operands(params, &funcs[k].captured_names)?;
                let mut args: Vec<IrArgument> = vec![IrArgument::Function(f.clone())];
                let mut ops = ops;
                let ghost ops_view = ops@;
                args.append(&mut ops);
                assert(args@ =~= seq![IrArgument::Function(*f)] + ops_view);
                push_definition(func, IrInstruction::Apply, args)
            },
            SExpr::Application(m, f, a) => {
                let fop = conversion_operand(params, func, f, funcs)?;
                let aop = conversion_operand(params, func, a, funcs)?;
                let instr = match m.arity {
                    ArityInfo::Known(v) => {
                        if v != 0 {
                            IrInstruction::Apply
                        } else {
                            IrInstruction::Call(true)
                        }
                    },
                    ArityInfo::Unknown => IrInstruction::Call(false),
                };
                let args = vec![fop, aop];
                assert(args@ =~= seq![fop, aop]);
                push_definition(func, instr, args)
            },
            _ => Err(CompileError::UnsupportedConstruct),
        },
    }
}

/// The operand for `sexpr`, appending the instructions that compute it when
/// it needs any.
fn conversion_operand(
    params: &Vec<String>,
    func: &mut IrFunction,
    sexpr: &SExpr,
    funcs: &Vec<IRFunction>,
) -> (r: Result<IrArgument, CompileError>)
    ensures
        final(func).name == old(func).name,
        final(func).argc == old(func).argc,
        r matches Ok(op) ==> lower_operand(params@, funcs@, *sexpr, old(func).stream()) == Ok::<
            _,
            CompileError,
        >((final(func).stream(), op)),
        r matches Err(x) ==> lower_operand(params@, funcs@, *sexpr, old(func).stream()) == Err::<
            (Seq<SsaView>, IrArgument),
            _,
        >(x),
    decreases *sexpr, 1int,
{
    match get_arg_if_applicable(params, sexpr, funcs) {
        Err(x) => Err(x),
        Ok(Some(op)) => Ok(op),
        Ok(None) => {
            let l = conversion_helper(params, func, sexpr, funcs)?;
            Ok(IrArgument::Local(l))
        },
    }
}

/// The parameters of `f` in calling order: captured values, then arguments.
pub open spec fn params_of(f: IRFunction) -> Seq<String> {
    f.captured_names@ + f.args@.map_values(|a: (String, Type)| a.0)
}

/// The final instruction of a body whose instructions are `s`: it returns
/// the local defined last, if any.
pub open spec fn ret_instr(s: Seq<SsaView>) -> SsaView {
    SsaView {
        local: None,
        lifetime: 0,
        register: 0,
        instr: IrInstruction::Ret,
        args: match last_local(s) {
            Some(l) => seq![IrArgument::Local(l)],
            None => seq![],
        },
    }
}

/// A lowered body, terminated, with lifetimes and reference counting.
pub open spec fn finish(s: Seq<SsaView>) -> Seq<SsaView> {
    let t = with_lifetimes(s.push(ret_instr(s)));
    with_rc(t, t.len() as int)
}

/// What `f` compiles to: its parameter count and its instruction stream.
pub open spec fn compiled(funcs: Seq<IRFunction>, f: IRFunction) -> Result<
    (usize, Seq<SsaView>),
    CompileError,
> {
    if f.captured_names@.len() + f.args@.len() > usize::MAX {
        Err(CompileError::InternalInvariantViolation)
    } else {
        match lower(params_of(f), funcs, f.body, seq![]) {
            Err(x) => Err(x),
            Ok(s) => Ok(((f.captured_names@.len() + f.args@.len()) as usize, finish(s))),
        }
    }
}

/// The parameter names of `f`, captured values first.
fn parameter_names(f: &IRFunction) -> (r: Vec<String>)
    ensures
        r@ == params_of(*f),
{
    let mut r: Vec<String> = Vec::new();
    let mut k: usize = 0;
    while k < f.captured_names.len()
        invariant
            k <= f.captured_names@.len(),
            r@ == f.captured_names@.take(k as int),
        decreases f.captured_names@.len() - k,
    {
        r.push(f.captured_names[k].clone());
        k = k + 1;
        assert(r@ =~= f.captured_names@.take(k as int));
    }
    assert(f.captured_names@.take(k as int) =~= f.captured_names@);
    let ghost names = f.args@.map_values(|a: (String, Type)| a.0);
    let mut j: usize = 0;
    while j < f.args.len()
        invariant
            j <= f.args@.len(),
            names == f.args@.map_values(|a: (String, Type)| a.0),
            r@ == f.captured_names@ + names.take(j as int),
        decreases f.args@.len() - j,
    {
        r.push(f.args[j].0.clone());
        j = j + 1;
        assert(r@ =~= f.captured_names@ + names.take(j as int));
    }
    assert(names.take(j as int) =~= names);
    r
}

/// Compiles one function of the typed tree.
fn compile_function(f: &IRFunction, funcs: &Vec<IRFunction>) -> (r: Result<IrFunction, CompileError>)
    ensures
        r matches Ok(g) ==> g.name == f.name && compiled(funcs@, *f) == Ok::<_, CompileError>(
            (g.argc, g.stream()),
        ),
        r matches Err(x) ==> compiled(funcs@, *f) == Err::<(usize, Seq<SsaView>), _>(x),
{
    let nc = f.captured_names.len();
    let na = f.args.len();
    if nc > usize::MAX - na {
        return Err(CompileError::InternalInvariantViolation);
    }
    let params = parameter_names(f);
    let mut g = IrFunction { name: f.name.clone(), argc: nc + na, ssas: Vec::new() };
    assert(g.stream() =~= seq![]);
    conversion_helper(&params, &mut g, &f.body, funcs)?;
    let ghost lowered = g.stream();
    let ret_args = match g.get_last_local() {
        Some(l) => vec![IrArgument::Local(l)],
        None => Vec::new(),
    };
    let ret = IrSsa {
        local: None,
        local_lifetime: 0,
        local_register: 0,
        instr: IrInstruction::Ret,
        args: ret_args,
    };
    assert(ret@.args =~= ret_instr(lowered).args);
    let ghost before = g.ssas@;
    g.ssas.push(ret);
    proof {
        lemma_stream_push(before, ret);
    }
    calculate_lifetimes(&mut g);
    insert_rc_instructions(&mut g);
    Ok(g)
}

/// Lowers every function of the typed tree, in order, into the SSA form with
/// lifetimes and reference counting. Fails with the error of the first
/// function that cannot be lowered.
pub fn convert_frontend_ir_to_backend_ir(module: &IR) -> (r: Result<IrModule, CompileError>)
    ensures
        r is Ok <==> forall|i: int|
            0 <= i < module.funcs@.len() ==> (#[trigger] compiled(
                module.funcs@,
                module.funcs@[i],
            )) is Ok,
        r matches Ok(m) ==> m.funcs@.len() == module.funcs@.len() && forall|i: int|
            0 <= i < m.funcs@.len() ==> (#[trigger] m.funcs@[i]).name == module.funcs@[i].name
                && compiled(module.funcs@, module.funcs@[i]) == Ok::<_, CompileError>(
                (m.funcs@[i].argc, m.funcs@[i].stream()),
            ),
        r matches Err(x) ==> exists|i: int|
            0 <= i < module.funcs@.len() && compiled(module.funcs@, #[trigger] module.funcs@[i])
                == Err::<(usize, Seq<SsaView>), _>(x),
{
    let mut new = IrModule { funcs: Vec::new() };
    let mut i: usize = 0;
    while i < module.funcs.len()
        invariant
            i <= module.funcs@.len(),
            new.funcs@.len() == i,
            forall|k: int|
                0 <= k < i ==> (#[trigger] new.funcs@[k]).name == module.funcs@[k].name
                    && compiled(module.funcs@, module.funcs@[k]) == Ok::<_, CompileError>(
                    (new.funcs@[k].argc, new.funcs@[k].stream()),
                ),
        decreases module.funcs@.len() - i,
    {
        let g = match compile_function(&module.funcs[i], &module.funcs) {
            Ok(g) => g,
            Err(x) => {
                assert(compiled(module.funcs@, module.funcs@[i as int]) is Err);
                return Err(x);
            },
        };
        new.funcs.push(g);
        i = i + 1;
    }
    assert forall|k: int| 0 <= k < module.funcs@.len() implies (#[trigger] compiled(
        module.funcs@,
        module.funcs@[k],
    )) is Ok by {
        assert(new.funcs@[k].name == module.funcs@[k].name);
    }
    Ok(new)
}

} // verus!
