use vstd::prelude::*;

use crate::error::CompileError;
use crate::frontend::{IRFunction, SExpr};
use crate::ir::{
    compiled, define, dies_at, expand, finish, lemma_lifetime_is_last_use, last_local, lower,
    lower_operand, marker, markers, next_local, owns_result, params_of, releases_after, releases_at,
    ret_instr, retains_before, uses_local, with_lifetimes, with_rc, IrArgument, IrInstruction,
    SsaView,
};

verus! {

/// How many instructions of `s` are the marker `marker(instr, a)`.
pub open spec fn count_markers(s: Seq<SsaView>, instr: IrInstruction, a: IrArgument) -> nat
    decreases s.len(),
{
    if s.len() == 0 {
        0
    } else {
        count_markers(s.drop_last(), instr, a) + if s.last() == marker(instr, a) {
            1nat
        } else {
            0nat
        }
    }
}

/// How many of the operands after the first (the callee) are `a`.
pub open spec fn occurrences(args: Seq<IrArgument>, a: IrArgument) -> nat
    decreases args.len(),
{
    if args.len() <= 1 {
        0
    } else {
        occurrences(args.drop_last(), a) + if args.last() == a {
            1nat
        } else {
            0nat
        }
    }
}

/// How many times the instructions `instr` among the first `n` of `s` take
/// `a` as an operand after the callee.
pub open spec fn bound_by(s: Seq<SsaView>, instr: IrInstruction, a: IrArgument, n: int) -> nat
    decreases n,
{
    if n <= 0 {
        0
    } else {
        bound_by(s, instr, a, n - 1) + if s[n - 1].instr == instr {
            occurrences(s[n - 1].args, a)
        } else {
            0nat
        }
    }
}

/// Whether `a` is an owned local (the result of an `Apply` or a `Call`)
/// whose last use comes before the final instruction of `s`.
pub open spec fn released_owned(s: Seq<SsaView>, a: IrArgument) -> bool {
    exists|d: int|
        0 <= d < s.len() && owns_result(#[trigger] s[d]) && a == IrArgument::Local(
            s[d].local->Some_0,
        ) && d + s[d].lifetime + 1 < s.len()
}

/// `released_owned`, counting only last uses before instruction `n`.
pub open spec fn released_before(s: Seq<SsaView>, a: IrArgument, n: int) -> bool {
    exists|d: int|
        0 <= d < s.len() && owns_result(#[trigger] s[d]) && a == IrArgument::Local(
            s[d].local->Some_0,
        ) && d + s[d].lifetime < n && d + s[d].lifetime + 1 < s.len()
}

/// Whether `s` holds no retain and no release.
pub open spec fn no_rc_ops(s: Seq<SsaView>) -> bool {
    forall|i: int|
        0 <= i < s.len() ==> (#[trigger] s[i]).instr != IrInstruction::RcInc && s[i].instr
            != IrInstruction::RcFuncFree
}

/// Whether no two instructions of `s` define the same local.
pub open spec fn unique_locals(s: Seq<SsaView>) -> bool {
    forall|i: int, j: int|
        0 <= i < s.len() && 0 <= j < s.len() && i != j && (#[trigger] s[i]).local is Some && (
        #[trigger] s[j]).local is Some ==> s[i].local != s[j].local
}

proof fn lemma_count_concat(x: Seq<SsaView>, y: Seq<SsaView>, instr: IrInstruction, a: IrArgument)
    ensures
        count_markers(x + y, instr, a) == count_markers(x, instr, a) + count_markers(y, instr, a),
    decreases y.len(),
{
    if y.len() == 0 {
        assert(x + y =~= x);
    } else {
        assert((x + y).drop_last() =~= x + y.drop_last());
        lemma_count_concat(x, y.drop_last(), instr, a);
    }
}

proof fn lemma_count_markers(m: IrInstruction, args: Seq<IrArgument>, instr: IrInstruction, a: IrArgument)
    requires
        !(a is Function),
    ensures
        count_markers(markers(m, args), instr, a) == if m == instr {
            occurrences(args, a)
        } else {
            0
        },
    decreases args.len(),
{
    if args.len() <= 1 {
        assert(markers(m, args) =~= Seq::<SsaView>::empty());
    } else {
        lemma_count_markers(m, args.drop_last(), instr, a);
        let rest = markers(m, args.drop_last());
        let x = args.last();
        if !(x is Function) {
            let mk = marker(m, x);
            assert(markers(m, args).drop_last() =~= rest);
            assert(mk.args[0] == x);
            assert(marker(instr, a).args[0] == a);
            if mk == marker(instr, a) {
                assert(m == instr && x == a);
            }
        }
    }
}

proof fn lemma_count_releases(s: Seq<SsaView>, i: int, hi: int, instr: IrInstruction, a: IrArgument)
    requires
        unique_locals(s),
        0 <= hi <= s.len(),
    ensures
        count_markers(releases_at(s, i, hi), instr, a) == if instr == IrInstruction::RcFuncFree
            && exists|d: int|
            0 <= d < hi && #[trigger] dies_at(s, d, i) && a == IrArgument::Local(
                s[d].local->Some_0,
            ) {
            1nat
        } else {
            0nat
        },
    decreases hi,
{
    if hi > 0 {
        lemma_count_releases(s, i, hi - 1, instr, a);
        let d = hi - 1;
        let hit = instr == IrInstruction::RcFuncFree && dies_at(s, d, i) && a == IrArgument::Local(
            s[d].local->Some_0,
        );
        if dies_at(s, d, i) {
            let mk = marker(IrInstruction::RcFuncFree, IrArgument::Local(s[d].local->Some_0));
            assert(releases_at(s, i, hi).drop_last() =~= releases_at(s, i, hi - 1));
            assert(releases_at(s, i, hi).last() == mk);
            assert(mk.args[0] == IrArgument::Local(s[d].local->Some_0));
            assert(marker(instr, a).args[0] == a);
            if mk == marker(instr, a) {
                assert(hit);
            }
        }
        if hit {
            assert forall|e: int|
                0 <= e < hi - 1 && #[trigger] dies_at(s, e, i) implies a != IrArgument::Local(
                s[e].local->Some_0,
            ) by {
                assert(s[e].local is Some && s[d].local is Some);
            }
        } else {
            if exists|e: int|
                0 <= e < hi && #[trigger] dies_at(s, e, i) && a == IrArgument::Local(
                    s[e].local->Some_0,
                ) {
                let e = choose|e: int|
                    0 <= e < hi && #[trigger] dies_at(s, e, i) && a == IrArgument::Local(
                        s[e].local->Some_0,
                    );
                if instr == IrInstruction::RcFuncFree {
                    assert(e != d);
                    assert(0 <= e < hi - 1);
                }
            }
        }
    }
}

proof fn lemma_count_expand(s: Seq<SsaView>, i: int, instr: IrInstruction, a: IrArgument)
    requires
        no_rc_ops(s),
        unique_locals(s),
        0 <= i < s.len(),
        !(a is Function),
        instr == IrInstruction::RcInc || instr == IrInstruction::RcFuncFree,
    ensures
        count_markers(expand(s, i), instr, a) == (if instr == IrInstruction::RcInc && (s[i].instr
            == IrInstruction::Apply || s[i].instr == IrInstruction::Call(false)) {
            occurrences(s[i].args, a)
        } else {
            0nat
        }) + (if instr == IrInstruction::RcFuncFree && s[i].instr == IrInstruction::Call(false) {
            occurrences(s[i].args, a)
        } else {
            0nat
        }) + (if instr == IrInstruction::RcFuncFree && i + 1 < s.len() && exists|d: int|
            0 <= d < i + 1 && #[trigger] dies_at(s, d, i) && a == IrArgument::Local(
                s[d].local->Some_0,
            ) {
            1nat
        } else {
            0nat
        }),
{
    let r = retains_before(s[i]);
    let me = seq![s[i]];
    let f = releases_after(s[i]);
    let rel = if i + 1 < s.len() {
        releases_at(s, i, i + 1)
    } else {
        seq![]
    };
    assert(expand(s, i) == r + me + f + rel);
    assert(count_markers(Seq::<SsaView>::empty(), instr, a) == 0);
    lemma_count_concat(r + me + f, rel, instr, a);
    lemma_count_concat(r + me, f, instr, a);
    lemma_count_concat(r, me, instr, a);
    assert(me.drop_last() =~= Seq::<SsaView>::empty());
    assert(s[i] != marker(instr, a));
    lemma_count_markers(IrInstruction::RcInc, s[i].args, instr, a);
    lemma_count_markers(IrInstruction::RcFuncFree, s[i].args, instr, a);
    assert(count_markers(me, instr, a) == 0);
    if i + 1 < s.len() {
        lemma_count_releases(s, i, i + 1, instr, a);
    }
    assert(count_markers(r, instr, a) == if instr == IrInstruction::RcInc && (s[i].instr
        == IrInstruction::Apply || s[i].instr == IrInstruction::Call(false)) {
        occurrences(s[i].args, a)
    } else {
        0nat
    });
    assert(count_markers(f, instr, a) == if instr == IrInstruction::RcFuncFree && s[i].instr
        == IrInstruction::Call(false) {
        occurrences(s[i].args, a)
    } else {
        0nat
    });
}

proof fn lemma_balance_upto(s: Seq<SsaView>, a: IrArgument, n: int)
    requires
        no_rc_ops(s),
        unique_locals(s),
        !(a is Function),
        0 <= n <= s.len(),
    ensures
        count_markers(with_rc(s, n), IrInstruction::RcInc, a) == bound_by(
            s,
            IrInstruction::Apply,
            a,
            n,
        ) + bound_by(s, IrInstruction::Call(false), a, n),
        count_markers(with_rc(s, n), IrInstruction::RcFuncFree, a) == bound_by(
            s,
            IrInstruction::Call(false),
            a,
            n,
        ) + if released_before(s, a, n) {
            1nat
        } else {
            0nat
        },
    decreases n,
{
    if n == 0 {
        assert(!released_before(s, a, 0));
    } else {
        let i = n - 1;
        lemma_balance_upto(s, a, i);
        lemma_count_concat(with_rc(s, i), expand(s, i), IrInstruction::RcInc, a);
        lemma_count_concat(with_rc(s, i), expand(s, i), IrInstruction::RcFuncFree, a);
        lemma_count_expand(s, i, IrInstruction::RcInc, a);
        lemma_count_expand(s, i, IrInstruction::RcFuncFree, a);
        let dies_here = i + 1 < s.len() && exists|d: int|
            0 <= d < i + 1 && #[trigger] dies_at(s, d, i) && a == IrArgument::Local(
                s[d].local->Some_0,
            );
        if dies_here {
            let d = choose|d: int|
                0 <= d < i + 1 && #[trigger] dies_at(s, d, i) && a == IrArgument::Local(
                    s[d].local->Some_0,
                );
            assert(owns_result(s[d]));
            if released_before(s, a, i) {
                let e = choose|e: int|
                    0 <= e < s.len() && owns_result(#[trigger] s[e]) && a == IrArgument::Local(
                        s[e].local->Some_0,
                    ) && e + s[e].lifetime < i && e + s[e].lifetime + 1 < s.len();
                assert(s[e].local is Some && s[d].local is Some);
                assert(e == d);
                assert(false);
            }
            assert(released_before(s, a, n));
        } else {
            if released_before(s, a, n) {
                let e = choose|e: int|
                    0 <= e < s.len() && owns_result(#[trigger] s[e]) && a == IrArgument::Local(
                        s[e].local->Some_0,
                    ) && e + s[e].lifetime < n && e + s[e].lifetime + 1 < s.len();
                if e + s[e].lifetime == i {
                    assert(dies_at(s, e, i));
                    assert(false);
                }
                assert(released_before(s, a, i));
            }
            if released_before(s, a, i) {
                let e = choose|e: int|
                    0 <= e < s.len() && owns_result(#[trigger] s[e]) && a == IrArgument::Local(
                        s[e].local->Some_0,
                    ) && e + s[e].lifetime < i && e + s[e].lifetime + 1 < s.len();
                assert(released_before(s, a, n));
            }
        }
    }
}

/// Reference counts balance in the stream that the pass produces from a
/// stream without retains or releases, whose locals are each defined once.
/// For an operand `a` that is not a function address: every retain of `a`
/// goes with one binding of `a` into a closure built by an `Apply` (which
/// releases it when that closure is freed) or with one dynamically
/// dispatched `Call` that borrows it; every such call is followed by one
/// release of `a`; and besides those, `a` is released exactly once when it is
/// an owned local whose last use comes before the final instruction, and
/// never otherwise (an owned local alive at the end goes to the caller).
pub proof fn lemma_rc_balance(s: Seq<SsaView>, a: IrArgument)
    requires
        no_rc_ops(s),
        unique_locals(s),
        !(a is Function),
    ensures
        count_markers(with_rc(s, s.len() as int), IrInstruction::RcInc, a) == bound_by(
            s,
            IrInstruction::Apply,
            a,
            s.len() as int,
        ) + bound_by(s, IrInstruction::Call(false), a, s.len() as int),
        count_markers(with_rc(s, s.len() as int), IrInstruction::RcFuncFree, a) == bound_by(
            s,
            IrInstruction::Call(false),
            a,
            s.len() as int,
        ) + if released_owned(s, a) {
            1nat
        } else {
            0nat
        },
{
    lemma_balance_upto(s, a, s.len() as int);
    if released_owned(s, a) {
        let d = choose|d: int|
            0 <= d < s.len() && owns_result(#[trigger] s[d]) && a == IrArgument::Local(
                s[d].local->Some_0,
            ) && d + s[d].lifetime + 1 < s.len();
        assert(released_before(s, a, s.len() as int));
    }
}

/// Whether `s` is as the builder leaves it: every instruction is a `Load`,
/// an `Apply` or a `Call` defining a local, with locals numbered upwards.
pub open spec fn built(s: Seq<SsaView>) -> bool {
    &&& forall|i: int|
        0 <= i < s.len() ==> (#[trigger] s[i]).local is Some && (s[i].instr
            == IrInstruction::Load || s[i].instr == IrInstruction::Apply || s[i].instr is Call)
    &&& forall|i: int, j: int|
        0 <= i < j < s.len() ==> (#[trigger] s[i]).local->Some_0 < (#[trigger] s[j]).local->Some_0
}

proof fn lemma_define_keeps(s: Seq<SsaView>, instr: IrInstruction, args: Seq<IrArgument>)
    requires
        built(s),
        instr == IrInstruction::Load || instr == IrInstruction::Apply || instr is Call,
    ensures
        define(s, instr, args) matches Ok(s1) ==> built(s1),
{
    if let Ok(s1) = define(s, instr, args) {
        if s.len() > 0 {
            assert(last_local(s) == s.last().local);
            assert forall|i: int| 0 <= i < s.len() implies (#[trigger] s[i]).local->Some_0
                < next_local(s) by {
                if i < s.len() - 1 {
                    assert(s[i].local->Some_0 < s[s.len() - 1].local->Some_0);
                }
            }
        }
        assert forall|i: int, j: int| 0 <= i < j < s1.len() implies (#[trigger] s1[i]).local->Some_0
            < (#[trigger] s1[j]).local->Some_0 by {
            if j == s.len() {
                assert(s1[i] == s[i]);
            } else {
                assert(s1[i] == s[i] && s1[j] == s[j]);
            }
        }
    }
}

proof fn lemma_lower_keeps(params: Seq<String>, funcs: Seq<IRFunction>, e: SExpr, s: Seq<SsaView>)
    requires
        built(s),
    ensures
        lower(params, funcs, e, s) matches Ok(s1) ==> built(s1),
    decreases e, 0int,
{
    match e {
        SExpr::Application(m, f, a) => {
            lemma_lower_operand_keeps(params, funcs, *f, s);
            if let Ok((s1, _)) = lower_operand(params, funcs, *f, s) {
                lemma_lower_operand_keeps(params, funcs, *a, s1);
                if let Ok((s2, _)) = lower_operand(params, funcs, *a, s1) {
                    lemma_define_all(s2);
                }
            }
        },
        _ => {},
    }
    lemma_define_all(s);
}

proof fn lemma_define_all(s: Seq<SsaView>)
    requires
        built(s),
    ensures
        forall|instr: IrInstruction, args: Seq<IrArgument>|
            (instr == IrInstruction::Load || instr == IrInstruction::Apply || instr is Call) && (
            #[trigger] define(s, instr, args)) is Ok ==> built(define(s, instr, args)->Ok_0),
{
    assert forall|instr: IrInstruction, args: Seq<IrArgument>|
        (instr == IrInstruction::Load || instr == IrInstruction::Apply || instr is Call) && (
        #[trigger] define(s, instr, args)) is Ok implies built(define(s, instr, args)->Ok_0) by {
        lemma_define_keeps(s, instr, args);
    }
}

proof fn lemma_lower_operand_keeps(
    params: Seq<String>,
    funcs: Seq<IRFunction>,
    e: SExpr,
    s: Seq<SsaView>,
)
    requires
        built(s),
    ensures
        lower_operand(params, funcs, e, s) matches Ok((s1, _)) ==> built(s1),
    decreases e, 1int,
{
    lemma_lower_keeps(params, funcs, e, s);
}

/// Reference counts balance in every stream that compiling a function
/// emits. Its body, lowered, terminated and given lifetimes, is a stream `t`
/// without retains or releases whose locals are each defined once; the
/// emitted stream is `t` with retains and releases inserted, and for each
/// operand `a` that is not a function address the ledger of the balance law
/// holds: retains match bindings into closures and borrows by dynamic calls,
/// and an owned local is released exactly once unless it is returned.
pub proof fn lemma_compiled_rc_balance(funcs: Seq<IRFunction>, f: IRFunction, a: IrArgument)
    requires
        compiled(funcs, f) is Ok,
        !(a is Function),
    ensures
        ({
            let s = lower(params_of(f), funcs, f.body, seq![])->Ok_0;
            let t = with_lifetimes(s.push(ret_instr(s)));
            &&& compiled(funcs, f)->Ok_0.1 == finish(s)
            &&& finish(s) == with_rc(t, t.len() as int)
            &&& no_rc_ops(t)
            &&& unique_locals(t)
            &&& count_markers(finish(s), IrInstruction::RcInc, a) == bound_by(
                t,
                IrInstruction::Apply,
                a,
                t.len() as int,
            ) + bound_by(t, IrInstruction::Call(false), a, t.len() as int)
            &&& count_markers(finish(s), IrInstruction::RcFuncFree, a) == bound_by(
                t,
                IrInstruction::Call(false),
                a,
                t.len() as int,
            ) + if released_owned(t, a) {
                1nat
            } else {
                0nat
            }
        }),
{
    let s = lower(params_of(f), funcs, f.body, seq![])->Ok_0;
    lemma_lower_keeps(params_of(f), funcs, f.body, seq![]);
    let u = s.push(ret_instr(s));
    let t = with_lifetimes(u);
    assert forall|i: int| 0 <= i < t.len() implies (#[trigger] t[i]).instr != IrInstruction::RcInc
        && t[i].instr != IrInstruction::RcFuncFree by {
        if i < s.len() {
            assert(t[i].instr == s[i].instr);
        }
    }
    assert forall|i: int, j: int|
        0 <= i < t.len() && 0 <= j < t.len() && i != j && (#[trigger] t[i]).local is Some && (
        #[trigger] t[j]).local is Some implies t[i].local != t[j].local by {
        assert(t[i].local == u[i].local && t[j].local == u[j].local);
        if i < j {
            assert(s[i].local->Some_0 < s[j].local->Some_0);
        } else {
            assert(s[j].local->Some_0 < s[i].local->Some_0);
        }
    }
    lemma_rc_balance(t, a);
}

/// Whether no instruction of `s` has `a` among its operands.
pub open spec fn never_mentions(s: Seq<SsaView>, a: IrArgument) -> bool {
    forall|k: int| 0 <= k < s.len() ==> !(#[trigger] s[k].args).contains(a)
}

proof fn lemma_never_mentions_concat(x: Seq<SsaView>, y: Seq<SsaView>, a: IrArgument)
    requires
        never_mentions(x, a),
        never_mentions(y, a),
    ensures
        never_mentions(x + y, a),
{
    assert forall|k: int| 0 <= k < (x + y).len() implies !(#[trigger] (x + y)[k].args).contains(a) by {
        if k >= x.len() {
            assert((x + y)[k] == y[k - x.len()]);
        } else {
            assert((x + y)[k] == x[k]);
        }
    }
}

proof fn lemma_markers_never_mention(m: IrInstruction, args: Seq<IrArgument>, a: IrArgument)
    requires
        !args.contains(a),
    ensures
        never_mentions(markers(m, args), a),
    decreases args.len(),
{
    if args.len() > 1 {
        assert forall|k: int| 0 <= k < args.len() - 1 implies args.drop_last()[k] != a by {
            assert(args[k] == args.drop_last()[k]);
        }
        lemma_markers_never_mention(m, args.drop_last(), a);
        if !(args.last() is Function) {
            let mk = marker(m, args.last());
            assert(args.contains(args[args.len() - 1]));
            if mk.args.contains(a) {
                assert(mk.args[0] == a);
            }
            let r = markers(m, args);
            assert forall|k: int| 0 <= k < r.len() implies !(#[trigger] r[k].args).contains(a) by {
                if k == r.len() - 1 {
                    assert(r[k] == mk);
                } else {
                    assert(r[k] == markers(m, args.drop_last())[k]);
                }
            }
        }
    }
}

proof fn lemma_releases_never_mention(s: Seq<SsaView>, i: int, hi: int, d: int)
    requires
        unique_locals(s),
        0 <= hi <= s.len(),
        0 <= d < s.len(),
        s[d].local is Some,
        d + s[d].lifetime != i,
    ensures
        never_mentions(releases_at(s, i, hi), IrArgument::Local(s[d].local->Some_0)),
    decreases hi,
{
    let a = IrArgument::Local(s[d].local->Some_0);
    if hi > 0 {
        lemma_releases_never_mention(s, i, hi - 1, d);
        let e = hi - 1;
        if dies_at(s, e, i) {
            let mk = marker(IrInstruction::RcFuncFree, IrArgument::Local(s[e].local->Some_0));
            assert(e != d);
            assert(s[e].local != s[d].local);
            if mk.args.contains(a) {
                assert(mk.args[0] == a);
            }
            let r = releases_at(s, i, hi);
            assert forall|k: int| 0 <= k < r.len() implies !(#[trigger] r[k].args).contains(a) by {
                if k == r.len() - 1 {
                    assert(r[k] == mk);
                } else {
                    assert(r[k] == releases_at(s, i, hi - 1)[k]);
                }
            }
        }
    }
}

/// No owned local is used after its release. Take a stream `u` whose locals
/// are each defined once, give it lifetimes (`t`), and let the local defined
/// at `d` by an `Apply` or a `Call` die at instruction `i = d + lifetime`;
/// the pass releases it within what `i` becomes, after `t[i]` itself. Then
/// what every later instruction becomes (its retains, itself, its releases)
/// never has that local as an operand.
pub proof fn lemma_no_use_after_release(u: Seq<SsaView>, d: int, j: int)
    requires
        unique_locals(u),
        u.len() <= usize::MAX,
        0 <= d < u.len(),
        owns_result(u[d]),
        d + with_lifetimes(u)[d].lifetime < j < u.len(),
    ensures
        never_mentions(expand(with_lifetimes(u), j), IrArgument::Local(u[d].local->Some_0)),
{
    let t = with_lifetimes(u);
    let l = u[d].local->Some_0;
    let a = IrArgument::Local(l);
    lemma_lifetime_is_last_use(u, d);
    assert(!uses_local(t[j].args, l));
    assert(!t[j].args.contains(a)) by {
        if t[j].args.contains(a) {
            let k = choose|k: int| 0 <= k < t[j].args.len() && t[j].args[k] == a;
        }
    }
    assert(unique_locals(t)) by {
        assert forall|x: int, y: int|
            0 <= x < t.len() && 0 <= y < t.len() && x != y && (#[trigger] t[x]).local is Some && (
            #[trigger] t[y]).local is Some implies t[x].local != t[y].local by {
            assert(t[x].local == u[x].local && t[y].local == u[y].local);
        }
    }
    lemma_markers_never_mention(IrInstruction::RcInc, t[j].args, a);
    lemma_markers_never_mention(IrInstruction::RcFuncFree, t[j].args, a);
    let me = seq![t[j]];
    assert(never_mentions(me, a)) by {
        assert forall|k: int| 0 <= k < me.len() implies !(#[trigger] me[k].args).contains(a) by {
            assert(me[k] == t[j]);
        }
    }
    let empty = Seq::<SsaView>::empty();
    assert(never_mentions(empty, a));
    let r = retains_before(t[j]);
    let f = releases_after(t[j]);
    let rel = if j + 1 < t.len() {
        releases_at(t, j, j + 1)
    } else {
        empty
    };
    assert(t[d].local == u[d].local);
    if j + 1 < t.len() {
        lemma_releases_never_mention(t, j, j + 1, d);
    }
    lemma_never_mentions_concat(r, me, a);
    lemma_never_mentions_concat(r + me, f, a);
    lemma_never_mentions_concat(r + me + f, rel, a);
    assert(expand(t, j) == r + me + f + rel);
}

} // verus!
