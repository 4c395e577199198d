use vstd::prelude::*;

use crate::canon::{no_duplicates, tag_of, SumLayout};
use crate::error::CompileError;
use crate::types::{lemma_members_view, members_view, type_view, Type, TypeView};

verus! {

/// A run-time value. Heap data is referred to by handle.
#[derive(Copy, Clone, Debug, PartialEq, Eq, Structural)]
pub enum Value {
    Int(i64),
    /// A float, as the bits of its IEEE-754 representation.
    Float(u64),
    Bool(bool),
    /// The tag of an enum: it carries no payload.
    Unit,
    /// A string, by handle.
    Str(usize),
    /// A closure, by handle.
    Closure(usize),
    /// A tagged union, by handle.
    Union(usize),
}

/// A value of a sum type: the tag of its member and that member's value.
#[derive(Copy, Clone, Debug, PartialEq, Eq, Structural)]
pub struct TaggedValue {
    pub tag: usize,
    pub payload: Value,
}

/// A pointer-sized argument slot of a closure.
#[derive(Copy, Clone, Debug, PartialEq, Eq, Structural)]
pub enum Slot {
    /// A value stored in the slot itself.
    Word(u64),
    /// A value stored on the heap, by handle.
    Boxed(usize),
}

/// A bound argument: its slot, and whether releasing the closure that holds
/// it must release it too (its cleanup entry).
#[derive(Copy, Clone, Debug, PartialEq, Eq, Structural)]
pub struct BoundArg {
    pub slot: Slot,
    pub cleanup: bool,
}

/// Whether one of `ms` is a function type.
pub open spec fn has_function_member(ms: Seq<TypeView>) -> bool {
    exists|i: int| 0 <= i < ms.len() && ms[i] is Func
}

/// How a value of type `t` is bound into a slot: words for integers,
/// booleans and the bits of floats; handles for heap data, with a cleanup
/// entry for a closure, and for a union that may hold one. `None` when the
/// value does not have the type (or the type is a name, to resolve first).
pub open spec fn boxed(t: TypeView, v: Value) -> Option<BoundArg> {
    match (t, v) {
        (TypeView::Int, Value::Int(i)) => Some(BoundArg { slot: Slot::Word(i as u64), cleanup: false }),
        (TypeView::Float, Value::Float(b)) => Some(BoundArg { slot: Slot::Word(b), cleanup: false }),
        (TypeView::Bool, Value::Bool(b)) => Some(
            BoundArg { slot: Slot::Word(if b { 1 } else { 0 }), cleanup: false },
        ),
        (TypeView::Enum(_), Value::Unit) => Some(BoundArg { slot: Slot::Word(0), cleanup: false }),
        (TypeView::String, Value::Str(h)) => Some(BoundArg { slot: Slot::Boxed(h), cleanup: false }),
        (TypeView::Func(_, _), Value::Closure(h)) => Some(
            BoundArg { slot: Slot::Boxed(h), cleanup: true },
        ),
        (TypeView::Sum(ms), Value::Union(h)) => Some(
            BoundArg { slot: Slot::Boxed(h), cleanup: has_function_member(ms) },
        ),
        _ => None,
    }
}

/// The value of type `t` that the slot `s` holds, re-widened.
pub open spec fn unboxed(t: TypeView, s: Slot) -> Option<Value> {
    match (t, s) {
        (TypeView::Int, Slot::Word(w)) => Some(Value::Int(w as i64)),
        (TypeView::Float, Slot::Word(w)) => Some(Value::Float(w)),
        (TypeView::Bool, Slot::Word(w)) => Some(Value::Bool(w != 0)),
        (TypeView::Enum(_), Slot::Word(_)) => Some(Value::Unit),
        (TypeView::String, Slot::Boxed(h)) => Some(Value::Str(h)),
        (TypeView::Func(_, _), Slot::Boxed(h)) => Some(Value::Closure(h)),
        (TypeView::Sum(_), Slot::Boxed(h)) => Some(Value::Union(h)),
        _ => None,
    }
}

/// Binds `v`, of type `t`, into an argument slot.
pub fn box_argument(t: &Type, v: Value) -> (r: Result<BoundArg, CompileError>)
    ensures
        r matches Ok(b) ==> boxed(t@, v) == Some(b),
        r is Err ==> boxed(t@, v) is None,
{
    match (t, v) {
        (Type::Int, Value::Int(i)) => Ok(BoundArg { slot: Slot::Word(i as u64), cleanup: false }),
        (Type::Float, Value::Float(b)) => Ok(BoundArg { slot: Slot::Word(b), cleanup: false }),
        (Type::Bool, Value::Bool(b)) => Ok(
            BoundArg { slot: Slot::Word(if b { 1 } else { 0 }), cleanup: false },
        ),
        (Type::Enum(_), Value::Unit) => Ok(BoundArg { slot: Slot::Word(0), cleanup: false }),
        (Type::String, Value::Str(h)) => Ok(BoundArg { slot: Slot::Boxed(h), cleanup: false }),
        (Type::Func(_, _), Value::Closure(h)) => Ok(BoundArg { slot: Slot::Boxed(h), cleanup: true }),
        (Type::Sum(w), Value::Union(h)) => {
            proof {
                lemma_members_view(w.0@);
            }
            let mut owns = false;
            let mut k: usize = 0;
            while k < w.0.len()
                invariant
                    k <= w.0@.len(),
                    members_view(w.0@).len() == w.0@.len(),
                    forall|i: int|
                        0 <= i < w.0@.len() ==> #[trigger] members_view(w.0@)[i] == type_view(
                            w.0@[i],
                        ),
                    owns == exists|i: int| 0 <= i < k && members_view(w.0@)[i] is Func,
                decreases w.0@.len() - k,
            {
                let ghost mk = members_view(w.0@)[k as int];
                assert(mk == type_view(w.0@[k as int]));
                match &w.0[k] {
                    Type::Func(_, _) => {
                        owns = true;
                        assert(mk is Func);
                    },
                    _ => {
                        assert(!(mk is Func));
                    },
                }
                k = k + 1;
                assert(owns == exists|i: int| 0 <= i < k && members_view(w.0@)[i] is Func) by {
                    if owns && !(mk is Func) {
                        let i = choose|i: int| 0 <= i < k - 1 && members_view(w.0@)[i] is Func;
                    }
                }
            }
            Ok(BoundArg { slot: Slot::Boxed(h), cleanup: owns })
        },
        _ => Err(CompileError::InternalInvariantViolation),
    }
}

/// Reads back the value of type `t` that the slot `s` holds.
pub fn unbox_argument(t: &Type, s: Slot) -> (r: Result<Value, CompileError>)
    ensures
        r matches Ok(v) ==> unboxed(t@, s) == Some(v),
        r is Err ==> unboxed(t@, s) is None,
{
    match (t, s) {
        (Type::Int, Slot::Word(w)) => Ok(Value::Int(w as i64)),
        (Type::Float, Slot::Word(w)) => Ok(Value::Float(w)),
        (Type::Bool, Slot::Word(w)) => Ok(Value::Bool(w != 0)),
        (Type::Enum(_), Slot::Word(_)) => Ok(Value::Unit),
        (Type::String, Slot::Boxed(h)) => Ok(Value::Str(h)),
        (Type::Func(_, _), Slot::Boxed(h)) => Ok(Value::Closure(h)),
        (Type::Sum(_), Slot::Boxed(h)) => Ok(Value::Union(h)),
        _ => Err(CompileError::InternalInvariantViolation),
    }
}

/// Unboxing gives back what was boxed: a value bound into a slot and read
/// back at the same type is the value that was passed.
pub proof fn lemma_box_round_trip(t: TypeView, v: Value)
    requires
        boxed(t, v) is Some,
    ensures
        unboxed(t, boxed(t, v)->Some_0.slot) == Some(v),
{
    if let (TypeView::Int, Value::Int(i)) = (t, v) {
        assert(((i as u64) as i64) == i) by (bit_vector);
    }
}

/// A closure: code, the number of arguments it expects (captured values
/// included), and the arguments bound so far.
#[derive(Debug)]
pub struct ClosureValue {
    pub refcount: usize,
    pub code: String,
    pub arity: usize,
    pub args: Vec<BoundArg>,
}

/// A saturated closure ready for its wrapper: the code, the arguments in
/// application order, and the arguments left over for the call's result.
#[derive(Debug)]
pub struct Invocation {
    pub code: String,
    pub args: Vec<BoundArg>,
    pub rest: Vec<BoundArg>,
}

/// What pushing arguments onto a closure gives.
#[derive(Debug)]
pub enum CallStep {
    /// The closure still expects arguments.
    Pending(ClosureValue),
    /// The closure has all it expects and is invoked.
    Invoke(Invocation),
}

/// The arguments bound after the groups `groups` are applied one after the
/// other to a closure holding `bound`.
pub open spec fn apply_groups(bound: Seq<BoundArg>, groups: Seq<Seq<BoundArg>>) -> Seq<BoundArg>
    decreases groups.len(),
{
    if groups.len() == 0 {
        bound
    } else {
        apply_groups(bound, groups.drop_last()) + groups.last()
    }
}

/// The arguments of the groups, one after the other.
pub open spec fn flatten(groups: Seq<Seq<BoundArg>>) -> Seq<BoundArg>
    decreases groups.len(),
{
    if groups.len() == 0 {
        seq![]
    } else {
        flatten(groups.drop_last()) + groups.last()
    }
}

impl ClosureValue {
    /// A function value: `code` with no argument bound yet.
    pub fn new(code: String, arity: usize) -> (r: ClosureValue)
        ensures
            r.refcount == 1,
            r.code@ == code@,
            r.arity == arity,
            r.args@.len() == 0,
    {
        ClosureValue { refcount: 1, code: code, arity: arity, args: Vec::new() }
    }

    /// Partial application: a new closure, with the code and arity of this
    /// one, its bound arguments and then `more`. This closure is left as it
    /// is.
    pub fn apply(&self, more: &Vec<BoundArg>) -> (r: ClosureValue)
        requires
            self.args@.len() + more@.len() < self.arity,
        ensures
            r.refcount == 1,
            r.code@ == self.code@,
            r.arity == self.arity,
            r.args@ == self.args@ + more@,
    {
        let mut args: Vec<BoundArg> = Vec::new();
        let mut k: usize = 0;
        while k < self.args.len()
            invariant
                k <= self.args@.len(),
                args@ == self.args@.take(k as int),
            decreases self.args@.len() - k,
        {
            args.push(self.args[k]);
            k = k + 1;
            assert(args@ =~= self.args@.take(k as int));
        }
        let mut j: usize = 0;
        while j < more.len()
            invariant
                j <= more@.len(),
                args@ == self.args@ + more@.take(j as int),
            decreases more@.len() - j,
        {
            args.push(more[j]);
            j = j + 1;
            assert(args@ =~= self.args@ + more@.take(j as int));
        }
        assert(more@.take(j as int) =~= more@);
        ClosureValue { refcount: 1, code: self.code.clone(), arity: self.arity, args: args }
    }
}

/// Calls through a closure whose arity is known only at run time: the
/// arguments are appended one at a time, and once as many are bound as the
/// closure expects it is invoked with them, in application order; the
/// arguments left over go to the result of the call.
pub fn push_arguments(c: ClosureValue, more: Vec<BoundArg>) -> (r: CallStep)
    requires
        c.args@.len() <= c.arity,
    ensures
        (c.args@ + more@).len() < c.arity ==> (r matches CallStep::Pending(p) && p.args@ == c.args@
            + more@ && p.arity == c.arity && p.code@ == c.code@ && p.refcount == c.refcount),
        (c.args@ + more@).len() >= c.arity ==> (r matches CallStep::Invoke(i) && i.code@ == c.code@
            && i.args@ == (c.args@ + more@).take(c.arity as int) && i.rest@ == (c.args@
            + more@).skip(c.arity as int)),
{
    let mut c = c;
    let ghost c0 = c;
    let ghost all = c.args@ + more@;
    let mut k: usize = 0;
    while k < more.len() && c.args.len() < c.arity
        invariant
            k <= more@.len(),
            c.args@.len() <= c.arity,
            all == c0.args@ + more@,
            c.args@ == all.take(c0.args@.len() + k),
            c.arity == c0.arity,
            c.code == c0.code,
            c.refcount == c0.refcount,
        decreases more@.len() - k,
    {
        c.args.push(more[k]);
        k = k + 1;
        assert(c.args@ =~= all.take(c0.args@.len() + k));
    }
    if c.args.len() < c.arity {
        assert(all.take(all.len() as int) =~= all);
        return CallStep::Pending(c);
    }
    let mut rest: Vec<BoundArg> = Vec::new();
    let mut j: usize = k;
    while j < more.len()
        invariant
            k <= j <= more@.len(),
            rest@ == more@.subrange(k as int, j as int),
        decreases more@.len() - j,
    {
        rest.push(more[j]);
        j = j + 1;
        assert(rest@ =~= more@.subrange(k as int, j as int));
    }
    assert(c.args@ =~= all.take(c.arity as int));
    assert(rest@ =~= all.skip(c.arity as int));
    CallStep::Invoke(Invocation { code: c.code, args: c.args, rest: rest })
}

/// Currying is deterministic: applying groups of arguments one after the
/// other binds them all in left-to-right order, so two groupings of the same
/// arguments in the same order (`f(a)(b, c)` and `f(a, b)(c)`) bind the same
/// arguments in the same order, and the invocation they reach sees them so.
pub proof fn lemma_currying(bound: Seq<BoundArg>, g1: Seq<Seq<BoundArg>>, g2: Seq<Seq<BoundArg>>)
    requires
        flatten(g1) == flatten(g2),
    ensures
        apply_groups(bound, g1) == bound + flatten(g1),
        apply_groups(bound, g1) == apply_groups(bound, g2),
{
    lemma_apply_groups(bound, g1);
    lemma_apply_groups(bound, g2);
}

proof fn lemma_apply_groups(bound: Seq<BoundArg>, g: Seq<Seq<BoundArg>>)
    ensures
        apply_groups(bound, g) == bound + flatten(g),
    decreases g.len(),
{
    if g.len() == 0 {
        assert(bound + seq![] =~= bound);
    } else {
        lemma_apply_groups(bound, g.drop_last());
        assert(bound + flatten(g.drop_last()) + g.last() =~= bound + (flatten(g.drop_last())
            + g.last()));
    }
}

/// The value of the sum whose members are `m` that holds the member `x`
/// with `payload`: tagged with the tag of `x` in `m`.
pub open spec fn cast_into(m: Seq<TypeView>, x: TypeView, payload: Value) -> Option<TaggedValue> {
    match tag_of(m, x) {
        Some(i) => Some(TaggedValue { tag: i as usize, payload: payload }),
        None => None,
    }
}

/// `v`, a value of the sum whose members are `src`, as a value of the sum
/// whose members are `dst`: the member that its tag names gets its tag in
/// `dst`, and the payload is copied.
pub open spec fn remap(src: Seq<TypeView>, dst: Seq<TypeView>, v: TaggedValue) -> Option<TaggedValue> {
    if v.tag < src.len() {
        cast_into(dst, src[v.tag as int], v.payload)
    } else {
        None
    }
}

/// Casts a value of the member type `member` into the sum laid out by `dst`.
pub fn cast_into_sum(dst: &SumLayout, member: &Type, payload: Value) -> (r: Result<
    TaggedValue,
    CompileError,
>)
    ensures
        r matches Ok(v) ==> cast_into(dst@, member@, payload) == Some(v),
        r matches Err(x) ==> cast_into(dst@, member@, payload) is None && x
            == CompileError::InternalInvariantViolation,
{
    match dst.tag_of(member) {
        Some(i) => Ok(TaggedValue { tag: i, payload: payload }),
        None => Err(CompileError::InternalInvariantViolation),
    }
}

/// Casts a value of the sum laid out by `src` into the sum laid out by
/// `dst`, by dispatching on its tag.
pub fn cast_between_sums(src: &SumLayout, dst: &SumLayout, v: TaggedValue) -> (r: Result<
    TaggedValue,
    CompileError,
>)
    ensures
        r matches Ok(w) ==> remap(src@, dst@, v) == Some(w),
        r matches Err(x) ==> remap(src@, dst@, v) is None && x
            == CompileError::InternalInvariantViolation,
{
    match src.member(v.tag) {
        Some(t) => cast_into_sum(dst, t, v.payload),
        None => Err(CompileError::InternalInvariantViolation),
    }
}

/// Casting round-trips: a value of a member `x` cast into a sum `m` without
/// repeats reads back, through its tag, as `x` with the same payload; the
/// same value cast into another sum `n` holding `x` gets the tag of `x` in
/// `n` (not the one it had in `m`), and remapping the first into `n` gives
/// the second. Casting a value of `m` into `m` itself changes nothing. (A
/// layout is held in memory, so it has at most `usize::MAX` members.)
pub proof fn lemma_cast_round_trip(
    m: Seq<TypeView>,
    n: Seq<TypeView>,
    x: TypeView,
    payload: Value,
)
    requires
        no_duplicates(m),
        no_duplicates(n),
        m.contains(x),
        n.contains(x),
        m.len() <= usize::MAX,
        n.len() <= usize::MAX,
    ensures
        cast_into(m, x, payload) matches Some(v) && m[v.tag as int] == x && v.payload == payload,
        cast_into(n, x, payload) matches Some(w) && n[w.tag as int] == x && w.payload == payload,
        cast_into(m, x, payload)->Some_0.tag as int == tag_of(m, x)->Some_0,
        cast_into(n, x, payload)->Some_0.tag as int == tag_of(n, x)->Some_0,
        remap(m, n, cast_into(m, x, payload)->Some_0) == cast_into(n, x, payload),
        remap(m, m, cast_into(m, x, payload)->Some_0) == cast_into(m, x, payload),
{
    crate::canon::lemma_tag_bijection(m);
    crate::canon::lemma_tag_bijection(n);
    crate::canon::lemma_tag_of(m, x);
    crate::canon::lemma_tag_of(n, x);
}

} // verus!
