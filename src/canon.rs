use vstd::prelude::*;

use crate::error::CompileError;
use crate::frontend::IR;
use crate::types::{
    lemma_member_decreases, lemma_members_view, members_view, type_view, types_equal, Type,
    TypeView,
};

verus! {

/// The type that the table declares for `name`: its last entry of that name.
pub open spec fn lookup_type(table: Seq<(String, Type)>, name: Seq<char>) -> Option<TypeView>
    decreases table.len(),
{
    if table.len() == 0 {
        None
    } else if table.last().0@ == name {
        Some(table.last().1@)
    } else {
        lookup_type(table.drop_last(), name)
    }
}

/// The concrete members that `t` contributes to a sum, in the order of a
/// left-to-right walk: named types are looked up, and the members of a sum
/// are replaced by their own, down to types that are not sums. Each lookup
/// spends one unit of `fuel`; running out means an alias cycle.
pub open spec fn leaves(table: Seq<(String, Type)>, t: TypeView, fuel: nat) -> Result<
    Seq<TypeView>,
    CompileError,
>
    decreases fuel, t, 0nat,
{
    match t {
        TypeView::Symbol(s) => if fuel == 0 {
            Err(CompileError::UnsupportedConstruct)
        } else {
            match lookup_type(table, s) {
                Some(u) => leaves(table, u, (fuel - 1) as nat),
                None => Err(CompileError::InternalInvariantViolation),
            }
        },
        TypeView::Sum(ms) => members_leaves(table, ms, fuel, ms.len() as int),
        TypeView::ConversionError(sp) => Err(CompileError::TypeConversionError(sp)),
        TypeView::Error => Err(CompileError::UnsupportedConstruct),
        TypeView::Unknown => Err(CompileError::UnsupportedConstruct),
        _ => Ok(seq![t]),
    }
}

/// The leaves of the first `k` members of `ms`, one after the other.
pub open spec fn members_leaves(
    table: Seq<(String, Type)>,
    ms: Seq<TypeView>,
    fuel: nat,
    k: int,
) -> Result<Seq<TypeView>, CompileError>
    decreases fuel, ms, k,
{
    if k <= 0 || k > ms.len() {
        Ok(seq![])
    } else {
        match members_leaves(table, ms, fuel, k - 1) {
            Err(x) => Err(x),
            Ok(a) => match leaves(table, ms[k - 1], fuel) {
                Err(x) => Err(x),
                Ok(b) => Ok(a + b),
            },
        }
    }
}

/// `s` without repeats, each element kept where it first occurs.
pub open spec fn dedup(s: Seq<TypeView>) -> Seq<TypeView>
    decreases s.len(),
{
    if s.len() == 0 {
        seq![]
    } else if dedup(s.drop_last()).contains(s.last()) {
        dedup(s.drop_last())
    } else {
        dedup(s.drop_last()).push(s.last())
    }
}

/// The canonical members of the sum `t`: its leaves without repeats. The
/// tag of a member is its position.
pub open spec fn canonical_members(table: Seq<(String, Type)>, t: TypeView) -> Result<
    Seq<TypeView>,
    CompileError,
> {
    match leaves(table, t, table.len()) {
        Ok(s) => Ok(dedup(s)),
        Err(x) => Err(x),
    }
}

/// Looks up the type that the table declares for `name`.
fn lookup_exec<'a>(table: &'a Vec<(String, Type)>, name: &String) -> (r: Option<&'a Type>)
    ensures
        r matches Some(t) ==> lookup_type(table@, name@) == Some(t@),
        r is None ==> lookup_type(table@, name@) is None,
{
    let mut k = table.len();
    assert(table@.take(k as int) =~= table@);
    while k > 0
        invariant
            k <= table@.len(),
            lookup_type(table@, name@) == lookup_type(table@.take(k as int), name@),
        decreases k,
    {
        assert(table@.take(k as int).drop_last() =~= table@.take(k - 1));
        if table[k - 1].0 == *name {
            return Some(&table[k - 1].1);
        }
        k = k - 1;
    }
    None
}

proof fn lemma_members_view_push(s: Seq<Type>, x: Type)
    ensures
        members_view(s.push(x)) == members_view(s).push(type_view(x)),
{
    assert(s.push(x).subrange(0, s.len() as int) =~= s);
}

proof fn lemma_members_leaves_error(table: Seq<(String, Type)>, ms: Seq<TypeView>, fuel: nat, k: int)
    requires
        0 < k <= ms.len(),
        members_leaves(table, ms, fuel, k) is Err,
    ensures
        members_leaves(table, ms, fuel, ms.len() as int) == members_leaves(table, ms, fuel, k),
    decreases ms.len() - k,
{
    if k < ms.len() {
        lemma_members_leaves_error(table, ms, fuel, k + 1);
    }
}

/// Appends the leaves of `t` to `out`.
fn collect_leaves(table: &Vec<(String, Type)>, t: &Type, fuel: usize, out: &mut Vec<Type>) -> (r:
    Result<(), CompileError>)
    ensures
        r is Ok ==> (leaves(table@, t@, fuel as nat) matches Ok(l) && members_view(final(out)@)
            == members_view(old(out)@) + l),
        r matches Err(x) ==> leaves(table@, t@, fuel as nat) == Err::<Seq<TypeView>, _>(x),
    decreases fuel, t,
{
    proof {
        lemma_members_view(out@);
    }
    match t {
        Type::Symbol(s) => {
            if fuel == 0 {
                return Err(CompileError::UnsupportedConstruct);
            }
            match lookup_exec(table, s) {
                Some(u) => collect_leaves(table, u, fuel - 1, out),
                None => Err(CompileError::InternalInvariantViolation),
            }
        },
        Type::Sum(w) => {
            let ghost start = members_view(out@);
            let ghost ms = members_view(w.0@);
            proof {
                lemma_members_view(w.0@);
                assert(start + seq![] =~= start);
            }
            let mut k: usize = 0;
            while k < w.0.len()
                invariant
                    *t is Sum,
                    t->Sum_0 == *w,
                    ms == members_view(w.0@),
                    ms.len() == w.0@.len(),
                    forall|i: int| 0 <= i < w.0@.len() ==> #[trigger] ms[i] == type_view(w.0@[i]),
                    k <= w.0@.len(),
                    members_leaves(table@, ms, fuel as nat, k as int) matches Ok(a)
                        && members_view(out@) == start + a,
                    start == members_view(old(out)@),
                decreases w.0@.len() - k,
            {
                proof {
                    lemma_member_decreases(*t, k as int);
                }
                let ghost mid = members_view(out@);
                match collect_leaves(table, &w.0[k], fuel, out) {
                    Ok(()) => {},
                    Err(x) => {
                        proof {
                            lemma_members_leaves_error(table@, ms, fuel as nat, k + 1);
                        }
                        return Err(x);
                    },
                }
                proof {
                    let a = members_leaves(table@, ms, fuel as nat, k as int)->Ok_0;
                    let b = leaves(table@, ms[k as int], fuel as nat)->Ok_0;
                    assert(members_view(out@) =~= start + (a + b));
                }
                k = k + 1;
            }
            Ok(())
        },
        Type::ConversionError(sp) => Err(CompileError::TypeConversionError(*sp)),
        Type::Error => Err(CompileError::UnsupportedConstruct),
        Type::Unknown => Err(CompileError::UnsupportedConstruct),
        _ => {
            let ghost before = out@;
            let c = t.deep_copy();
            out.push(c);
            proof {
                lemma_members_view_push(before, c);
                assert(members_view(out@) =~= members_view(before) + seq![t@]);
            }
            Ok(())
        },
    }
}

/// The tag of `x` among the members `m`: the position where it first occurs.
pub open spec fn tag_of(m: Seq<TypeView>, x: TypeView) -> Option<int>
    decreases m.len(),
{
    if m.len() == 0 {
        None
    } else {
        match tag_of(m.drop_last(), x) {
            Some(i) => Some(i),
            None => if m.last() == x {
                Some(m.len() - 1)
            } else {
                None
            },
        }
    }
}

/// Whether no member of `m` occurs twice.
pub open spec fn no_duplicates(m: Seq<TypeView>) -> bool {
    forall|i: int, j: int| 0 <= i < j < m.len() ==> m[i] != m[j]
}

/// The tag of `x`, when it has one, is a position that holds `x`, and no
/// earlier position does; `x` has no tag exactly when it is not a member.
pub proof fn lemma_tag_of(m: Seq<TypeView>, x: TypeView)
    ensures
        tag_of(m, x) matches Some(i) ==> 0 <= i < m.len() && m[i] == x && forall|j: int|
            0 <= j < i ==> m[j] != x,
        tag_of(m, x) is None <==> !m.contains(x),
    decreases m.len(),
{
    if m.len() > 0 {
        lemma_tag_of(m.drop_last(), x);
        if let Some(i) = tag_of(m.drop_last(), x) {
            assert forall|j: int| 0 <= j < i implies m[j] != x by {
                assert(m.drop_last()[j] == m[j]);
            }
        } else if m.last() == x {
            assert forall|j: int| 0 <= j < m.len() - 1 implies m[j] != x by {
                assert(m.drop_last()[j] == m[j]);
                assert(m.drop_last().contains(m[j]));
            }
        }
        if tag_of(m.drop_last(), x) is None && m.last() != x {
            if m.contains(x) {
                let j = choose|j: int| 0 <= j < m.len() && m[j] == x;
                assert(m.drop_last()[j] == x);
            }
        }
        if m.last() == x {
            assert(m[m.len() - 1] == x);
        }
    }
}

proof fn lemma_tag_of_prefix(m: Seq<TypeView>, x: TypeView, n: int)
    requires
        0 <= n <= m.len(),
        tag_of(m.take(n), x) is Some,
    ensures
        tag_of(m, x) == tag_of(m.take(n), x),
    decreases m.len() - n,
{
    if n < m.len() {
        assert(m.take(n + 1).drop_last() =~= m.take(n));
        lemma_tag_of_prefix(m, x, n + 1);
    } else {
        assert(m.take(n) =~= m);
    }
}

/// The members of a sum, in tag order: the tag of a member is its position.
#[derive(Debug)]
pub struct SumLayout {
    pub members: Vec<Type>,
}

impl View for SumLayout {
    type V = Seq<TypeView>;

    open spec fn view(&self) -> Seq<TypeView> {
        members_view(self.members@)
    }
}

impl SumLayout {
    /// Returns the tag of `t`, if it is a member.
    pub fn tag_of(&self, t: &Type) -> (r: Option<usize>)
        ensures
            r matches Some(i) ==> tag_of(self@, t@) == Some(i as int),
            r is None ==> tag_of(self@, t@) is None,
    {
        proof {
            lemma_members_view(self.members@);
        }
        let mut k: usize = 0;
        while k < self.members.len()
            invariant
                k <= self.members@.len(),
                self@.len() == self.members@.len(),
                forall|i: int|
                    0 <= i < self.members@.len() ==> #[trigger] self@[i] == type_view(
                        self.members@[i],
                    ),
                tag_of(self@.take(k as int), t@) is None,
            decreases self.members@.len() - k,
        {
            assert(self@.take(k + 1).drop_last() =~= self@.take(k as int));
            if types_equal(&self.members[k], t) {
                proof {
                    lemma_tag_of_prefix(self@, t@, k + 1);
                }
                return Some(k);
            }
            k = k + 1;
        }
        assert(self@.take(k as int) =~= self@);
        None
    }

    /// Returns the member whose tag is `tag`, if there is one.
    pub fn member(&self, tag: usize) -> (r: Option<&Type>)
        ensures
            r matches Some(t) ==> tag < self@.len() && t@ == self@[tag as int],
            r is None ==> tag >= self@.len(),
    {
        proof {
            lemma_members_view(self.members@);
        }
        if tag < self.members.len() {
            Some(&self.members[tag])
        } else {
            None
        }
    }
}

/// `v` without repeats, each member kept where it first occurs.
fn dedup_types(v: &Vec<Type>) -> (r: Vec<Type>)
    ensures
        members_view(r@) == dedup(members_view(v@)),
{
    proof {
        lemma_members_view(v@);
    }
    let ghost mv = members_view(v@);
    let mut r = SumLayout { members: Vec::new() };
    let mut k: usize = 0;
    assert(mv.take(0).len() == 0);
    assert(r@ =~= dedup(mv.take(0)));
    while k < v.len()
        invariant
            k <= v@.len(),
            mv == members_view(v@),
            mv.len() == v@.len(),
            forall|i: int| 0 <= i < v@.len() ==> #[trigger] mv[i] == type_view(v@[i]),
            r@ == dedup(mv.take(k as int)),
        decreases v@.len() - k,
    {
        assert(mv.take(k + 1).drop_last() =~= mv.take(k as int));
        assert(mv.take(k + 1).last() == type_view(v@[k as int]));
        let found = r.tag_of(&v[k]);
        proof {
            lemma_tag_of(r@, v@[k as int]@);
        }
        if found.is_none() {
            let ghost before = r.members@;
            let c = v[k].deep_copy();
            r.members.push(c);
            proof {
                lemma_members_view_push(before, c);
            }
        }
        k = k + 1;
    }
    assert(mv.take(k as int) =~= mv);
    r.members
}

/// Flattens the sum `t` into its layout: the leaves of its members, named
/// types looked up and nested sums replaced by their own members, without
/// repeats, each in the position where it is first met.
pub fn canonicalize_sum(table: &Vec<(String, Type)>, t: &Type) -> (r: Result<SumLayout, CompileError>)
    ensures
        r matches Ok(l) ==> canonical_members(table@, t@) == Ok::<_, CompileError>(l@),
        r matches Err(x) ==> canonical_members(table@, t@) == Err::<Seq<TypeView>, _>(x),
{
    let mut all: Vec<Type> = Vec::new();
    collect_leaves(table, t, table.len(), &mut all)?;
    proof {
        assert(members_view(Seq::<Type>::empty()) =~= seq![]);
        let l = leaves(table@, t@, table@.len() as nat)->Ok_0;
        assert(members_view(all@) =~= l);
    }
    Ok(SumLayout { members: dedup_types(&all) })
}

/// Whether `x` can be a member of a canonical sum: not a name, not a sum,
/// and not an error.
pub open spec fn is_concrete(x: TypeView) -> bool {
    !(x is Symbol) && !(x is Sum) && !(x is ConversionError) && !(x is Error) && !(x is Unknown)
}

proof fn lemma_leaves_concrete(table: Seq<(String, Type)>, t: TypeView, fuel: nat)
    ensures
        leaves(table, t, fuel) matches Ok(s) ==> forall|i: int|
            0 <= i < s.len() ==> is_concrete(#[trigger] s[i]),
    decreases fuel, t, 0nat,
{
    match t {
        TypeView::Symbol(s) => {
            if fuel > 0 {
                if let Some(u) = lookup_type(table, s) {
                    lemma_leaves_concrete(table, u, (fuel - 1) as nat);
                }
            }
        },
        TypeView::Sum(ms) => {
            lemma_members_leaves_concrete(table, ms, fuel, ms.len() as int);
        },
        _ => {},
    }
}

proof fn lemma_members_leaves_concrete(
    table: Seq<(String, Type)>,
    ms: Seq<TypeView>,
    fuel: nat,
    k: int,
)
    ensures
        members_leaves(table, ms, fuel, k) matches Ok(s) ==> forall|i: int|
            0 <= i < s.len() ==> is_concrete(#[trigger] s[i]),
    decreases fuel, ms, k,
{
    if 0 < k <= ms.len() {
        lemma_members_leaves_concrete(table, ms, fuel, k - 1);
        lemma_leaves_concrete(table, ms[k - 1], fuel);
        if let Ok(a) = members_leaves(table, ms, fuel, k - 1) {
            if let Ok(b) = leaves(table, ms[k - 1], fuel) {
                assert forall|i: int| 0 <= i < (a + b).len() implies is_concrete(
                    #[trigger] (a + b)[i],
                ) by {
                    if i >= a.len() {
                        assert((a + b)[i] == b[i - a.len()]);
                    }
                }
            }
        }
    }
}

proof fn lemma_concrete_members_leaves(table: Seq<(String, Type)>, m: Seq<TypeView>, fuel: nat, k: int)
    requires
        0 <= k <= m.len(),
        forall|i: int| 0 <= i < m.len() ==> is_concrete(#[trigger] m[i]),
    ensures
        members_leaves(table, m, fuel, k) == Ok::<_, CompileError>(m.take(k)),
    decreases k,
{
    if k > 0 {
        lemma_concrete_members_leaves(table, m, fuel, k - 1);
        let x = m[k - 1];
        assert(is_concrete(x));
        assert(leaves(table, x, fuel) == Ok::<_, CompileError>(seq![x]));
        assert(m.take(k - 1) + seq![x] =~= m.take(k));
    } else {
        assert(m.take(0) =~= seq![]);
    }
}

proof fn lemma_dedup(s: Seq<TypeView>)
    ensures
        no_duplicates(dedup(s)),
        forall|x: TypeView| dedup(s).contains(x) <==> s.contains(x),
    decreases s.len(),
{
    if s.len() > 0 {
        let init = s.drop_last();
        lemma_dedup(init);
        assert forall|x: TypeView| dedup(s).contains(x) <==> s.contains(x) by {
            if s.contains(x) && x != s.last() {
                let j = choose|j: int| 0 <= j < s.len() && s[j] == x;
                assert(init[j] == x);
            }
            if init.contains(x) {
                let j = choose|j: int| 0 <= j < init.len() && init[j] == x;
                assert(s[j] == x);
            }
            if !dedup(init).contains(s.last()) {
                let d = dedup(init).push(s.last());
                if dedup(init).contains(x) {
                    let j = choose|j: int| 0 <= j < dedup(init).len() && dedup(init)[j] == x;
                    assert(d[j] == x);
                }
                if x == s.last() {
                    assert(d[d.len() - 1] == x);
                }
                if d.contains(x) && x != s.last() {
                    let j = choose|j: int| 0 <= j < d.len() && d[j] == x;
                    assert(dedup(init)[j] == x);
                }
            }
            if x == s.last() {
                assert(s[s.len() - 1] == x);
            }
        }
        if !dedup(init).contains(s.last()) {
            let d = dedup(init).push(s.last());
            assert forall|i: int, j: int| 0 <= i < j < d.len() implies d[i] != d[j] by {
                if j == d.len() - 1 {
                    assert(dedup(init)[i] == d[i]);
                }
            }
        }
    }
}

proof fn lemma_dedup_unique(s: Seq<TypeView>)
    requires
        no_duplicates(s),
    ensures
        dedup(s) == s,
    decreases s.len(),
{
    if s.len() > 0 {
        let init = s.drop_last();
        assert(no_duplicates(init));
        lemma_dedup_unique(init);
        if init.contains(s.last()) {
            let j = choose|j: int| 0 <= j < init.len() && init[j] == s.last();
            assert(s[j] == s[s.len() - 1]);
        }
        assert(init.push(s.last()) =~= s);
    }
}

/// Canonicalizing a sum twice gives what canonicalizing it once gives: the
/// canonical members, taken as a sum again, canonicalize to themselves, in
/// the same order, so every member keeps its tag. They are free of repeats,
/// and none of them is a sum or a name.
pub proof fn lemma_canonical_idempotent(table: Seq<(String, Type)>, t: TypeView)
    requires
        canonical_members(table, t) is Ok,
    ensures
        canonical_members(table, TypeView::Sum(canonical_members(table, t)->Ok_0)) == Ok::<
            _,
            CompileError,
        >(canonical_members(table, t)->Ok_0),
        no_duplicates(canonical_members(table, t)->Ok_0),
        forall|i: int|
            0 <= i < canonical_members(table, t)->Ok_0.len() ==> is_concrete(
                #[trigger] canonical_members(table, t)->Ok_0[i],
            ),
{
    let s = leaves(table, t, table.len() as nat)->Ok_0;
    let m = dedup(s);
    lemma_leaves_concrete(table, t, table.len() as nat);
    lemma_dedup(s);
    assert forall|i: int| 0 <= i < m.len() implies is_concrete(#[trigger] m[i]) by {
        assert(m.contains(m[i]));
        assert(s.contains(m[i]));
        let j = choose|j: int| 0 <= j < s.len() && s[j] == m[i];
        assert(is_concrete(s[j]));
    }
    lemma_concrete_members_leaves(table, m, table.len() as nat, m.len() as int);
    assert(m.take(m.len() as int) =~= m);
    lemma_dedup_unique(m);
}

proof fn lemma_members_leaves_contains(
    table: Seq<(String, Type)>,
    ms: Seq<TypeView>,
    fuel: nat,
    k: int,
    x: TypeView,
)
    requires
        0 <= k <= ms.len(),
        members_leaves(table, ms, fuel, k) is Ok,
    ensures
        forall|i: int| 0 <= i < k ==> (#[trigger] leaves(table, ms[i], fuel)) is Ok,
        members_leaves(table, ms, fuel, k)->Ok_0.contains(x) <==> exists|i: int|
            0 <= i < k && (#[trigger] leaves(table, ms[i], fuel))->Ok_0.contains(x),
    decreases k,
{
    if k > 0 {
        lemma_members_leaves_contains(table, ms, fuel, k - 1, x);
        let a = members_leaves(table, ms, fuel, k - 1)->Ok_0;
        let b = leaves(table, ms[k - 1], fuel)->Ok_0;
        let ab = a + b;
        if ab.contains(x) {
            let j = choose|j: int| 0 <= j < ab.len() && ab[j] == x;
            if j < a.len() {
                assert(a[j] == x);
            } else {
                assert(b[j - a.len()] == x);
                assert(leaves(table, ms[k - 1], fuel)->Ok_0.contains(x));
            }
        }
        if exists|i: int| 0 <= i < k && (#[trigger] leaves(table, ms[i], fuel))->Ok_0.contains(x) {
            let i = choose|i: int|
                0 <= i < k && (#[trigger] leaves(table, ms[i], fuel))->Ok_0.contains(x);
            if i == k - 1 {
                let j = choose|j: int| 0 <= j < b.len() && b[j] == x;
                assert(ab[a.len() + j] == x);
            } else {
                assert(a.contains(x));
                let j = choose|j: int| 0 <= j < a.len() && a[j] == x;
                assert(ab[j] == x);
            }
        }
    }
}

/// Flattening a sum gives the union of the leaves of its members: a type is
/// a canonical member of `Sum(ms)` exactly when it is a leaf of one of the
/// members `ms`, a nested sum contributing its own members.
pub proof fn lemma_flatten_union(table: Seq<(String, Type)>, ms: Seq<TypeView>, x: TypeView)
    requires
        canonical_members(table, TypeView::Sum(ms)) is Ok,
    ensures
        canonical_members(table, TypeView::Sum(ms))->Ok_0.contains(x) <==> exists|i: int|
            0 <= i < ms.len() && (#[trigger] leaves(table, ms[i], table.len() as nat))->Ok_0.contains(
                x,
            ),
{
    let s = leaves(table, TypeView::Sum(ms), table.len() as nat)->Ok_0;
    lemma_dedup(s);
    lemma_members_leaves_contains(table, ms, table.len() as nat, ms.len() as int, x);
}

/// Tags and members are in one-to-one correspondence in a layout without
/// repeats: the tag of the member at position `i` is `i`, and the member
/// whose tag is the tag of `x` is `x`.
pub proof fn lemma_tag_bijection(m: Seq<TypeView>)
    requires
        no_duplicates(m),
    ensures
        forall|i: int| 0 <= i < m.len() ==> tag_of(m, #[trigger] m[i]) == Some(i),
        forall|x: TypeView|
            m.contains(x) ==> (#[trigger] tag_of(m, x) matches Some(i) && 0 <= i < m.len() && m[i]
                == x),
{
    assert forall|i: int| 0 <= i < m.len() implies tag_of(m, #[trigger] m[i]) == Some(i) by {
        lemma_tag_of(m, m[i]);
        assert(m.contains(m[i]));
    }
    assert forall|x: TypeView| m.contains(x) implies (#[trigger] tag_of(m, x) matches Some(i) && 0
        <= i < m.len() && m[i] == x) by {
        lemma_tag_of(m, x);
    }
}

/// `t` with its chain of names followed to a type that is not a name, at
/// most `fuel` links; running out means an alias cycle.
pub open spec fn resolve(table: Seq<(String, Type)>, t: TypeView, fuel: nat) -> Result<
    TypeView,
    CompileError,
>
    decreases fuel,
{
    match t {
        TypeView::Symbol(s) => if fuel == 0 {
            Err(CompileError::UnsupportedConstruct)
        } else {
            match lookup_type(table, s) {
                Some(u) => resolve(table, u, (fuel - 1) as nat),
                None => Err(CompileError::InternalInvariantViolation),
            }
        },
        _ => Ok(t),
    }
}

/// The run-time representation of a declared type: a plain value, or a
/// tagged union with its members in tag order.
#[derive(Debug)]
pub enum CanonicalType {
    Plain(Type),
    Union(SumLayout),
}

/// What a [`CanonicalType`] holds.
pub enum CanonicalView {
    Plain(TypeView),
    Union(Seq<TypeView>),
}

impl View for CanonicalType {
    type V = CanonicalView;

    open spec fn view(&self) -> CanonicalView {
        match self {
            CanonicalType::Plain(t) => CanonicalView::Plain(t@),
            CanonicalType::Union(l) => CanonicalView::Union(l@),
        }
    }
}

/// The canonical representation of the type `t`: names resolved, and a sum
/// flattened into its canonical members.
pub open spec fn canonical_entry(table: Seq<(String, Type)>, t: TypeView) -> Result<
    CanonicalView,
    CompileError,
> {
    match resolve(table, t, table.len() as nat) {
        Err(x) => Err(x),
        Ok(u) => if u is Sum {
            match canonical_members(table, u) {
                Ok(m) => Ok(CanonicalView::Union(m)),
                Err(x) => Err(x),
            }
        } else {
            Ok(CanonicalView::Plain(u))
        },
    }
}

/// Follows the chain of names from `t` to a type that is not a name.
fn resolve_type<'a>(table: &'a Vec<(String, Type)>, t: &'a Type) -> (r: Result<&'a Type, CompileError>)
    ensures
        r matches Ok(u) ==> resolve(table@, t@, table@.len() as nat) == Ok::<_, CompileError>(u@),
        r matches Err(x) ==> resolve(table@, t@, table@.len() as nat) == Err::<TypeView, _>(x),
{
    let mut cur = t;
    let mut fuel = table.len();
    while fuel > 0
        invariant
            fuel <= table@.len(),
            resolve(table@, t@, table@.len() as nat) == resolve(table@, cur@, fuel as nat),
        decreases fuel,
    {
        match cur {
            Type::Symbol(s) => match lookup_exec(table, s) {
                Some(u) => {
                    cur = u;
                    fuel = fuel - 1;
                },
                None => {
                    return Err(CompileError::InternalInvariantViolation);
                },
            },
            _ => {
                return Ok(cur);
            },
        }
    }
    match cur {
        Type::Symbol(_) => Err(CompileError::UnsupportedConstruct),
        _ => Ok(cur),
    }
}

/// Canonicalizes every declared type of the table, in order: names are
/// resolved through their aliases, and sums become tagged unions with their
/// members flattened. Fails with the error of the first entry that fails.
pub fn collect_types(table: &Vec<(String, Type)>) -> (r: Result<
    Vec<(String, CanonicalType)>,
    CompileError,
>)
    ensures
        r is Ok <==> forall|i: int|
            0 <= i < table@.len() ==> (#[trigger] canonical_entry(table@, table@[i].1@)) is Ok,
        r matches Ok(v) ==> v@.len() == table@.len() && forall|i: int|
            0 <= i < v@.len() ==> (#[trigger] v@[i]).0@ == table@[i].0@ && canonical_entry(
                table@,
                table@[i].1@,
            ) == Ok::<_, CompileError>(v@[i].1@),
        r matches Err(x) ==> exists|i: int|
            0 <= i < table@.len() && canonical_entry(table@, #[trigger] table@[i].1@) == Err::<
                CanonicalView,
                _,
            >(x),
{
    let mut out: Vec<(String, CanonicalType)> = Vec::new();
    let mut i: usize = 0;
    while i < table.len()
        invariant
            i <= table@.len(),
            out@.len() == i,
            forall|k: int|
                0 <= k < i ==> (#[trigger] out@[k]).0@ == table@[k].0@ && canonical_entry(
                    table@,
                    table@[k].1@,
                ) == Ok::<_, CompileError>(out@[k].1@),
        decreases table@.len() - i,
    {
        let entry = &table[i];
        let u = match resolve_type(table, &entry.1) {
            Ok(u) => u,
            Err(x) => {
                assert(canonical_entry(table@, table@[i as int].1@) is Err);
                return Err(x);
            },
        };
        let c = match u {
            Type::Sum(_) => match canonicalize_sum(table, u) {
                Ok(l) => CanonicalType::Union(l),
                Err(x) => {
                    assert(canonical_entry(table@, table@[i as int].1@) is Err);
                    return Err(x);
                },
            },
            _ => CanonicalType::Plain(u.deep_copy()),
        };
        out.push((entry.0.clone(), c));
        i = i + 1;
    }
    assert forall|k: int| 0 <= k < table@.len() implies (#[trigger] canonical_entry(
        table@,
        table@[k].1@,
    )) is Ok by {
        assert(out@[k].0@ == table@[k].0@);
    }
    Ok(out)
}

/// Whether a value of type `a` may stand where `b` is expected: their
/// resolved forms are the same type, or `b` is a sum and `a` may stand for
/// one of its members, tried in order. Each name looked up for `b` spends one
/// unit of `fuel`; running out means an alias cycle.
pub open spec fn subtype(table: Seq<(String, Type)>, a: TypeView, b: TypeView, fuel: nat) -> Result<
    bool,
    CompileError,
>
    decreases fuel, b, 0int,
{
    match resolve(table, a, table.len() as nat) {
        Err(x) => Err(x),
        Ok(ra) => match b {
            TypeView::Symbol(s) => if fuel == 0 {
                Err(CompileError::UnsupportedConstruct)
            } else {
                match lookup_type(table, s) {
                    Some(u) => subtype(table, a, u, (fuel - 1) as nat),
                    None => Err(CompileError::InternalInvariantViolation),
                }
            },
            TypeView::Sum(ms) => if ra == b {
                Ok(true)
            } else {
                any_subtype(table, a, ms, fuel, ms.len() as int)
            },
            _ => Ok(ra == b),
        },
    }
}

/// Whether `a` may stand for one of the first `k` members of `ms`.
pub open spec fn any_subtype(
    table: Seq<(String, Type)>,
    a: TypeView,
    ms: Seq<TypeView>,
    fuel: nat,
    k: int,
) -> Result<bool, CompileError>
    decreases fuel, ms, k,
{
    if k <= 0 || k > ms.len() {
        Ok(false)
    } else {
        match any_subtype(table, a, ms, fuel, k - 1) {
            Err(x) => Err(x),
            Ok(true) => Ok(true),
            Ok(false) => subtype(table, a, ms[k - 1], fuel),
        }
    }
}

fn subtype_exec(table: &Vec<(String, Type)>, a: &Type, b: &Type, fuel: usize) -> (r: Result<
    bool,
    CompileError,
>)
    ensures
        r == subtype(table@, a@, b@, fuel as nat),
    decreases fuel, b,
{
    let ra = resolve_type(table, a)?;
    match b {
        Type::Symbol(s) => {
            if fuel == 0 {
                return Err(CompileError::UnsupportedConstruct);
            }
            match lookup_exec(table, s) {
                Some(u) => subtype_exec(table, a, u, fuel - 1),
                None => Err(CompileError::InternalInvariantViolation),
            }
        },
        Type::Sum(w) => {
            if types_equal(ra, b) {
                return Ok(true);
            }
            let ghost ms = members_view(w.0@);
            proof {
                lemma_members_view(w.0@);
            }
            let mut k: usize = 0;
            while k < w.0.len()
                invariant
                    *b is Sum,
                    b->Sum_0 == *w,
                    b@ == TypeView::Sum(ms),
                    resolve(table@, a@, table@.len() as nat) == Ok::<_, CompileError>(ra@),
                    ra@ != b@,
                    ms == members_view(w.0@),
                    ms.len() == w.0@.len(),
                    forall|i: int| 0 <= i < w.0@.len() ==> #[trigger] ms[i] == type_view(w.0@[i]),
                    k <= w.0@.len(),
                    any_subtype(table@, a@, ms, fuel as nat, k as int) == Ok::<_, CompileError>(false),
                decreases w.0@.len() - k,
            {
                proof {
                    lemma_member_decreases(*b, k as int);
                }
                match subtype_exec(table, a, &w.0[k], fuel) {
                    Ok(true) => {
                        proof {
                            lemma_any_subtype_settled(table@, a@, ms, fuel as nat, k + 1);
                        }
                        return Ok(true);
                    },
                    Ok(false) => {},
                    Err(x) => {
                        proof {
                            assert(any_subtype(table@, a@, ms, fuel as nat, k + 1) == Err::<
                                bool,
                                CompileError,
                            >(x));
                            lemma_any_subtype_settled(table@, a@, ms, fuel as nat, k + 1);
                        }
                        return Err(x);
                    },
                }
                k = k + 1;
            }
            Ok(false)
        },
        _ => Ok(types_equal(ra, b)),
    }
}

proof fn lemma_any_subtype_settled(
    table: Seq<(String, Type)>,
    a: TypeView,
    ms: Seq<TypeView>,
    fuel: nat,
    k: int,
)
    requires
        0 < k <= ms.len(),
        any_subtype(table, a, ms, fuel, k) != Ok::<_, CompileError>(false),
    ensures
        any_subtype(table, a, ms, fuel, ms.len() as int) == any_subtype(table, a, ms, fuel, k),
    decreases ms.len() - k,
{
    if k < ms.len() {
        lemma_any_subtype_settled(table, a, ms, fuel, k + 1);
    }
}

impl Type {
    /// Whether a value of this type may stand where `supertype` is expected,
    /// with names resolved through the unit's type table.
    pub fn is_subtype(&self, supertype: &Type, ir: &IR) -> (r: Result<bool, CompileError>)
        ensures
            r == subtype(ir.types@, self@, supertype@, ir.types@.len() as nat),
    {
        subtype_exec(&ir.types, self, supertype, ir.types.len())
    }
}

} // verus!
