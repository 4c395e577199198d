use vstd::prelude::*;

verus! {

/// A source range, as byte offsets of its first and one-past-last character.
#[derive(Copy, Clone, Debug, PartialEq, Eq, Structural, Hash)]
pub struct Span {
    pub start: usize,
    pub end: usize,
}

/// An ordered collection of distinct members of a sum type.
#[derive(Clone, Debug)]
pub struct HashSetWrapper<T>(pub Vec<T>);

/// A type of the source language.
#[derive(Debug)]
pub enum Type {
    Error,
    ConversionError(Span),
    Unknown,
    Int,
    Float,
    Bool,
    String,
    Symbol(String),
    Func(Box<Type>, Box<Type>),
    Sum(HashSetWrapper<Type>),
    Enum(String),
}

/// A type, with the members of a sum as a sequence.
pub enum TypeView {
    Error,
    ConversionError(Span),
    Unknown,
    Int,
    Float,
    Bool,
    String,
    Symbol(Seq<char>),
    Func(Box<TypeView>, Box<TypeView>),
    Sum(Seq<TypeView>),
    Enum(Seq<char>),
}

/// The view of `t`.
pub open spec fn type_view(t: Type) -> TypeView
    decreases t,
{
    match t {
        Type::Error => TypeView::Error,
        Type::ConversionError(s) => TypeView::ConversionError(s),
        Type::Unknown => TypeView::Unknown,
        Type::Int => TypeView::Int,
        Type::Float => TypeView::Float,
        Type::Bool => TypeView::Bool,
        Type::String => TypeView::String,
        Type::Symbol(s) => TypeView::Symbol(s@),
        Type::Func(a, b) => TypeView::Func(Box::new(type_view(*a)), Box::new(type_view(*b))),
        Type::Sum(w) => TypeView::Sum(members_view(w.0@)),
        Type::Enum(s) => TypeView::Enum(s@),
    }
}

/// The views of the members `ms`.
pub open spec fn members_view(ms: Seq<Type>) -> Seq<TypeView>
    decreases ms,
{
    if ms.len() == 0 {
        seq![]
    } else {
        members_view(ms.subrange(0, ms.len() - 1)).push(type_view(ms[ms.len() - 1]))
    }
}

impl View for Type {
    type V = TypeView;

    open spec fn view(&self) -> TypeView {
        type_view(*self)
    }
}

/// The views of the members are the members' views, one by one.
pub proof fn lemma_members_view(ms: Seq<Type>)
    ensures
        members_view(ms).len() == ms.len(),
        forall|i: int| 0 <= i < ms.len() ==> #[trigger] members_view(ms)[i] == type_view(ms[i]),
    decreases ms.len(),
{
    if ms.len() > 0 {
        let init = ms.subrange(0, ms.len() - 1);
        lemma_members_view(init);
        assert forall|i: int| 0 <= i < ms.len() implies #[trigger] members_view(ms)[i] == type_view(
            ms[i],
        ) by {
            if i < ms.len() - 1 {
                assert(init[i] == ms[i]);
            }
        }
    }
}

pub(crate) proof fn lemma_member_decreases(t: Type, i: int)
    requires
        t is Sum,
        0 <= i < t->Sum_0.0.len(),
    ensures
        decreases_to!(t => t->Sum_0.0[i]),
{
    assert(decreases_to!(t => t->Sum_0.0[i]));
}

impl Type {
    /// A copy of the type.
    pub fn deep_copy(&self) -> (r: Type)
        ensures
            r@ == self@,
        decreases self,
    {
        match self {
            Type::Error => Type::Error,
            Type::ConversionError(s) => Type::ConversionError(*s),
            Type::Unknown => Type::Unknown,
            Type::Int => Type::Int,
            Type::Float => Type::Float,
            Type::Bool => Type::Bool,
            Type::String => Type::String,
            Type::Symbol(s) => Type::Symbol(s.clone()),
            Type::Func(a, b) => Type::Func(Box::new(a.deep_copy()), Box::new(b.deep_copy())),
            Type::Sum(w) => {
                let mut m: Vec<Type> = Vec::new();
                let mut k: usize = 0;
                proof {
                    lemma_members_view(w.0@);
                }
                while k < w.0.len()
                    invariant
                        *self is Sum,
                        self->Sum_0 == *w,
                        k <= w.0@.len(),
                        m@.len() == k,
                        members_view(w.0@).len() == w.0@.len(),
                        forall|i: int|
                            0 <= i < w.0@.len() ==> #[trigger] members_view(w.0@)[i] == type_view(
                                w.0@[i],
                            ),
                        forall|i: int| 0 <= i < k ==> type_view(#[trigger] m@[i]) == type_view(w.0@[i]),
                    decreases w.0@.len() - k,
                {
                    proof {
                        lemma_member_decreases(*self, k as int);
                    }
                    m.push(w.0[k].deep_copy());
                    k = k + 1;
                }
                proof {
                    lemma_members_view(m@);
                    assert(members_view(m@) =~= members_view(w.0@));
                }
                Type::Sum(HashSetWrapper(m))
            },
            Type::Enum(s) => Type::Enum(s.clone()),
        }
    }
}

/// Whether `a` and `b` are the same type, member order of sums included.
pub fn types_equal(a: &Type, b: &Type) -> (r: bool)
    ensures
        r == (a@ == b@),
    decreases a,
{
    match (a, b) {
        (Type::Error, Type::Error) => true,
        (Type::ConversionError(x), Type::ConversionError(y)) => *x == *y,
        (Type::Unknown, Type::Unknown) => true,
        (Type::Int, Type::Int) => true,
        (Type::Float, Type::Float) => true,
        (Type::Bool, Type::Bool) => true,
        (Type::String, Type::String) => true,
        (Type::Symbol(x), Type::Symbol(y)) => *x == *y,
        (Type::Enum(x), Type::Enum(y)) => *x == *y,
        (Type::Func(a1, a2), Type::Func(b1, b2)) => types_equal(a1, b1) && types_equal(a2, b2),
        (Type::Sum(x), Type::Sum(y)) => {
            proof {
                lemma_members_view(x.0@);
                lemma_members_view(y.0@);
            }
            if x.0.len() != y.0.len() {
                return false;
            }
            let mut k: usize = 0;
            while k < x.0.len()
                invariant
                    *a is Sum,
                    a->Sum_0 == *x,
                    *b is Sum,
                    b->Sum_0 == *y,
                    k <= x.0@.len(),
                    x.0@.len() == y.0@.len(),
                    members_view(x.0@).len() == x.0@.len(),
                    members_view(y.0@).len() == y.0@.len(),
                    forall|i: int|
                        0 <= i < x.0@.len() ==> #[trigger] members_view(x.0@)[i] == type_view(
                            x.0@[i],
                        ),
                    forall|i: int|
                        0 <= i < y.0@.len() ==> #[trigger] members_view(y.0@)[i] == type_view(
                            y.0@[i],
                        ),
                    forall|m: int| 0 <= m < k ==> members_view(x.0@)[m] == members_view(y.0@)[m],
                decreases x.0@.len() - k,
            {
                proof {
                    lemma_member_decreases(*a, k as int);
                }
                if !types_equal(&x.0[k], &y.0[k]) {
                    assert(members_view(x.0@)[k as int] != members_view(y.0@)[k as int]);
                    return false;
                }
                k = k + 1;
            }
            assert(members_view(x.0@) =~= members_view(y.0@));
            true
        },
        _ => false,
    }
}

} // verus!
