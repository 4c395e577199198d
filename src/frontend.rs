use vstd::prelude::*;

use crate::types::{Span, Type};

verus! {

/// A prefix operator.
#[derive(Copy, Clone, Debug, Hash, PartialEq, Eq, Structural)]
pub enum PrefixOp {
    Neg,
    Span,
}

/// An infix operator.
#[derive(Copy, Clone, Debug, Hash, PartialEq, Eq, Structural)]
pub enum BinOp {
    Mul,
    Div,
    Mod,
    Add,
    Sub,
    BSL,
    BSR,
    LT,
    GT,
    LEQ,
    GEQ,
    EQ,
    NEQ,
    In,
    And,
    Or,
    Xor,
    BoolAnd,
    BoolOr,
    BoolXor,
}

/// What type inference learnt of an application: how many arguments the
/// result still expects, when that is known at compile time.
#[derive(Copy, Clone, Debug, PartialEq, Eq, Structural)]
pub enum ArityInfo {
    Known(usize),
    Unknown,
}

/// Metadata carried by every expression node.
#[derive(Debug)]
pub struct SExprMetadata {
    pub span: Span,
    pub _type: Type,
    pub arity: ArityInfo,
}

/// A typed expression. Float literals hold the bits of their IEEE-754 value.
#[derive(Debug)]
pub enum SExpr {
    Int(SExprMetadata, i64),
    Float(SExprMetadata, u64),
    True(SExprMetadata),
    False(SExprMetadata),
    Symbol(SExprMetadata, String),
    String(SExprMetadata, String),
    Function(SExprMetadata, String),
    Prefix(SExprMetadata, PrefixOp, Box<SExpr>),
    Infix(SExprMetadata, BinOp, Box<SExpr>, Box<SExpr>),
    If(SExprMetadata, Box<SExpr>, Box<SExpr>, Box<SExpr>),
    Application(SExprMetadata, Box<SExpr>, Box<SExpr>),
    Assign(SExprMetadata, String, Box<SExpr>),
    With(SExprMetadata, Vec<SExpr>, Box<SExpr>),
}

impl SExpr {
    /// The metadata of the node.
    pub open spec fn meta(&self) -> &SExprMetadata {
        match self {
            SExpr::Int(m, _) => m,
            SExpr::Float(m, _) => m,
            SExpr::True(m) => m,
            SExpr::False(m) => m,
            SExpr::Symbol(m, _) => m,
            SExpr::String(m, _) => m,
            SExpr::Function(m, _) => m,
            SExpr::Prefix(m, _, _) => m,
            SExpr::Infix(m, _, _, _) => m,
            SExpr::If(m, _, _, _) => m,
            SExpr::Application(m, _, _) => m,
            SExpr::Assign(m, _, _) => m,
            SExpr::With(m, _, _) => m,
        }
    }

    /// The node with its metadata replaced by `m`.
    pub open spec fn with_meta(self, m: SExprMetadata) -> SExpr {
        match self {
            SExpr::Int(_, a) => SExpr::Int(m, a),
            SExpr::Float(_, a) => SExpr::Float(m, a),
            SExpr::True(_) => SExpr::True(m),
            SExpr::False(_) => SExpr::False(m),
            SExpr::Symbol(_, a) => SExpr::Symbol(m, a),
            SExpr::String(_, a) => SExpr::String(m, a),
            SExpr::Function(_, a) => SExpr::Function(m, a),
            SExpr::Prefix(_, a, b) => SExpr::Prefix(m, a, b),
            SExpr::Infix(_, a, b, c) => SExpr::Infix(m, a, b, c),
            SExpr::If(_, a, b, c) => SExpr::If(m, a, b, c),
            SExpr::Application(_, a, b) => SExpr::Application(m, a, b),
            SExpr::Assign(_, a, b) => SExpr::Assign(m, a, b),
            SExpr::With(_, a, b) => SExpr::With(m, a, b),
        }
    }

    /// Returns the metadata of the node.
    pub fn get_metadata(&self) -> (r: &SExprMetadata)
        ensures
            r == self.meta(),
    {
        match self {
            SExpr::Int(m, _) => m,
            SExpr::Float(m, _) => m,
            SExpr::True(m) => m,
            SExpr::False(m) => m,
            SExpr::Symbol(m, _) => m,
            SExpr::String(m, _) => m,
            SExpr::Function(m, _) => m,
            SExpr::Prefix(m, _, _) => m,
            SExpr::Infix(m, _, _, _) => m,
            SExpr::If(m, _, _, _) => m,
            SExpr::Application(m, _, _) => m,
            SExpr::Assign(m, _, _) => m,
            SExpr::With(m, _, _) => m,
        }
    }
}

impl SExpr {
    /// Returns the metadata of the node, for updating it in place.
    pub fn get_mutable_metadata(&mut self) -> (r: &mut SExprMetadata)
        ensures
            *r == *old(self).meta(),
            *final(self) == old(self).with_meta(*final(r)),
    {
        match self {
            SExpr::Int(m, _) => m,
            SExpr::Float(m, _) => m,
            SExpr::True(m) => m,
            SExpr::False(m) => m,
            SExpr::Symbol(m, _) => m,
            SExpr::String(m, _) => m,
            SExpr::Function(m, _) => m,
            SExpr::Prefix(m, _, _) => m,
            SExpr::Infix(m, _, _, _) => m,
            SExpr::If(m, _, _, _) => m,
            SExpr::Application(m, _, _) => m,
            SExpr::Assign(m, _, _) => m,
            SExpr::With(m, _, _) => m,
        }
    }
}

/// One lexical scope: the variables it binds, and the scope it is nested in.
#[derive(Debug)]
pub struct Scope {
    pub variables: Vec<(String, Type)>,
    pub parent: Option<Box<Scope>>,
}

impl Scope {
    /// An empty scope with no parent.
    pub fn new() -> (r: Scope)
        ensures
            r.variables@.len() == 0,
            r.parent is None,
    {
        Scope { variables: Vec::new(), parent: None }
    }
}

/// State kept while building the expression tree.
#[derive(Debug)]
pub struct IRMetadata {
    pub scope: Scope,
}

impl IRMetadata {
    /// Pushes a new, empty scope on top of the scope stack.
    pub fn push_scope(&mut self)
        ensures
            final(self).scope.variables@.len() == 0,
            final(self).scope.parent == Some(Box::new(old(self).scope)),
    {
        let mut scope = Scope::new();
        core::mem::swap(&mut scope, &mut self.scope);
        self.scope.parent = Some(Box::new(scope));
    }

    /// Pops the top scope when it has a parent; otherwise leaves the stack as
    /// it is.
    pub fn pop_scope(&mut self)
        ensures
            old(self).scope.parent is Some ==> final(self).scope == *old(self).scope.parent->Some_0,
            old(self).scope.parent is None ==> *final(self) == *old(self),
    {
        let mut parent: Option<Box<Scope>> = None;
        core::mem::swap(&mut parent, &mut self.scope.parent);
        match parent {
            Some(p) => {
                self.scope = *p;
            },
            None => {},
        }
    }
}

/// A function of the typed tree: its parameters, the variables it captures
/// from enclosing scopes, and its body.
#[derive(Debug)]
pub struct IRFunction {
    pub name: String,
    pub args: Vec<(String, Type)>,
    pub captured_names: Vec<String>,
    pub body: SExpr,
    pub global: bool,
}

/// The typed tree of a unit: its functions, its top-level expressions, and
/// its table of named types.
#[derive(Debug)]
pub struct IR {
    pub metadata: IRMetadata,
    pub funcs: Vec<IRFunction>,
    pub sexprs: Vec<SExpr>,
    pub types: Vec<(String, Type)>,
}

impl IR {
    /// An empty unit, with one empty scope.
    pub fn new() -> (r: IR)
        ensures
            r.metadata.scope.variables@.len() == 0,
            r.metadata.scope.parent is None,
            r.funcs@.len() == 0,
            r.sexprs@.len() == 0,
            r.types@.len() == 0,
    {
        IR {
            metadata: IRMetadata { scope: Scope::new() },
            funcs: Vec::new(),
            sexprs: Vec::new(),
            types: Vec::new(),
        }
    }

    /// Removes the top-level expressions; everything else stays.
    pub fn clear(&mut self)
        ensures
            final(self).sexprs@.len() == 0,
            final(self).funcs == old(self).funcs,
            final(self).types == old(self).types,
            final(self).metadata == old(self).metadata,
    {
        self.sexprs.clear();
    }
}

} // verus!
