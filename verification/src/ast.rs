//! The syntax tree: expressions as produced by the parser and consumed by
//! the semantic analyzer and the code generator.

use vstd::prelude::*;

verus! {

/// The four binary operators of the language.
#[derive(Debug, Clone, Copy, PartialEq, Eq, Structural)]
pub enum Operator {
    Add,
    Sub,
    Mul,
    Div,
}

/// A variable or function name; equality is by the underlying string.
#[derive(Debug, Clone, PartialEq)]
pub struct Identifier {
    pub value: String,
}

impl View for Identifier {
    type V = Seq<char>;

    open spec fn view(&self) -> Seq<char> {
        self.value@
    }
}

impl Identifier {
    pub fn new(value: String) -> (r: Identifier)
        ensures
            r@ == value@,
    {
        Identifier { value }
    }

    /// A deep copy whose characters are known to equal the original's.
    pub fn duplicate(&self) -> (r: Identifier)
        ensures
            r@ == self@,
    {
        Identifier { value: self.value.clone() }
    }
}

/// A source-level literal value. A float literal is carried as the bit
/// pattern of an IEEE-754 binary64 value, so that the tree itself stays
/// within plain integer data.
#[derive(Debug, Clone, PartialEq)]
pub enum Value {
    Int(i32),
    Float(u64),
    Bool(bool),
    String(String),
}

/// The mathematical shape of a literal value.
pub enum LitV {
    Int(i32),
    Float(u64),
    Bool(bool),
    String(Seq<char>),
}

impl View for Value {
    type V = LitV;

    open spec fn view(&self) -> LitV {
        match self {
            Value::Int(i) => LitV::Int(*i),
            Value::Float(b) => LitV::Float(*b),
            Value::Bool(b) => LitV::Bool(*b),
            Value::String(s) => LitV::String(s@),
        }
    }
}

/// One expression of the language. A whole submission is a list of these.
#[derive(Debug)]
pub enum Expr {
    Literal(Value),
    Identifier(Identifier),
    Assignment(Identifier, Box<Expr>),
    LetAssignment(Identifier, Box<Expr>),
    ConstAssignment(Identifier, Box<Expr>),
    BinaryOp(Box<Expr>, Operator, Box<Expr>),
    Function(Vec<Identifier>, Vec<Expr>),
    CallFunction(Identifier, Vec<Expr>),
}

/// The mathematical shape of an expression: strings become character
/// sequences and vectors become sequences.
pub enum ExprV {
    Literal(LitV),
    Identifier(Seq<char>),
    Assignment(Seq<char>, Box<ExprV>),
    LetAssignment(Seq<char>, Box<ExprV>),
    ConstAssignment(Seq<char>, Box<ExprV>),
    BinaryOp(Box<ExprV>, Operator, Box<ExprV>),
    Function(Seq<Seq<char>>, Seq<ExprV>),
    CallFunction(Seq<char>, Seq<ExprV>),
}

impl Expr {
    /// The mathematical value of this expression tree.
    pub open spec fn deep(&self) -> ExprV
        decreases self,
    {
        match self {
            Expr::Literal(v) => ExprV::Literal(v@),
            Expr::Identifier(id) => ExprV::Identifier(id@),
            Expr::Assignment(id, rhs) => ExprV::Assignment(id@, Box::new(rhs.deep())),
            Expr::LetAssignment(id, rhs) => ExprV::LetAssignment(id@, Box::new(rhs.deep())),
            Expr::ConstAssignment(id, rhs) => ExprV::ConstAssignment(id@, Box::new(rhs.deep())),
            Expr::BinaryOp(l, op, r) => ExprV::BinaryOp(
                Box::new(l.deep()),
                *op,
                Box::new(r.deep()),
            ),
            Expr::Function(params, body) => ExprV::Function(
                Seq::new(params@.len(), |i: int| params@[i]@),
                deep_all(body@),
            ),
            Expr::CallFunction(id, args) => ExprV::CallFunction(id@, deep_all(args@)),
        }
    }
}

/// The mathematical values of a sequence of expression trees.
pub open spec fn deep_all(s: Seq<Expr>) -> Seq<ExprV>
    decreases s,
{
    if s.len() == 0 {
        Seq::empty()
    } else {
        deep_all(s.subrange(0, s.len() - 1)).push(s[s.len() - 1].deep())
    }
}

/// `deep_all` maps each element to its `deep` value.
pub proof fn lemma_deep_all(s: Seq<Expr>)
    ensures
        deep_all(s).len() == s.len(),
        forall|i: int| 0 <= i < s.len() ==> deep_all(s)[i] == #[trigger] s[i].deep(),
    decreases s.len(),
{
    if s.len() > 0 {
        lemma_deep_all(s.subrange(0, s.len() - 1));
        assert(forall|i: int|
            0 <= i < s.len() - 1 ==> s.subrange(0, s.len() - 1)[i] == #[trigger] s[i]);
    }
}

impl View for Expr {
    type V = ExprV;

    open spec fn view(&self) -> ExprV {
        self.deep()
    }
}

} // verus!
