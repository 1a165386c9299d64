//! The `Expr` data model: one representation serves both as the abstract
//! syntax tree produced by the parser and as the runtime value produced by
//! the evaluator.

use vstd::prelude::*;

verus! {

broadcast use vstd::std_specs::vec::group_vec_axioms;

/// Mathematical model of an expression or value. Names are sequences of
/// characters; lists are sequences of models.
pub enum ExprV {
    /// The unit/void value.
    Nil,
    /// A signed 32-bit integer, modeled as an unbounded integer whose value
    /// always lies within the `i32` range.
    Int(int),
    Bool(bool),
    /// An identifier; during evaluation a symbol always resolves to some
    /// other value.
    Symbol(Seq<char>),
    /// A cons cell owning both children.
    Pair(Box<ExprV>, Box<ExprV>),
    /// A callable: ordered parameter names and the body forms. It carries no
    /// reference to its defining scope; calls chain off the caller's frame.
    Lambda(Seq<Seq<char>>, Seq<ExprV>),
    /// Both a parenthesized source form and the runtime sequence of results.
    List(Seq<ExprV>),
}

/// An expression tree node and runtime value.
#[derive(Debug, PartialEq)]
pub enum Expr {
    Nil,
    Int(i32),
    Bool(bool),
    Symbol(String),
    Pair(Box<Expr>, Box<Expr>),
    Lambda(Vec<String>, Vec<Expr>),
    List(Vec<Expr>),
}

/// The model of one expression node.
pub open spec fn expr_v(e: Expr) -> ExprV
    decreases e,
{
    match e {
        Expr::Nil => ExprV::Nil,
        Expr::Int(n) => ExprV::Int(n as int),
        Expr::Bool(b) => ExprV::Bool(b),
        Expr::Symbol(s) => ExprV::Symbol(s@),
        Expr::Pair(a, b) => ExprV::Pair(Box::new(expr_v(*a)), Box::new(expr_v(*b))),
        Expr::Lambda(params, body) => ExprV::Lambda(strs_v(params@), exprs_v(body@)),
        Expr::List(es) => ExprV::List(exprs_v(es@)),
    }
}

/// The models of a sequence of expression nodes, in order.
pub open spec fn exprs_v(s: Seq<Expr>) -> Seq<ExprV>
    decreases s,
{
    if s.len() == 0 {
        Seq::empty()
    } else {
        exprs_v(s.drop_last()).push(expr_v(s.last()))
    }
}

/// The views of a sequence of strings, in order.
pub open spec fn strs_v(s: Seq<String>) -> Seq<Seq<char>> {
    Seq::new(s.len(), |i: int| s[i]@)
}

impl View for Expr {
    type V = ExprV;

    open spec fn view(&self) -> ExprV {
        expr_v(*self)
    }
}

/// `exprs_v` is the element-wise model map.
pub proof fn lemma_exprs_v(s: Seq<Expr>)
    ensures
        exprs_v(s).len() == s.len(),
        forall|i: int| 0 <= i < s.len() ==> exprs_v(s)[i] == expr_v(s[i]),
    decreases s.len(),
{
    if s.len() > 0 {
        lemma_exprs_v(s.drop_last());
    }
}

impl Expr {
    /// A deep copy whose model is the same as this node's.
    pub fn duplicate(&self) -> (r: Expr)
        ensures
            r@ == self@,
        decreases *self,
    {
        match self {
            Expr::Nil => Expr::Nil,
            Expr::Int(n) => Expr::Int(*n),
            Expr::Bool(b) => Expr::Bool(*b),
            Expr::Symbol(s) => Expr::Symbol(s.clone()),
            Expr::Pair(a, b) => Expr::Pair(Box::new(a.duplicate()), Box::new(b.duplicate())),
            Expr::Lambda(params, body) => Expr::Lambda(
                duplicate_strings(params),
                duplicate_exprs(body),
            ),
            Expr::List(es) => Expr::List(duplicate_exprs(es)),
        }
    }
}

/// A deep copy of a vector of expressions, model for model.
fn duplicate_exprs(es: &Vec<Expr>) -> (r: Vec<Expr>)
    ensures
        exprs_v(r@) == exprs_v(es@),
    decreases *es,
{
    let mut r: Vec<Expr> = Vec::new();
    let mut i: usize = 0;
    while i < es.len()
        invariant
            i <= es@.len(),
            r@.len() == i,
            forall|j: int| 0 <= j < i ==> expr_v(r@[j]) == expr_v(es@[j]),
        decreases es@.len() - i,
    {
        let e = es[i].duplicate();
        r.push(e);
        i = i + 1;
    }
    proof {
        lemma_exprs_v(r@);
        lemma_exprs_v(es@);
        assert(exprs_v(r@) =~= exprs_v(es@));
    }
    r
}

/// A copy of a vector of strings, view for view.
fn duplicate_strings(ss: &Vec<String>) -> (r: Vec<String>)
    ensures
        strs_v(r@) == strs_v(ss@),
{
    let mut r: Vec<String> = Vec::new();
    let mut i: usize = 0;
    while i < ss.len()
        invariant
            i <= ss@.len(),
            r@.len() == i,
            forall|j: int| 0 <= j < i ==> r@[j]@ == ss@[j]@,
        decreases ss@.len() - i,
    {
        r.push(ss[i].clone());
        i = i + 1;
    }
    proof {
        assert(strs_v(r@) =~= strs_v(ss@));
    }
    r
}

} // verus!
