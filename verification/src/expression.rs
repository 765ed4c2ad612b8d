//! Expressions and their derivatives.

use vstd::prelude::*;
use crate::numeral::{Numeral, NumeralView};
use crate::text::same_text;

verus! {

/// An arithmetic expression: a tree that owns its parts.
#[derive(Debug, PartialEq, Eq)]
pub enum Expr {
    /// A number.
    Const(Numeral),
    /// A variable, known by its name.
    Var(String),
    /// Left plus right.
    Add(Box<Expr>, Box<Expr>),
    /// Left minus right.
    Sub(Box<Expr>, Box<Expr>),
    /// Left times right.
    Mul(Box<Expr>, Box<Expr>),
    /// Left over right.
    Div(Box<Expr>, Box<Expr>),
    /// A base raised to a number.
    Pow(Box<Expr>, Numeral),
}

/// What an expression is, as plain values.
pub enum ExprView {
    Const(NumeralView),
    Var(Seq<char>),
    Add(Box<ExprView>, Box<ExprView>),
    Sub(Box<ExprView>, Box<ExprView>),
    Mul(Box<ExprView>, Box<ExprView>),
    Div(Box<ExprView>, Box<ExprView>),
    Pow(Box<ExprView>, NumeralView),
}

impl Expr {
    /// The tree of plain values that this expression stands for.
    pub open spec fn model(self) -> ExprView
        decreases self,
    {
        match self {
            Expr::Const(n) => ExprView::Const(n@),
            Expr::Var(name) => ExprView::Var(name@),
            Expr::Add(l, r) => ExprView::Add(Box::new(l.model()), Box::new(r.model())),
            Expr::Sub(l, r) => ExprView::Sub(Box::new(l.model()), Box::new(r.model())),
            Expr::Mul(l, r) => ExprView::Mul(Box::new(l.model()), Box::new(r.model())),
            Expr::Div(l, r) => ExprView::Div(Box::new(l.model()), Box::new(r.model())),
            Expr::Pow(base, n) => ExprView::Pow(Box::new(base.model()), n@),
        }
    }
}

impl View for Expr {
    type V = ExprView;

    open spec fn view(&self) -> ExprView {
        self.model()
    }
}

impl ExprView {
    /// Whether every number in the expression is written as a number
    /// literal.
    pub open spec fn well_formed(self) -> bool
        decreases self,
    {
        match self {
            ExprView::Const(n) => n.well_formed(),
            ExprView::Var(_) => true,
            ExprView::Add(l, r) => l.well_formed() && r.well_formed(),
            ExprView::Sub(l, r) => l.well_formed() && r.well_formed(),
            ExprView::Mul(l, r) => l.well_formed() && r.well_formed(),
            ExprView::Div(l, r) => l.well_formed() && r.well_formed(),
            ExprView::Pow(base, n) => base.well_formed() && n.well_formed(),
        }
    }
}

/// The product `f * g`.
pub open spec fn product(f: ExprView, g: ExprView) -> ExprView {
    ExprView::Mul(Box::new(f), Box::new(g))
}

/// The derivative of `e` with respect to the variable `var`, rule by rule and
/// with nothing simplified. A power is differentiated as if its base were the
/// variable itself: the chain rule is not applied.
pub open spec fn derivative(e: ExprView, var: Seq<char>) -> ExprView
    decreases e,
{
    match e {
        ExprView::Const(_) => ExprView::Const(NumeralView::zero()),
        ExprView::Var(name) => if name == var {
            ExprView::Const(NumeralView::one())
        } else {
            ExprView::Const(NumeralView::zero())
        },
        ExprView::Add(l, r) => ExprView::Add(
            Box::new(derivative(*l, var)),
            Box::new(derivative(*r, var)),
        ),
        ExprView::Sub(l, r) => ExprView::Sub(
            Box::new(derivative(*l, var)),
            Box::new(derivative(*r, var)),
        ),
        ExprView::Mul(l, r) => ExprView::Add(
            Box::new(product(derivative(*l, var), *r)),
            Box::new(product(*l, derivative(*r, var))),
        ),
        ExprView::Div(l, r) => ExprView::Div(
            Box::new(
                ExprView::Sub(
                    Box::new(product(derivative(*l, var), *r)),
                    Box::new(product(*l, derivative(*r, var))),
                ),
            ),
            Box::new(ExprView::Pow(r, NumeralView::two())),
        ),
        ExprView::Pow(base, n) => product(ExprView::Const(n), ExprView::Pow(base, n.less_one())),
    }
}

/// The derivative of a well-formed expression is well formed: the numbers
/// that differentiation brings in are `0`, `1`, `2` and exponents less one.
pub proof fn lemma_derivative_well_formed(e: ExprView, var: Seq<char>)
    requires
        e.well_formed(),
    ensures
        derivative(e, var).well_formed(),
    decreases e,
{
    NumeralView::lemma_digits_well_formed();
    match e {
        ExprView::Const(_) => {},
        ExprView::Var(_) => {},
        ExprView::Add(l, r) => {
            lemma_derivative_well_formed(*l, var);
            lemma_derivative_well_formed(*r, var);
        },
        ExprView::Sub(l, r) => {
            lemma_derivative_well_formed(*l, var);
            lemma_derivative_well_formed(*r, var);
        },
        ExprView::Mul(l, r) => {
            lemma_derivative_well_formed(*l, var);
            lemma_derivative_well_formed(*r, var);
            reveal_with_fuel(ExprView::well_formed, 3);
        },
        ExprView::Div(l, r) => {
            lemma_derivative_well_formed(*l, var);
            lemma_derivative_well_formed(*r, var);
            reveal_with_fuel(ExprView::well_formed, 4);
        },
        ExprView::Pow(base, n) => {
            reveal_with_fuel(ExprView::well_formed, 3);
        },
    }
}

impl Clone for Expr {
    fn clone(&self) -> (r: Self)
        ensures
            r@ == self@,
        decreases self,
    {
        match self {
            Expr::Const(n) => Expr::Const(n.clone()),
            Expr::Var(name) => Expr::Var(name.clone()),
            Expr::Add(l, r) => Expr::Add(Box::new((**l).clone()), Box::new((**r).clone())),
            Expr::Sub(l, r) => Expr::Sub(Box::new((**l).clone()), Box::new((**r).clone())),
            Expr::Mul(l, r) => Expr::Mul(Box::new((**l).clone()), Box::new((**r).clone())),
            Expr::Div(l, r) => Expr::Div(Box::new((**l).clone()), Box::new((**r).clone())),
            Expr::Pow(base, n) => Expr::Pow(Box::new((**base).clone()), n.clone()),
        }
    }
}

impl Expr {
    /// The derivative of this expression with respect to the variable `var`.
    pub fn differentiate(&self, var: &str) -> (r: Expr)
        ensures
            r@ == derivative(self@, var@),
        decreases self,
    {
        proof {
            reveal_with_fuel(Expr::model, 4);
        }
        match self {
            Expr::Const(_) => Expr::Const(Numeral::zero()),
            Expr::Var(name) => {
                if same_text(name.as_str(), var) {
                    Expr::Const(Numeral::one())
                } else {
                    Expr::Const(Numeral::zero())
                }
            },
            Expr::Add(l, r) => Expr::Add(
                Box::new(l.differentiate(var)),
                Box::new(r.differentiate(var)),
            ),
            Expr::Sub(l, r) => Expr::Sub(
                Box::new(l.differentiate(var)),
                Box::new(r.differentiate(var)),
            ),
            Expr::Mul(l, r) => Expr::Add(
                Box::new(Expr::Mul(Box::new(l.differentiate(var)), Box::new((**r).clone()))),
                Box::new(Expr::Mul(Box::new((**l).clone()), Box::new(r.differentiate(var)))),
            ),
            Expr::Div(l, r) => Expr::Div(
                Box::new(
                    Expr::Sub(
                        Box::new(
                            Expr::Mul(Box::new(l.differentiate(var)), Box::new((**r).clone())),
                        ),
                        Box::new(
                            Expr::Mul(Box::new((**l).clone()), Box::new(r.differentiate(var))),
                        ),
                    ),
                ),
                Box::new(Expr::Pow(Box::new((**r).clone()), Numeral::two())),
            ),
            Expr::Pow(base, n) => Expr::Mul(
                Box::new(Expr::Const(n.clone())),
                Box::new(Expr::Pow(Box::new((**base).clone()), n.less_one())),
            ),
        }
    }
}

} // verus!
