//! The renderer: from an expression to its fully bracketed form.
//!
//! Every operation is put in brackets, `Add(a, b)` as `(a + b)` and a power
//! as `(base^n)`; a name is given as it is. A number is not printed here: the
//! form is a sequence of pieces, and a numeral among them is left for the
//! caller to print as the platform prints floating-point numbers.

use vstd::prelude::*;
use crate::expression::{Expr, ExprView};
use crate::numeral::{Numeral, NumeralView};

verus! {

/// One piece of a rendered expression.
#[derive(Debug, PartialEq, Eq)]
pub enum Piece {
    /// Text to be printed as it is.
    Text(String),
    /// A number to be printed.
    Number(Numeral),
}

/// What a piece is, as plain values.
pub enum PieceView {
    Text(Seq<char>),
    Number(NumeralView),
}

impl View for Piece {
    type V = PieceView;

    open spec fn view(&self) -> PieceView {
        match self {
            Piece::Text(t) => PieceView::Text(t@),
            Piece::Number(n) => PieceView::Number(n@),
        }
    }
}

/// The pieces of `left sign right` in brackets.
pub open spec fn bracketed(left: Seq<PieceView>, sign: Seq<char>, right: Seq<PieceView>) -> Seq<
    PieceView,
> {
    seq![PieceView::Text(seq!['('])] + left + seq![PieceView::Text(sign)] + right
        + seq![PieceView::Text(seq![')'])]
}

/// The fully bracketed form of `e`.
pub open spec fn rendering(e: ExprView) -> Seq<PieceView>
    decreases e,
{
    match e {
        ExprView::Const(n) => seq![PieceView::Number(n)],
        ExprView::Var(name) => seq![PieceView::Text(name)],
        ExprView::Add(l, r) => bracketed(rendering(*l), seq![' ', '+', ' '], rendering(*r)),
        ExprView::Sub(l, r) => bracketed(rendering(*l), seq![' ', '-', ' '], rendering(*r)),
        ExprView::Mul(l, r) => bracketed(rendering(*l), seq![' ', '*', ' '], rendering(*r)),
        ExprView::Div(l, r) => bracketed(rendering(*l), seq![' ', '/', ' '], rendering(*r)),
        ExprView::Pow(base, n) => bracketed(rendering(*base), seq!['^'], seq![PieceView::Number(n)]),
    }
}

/// The text that `pieces` make once every numeral among them is printed as
/// `printed` says.
pub open spec fn text_of(pieces: Seq<PieceView>, printed: spec_fn(NumeralView) -> Seq<char>) -> Seq<
    char,
>
    decreases pieces.len(),
{
    if pieces.len() == 0 {
        Seq::empty()
    } else {
        text_of(pieces.drop_last(), printed) + match pieces.last() {
            PieceView::Text(t) => t,
            PieceView::Number(n) => printed(n),
        }
    }
}

/// The text of pieces in a row is the text of the first ones followed by
/// the text of the others.
pub proof fn lemma_text_of_add(
    p: Seq<PieceView>,
    q: Seq<PieceView>,
    printed: spec_fn(NumeralView) -> Seq<char>,
)
    ensures
        text_of(p + q, printed) == text_of(p, printed) + text_of(q, printed),
    decreases q.len(),
{
    if q.len() == 0 {
        assert(p + q =~= p);
        assert(text_of(p, printed) + text_of(q, printed) =~= text_of(p, printed));
    } else {
        assert((p + q).drop_last() =~= p + q.drop_last());
        assert((p + q).last() == q.last());
        lemma_text_of_add(p, q.drop_last(), printed);
        let tail = match q.last() {
            PieceView::Text(t) => t,
            PieceView::Number(n) => printed(n),
        };
        assert(text_of(p + q, printed) =~= text_of(p, printed) + (text_of(q.drop_last(), printed)
            + tail));
    }
}

/// The views of the pieces in `pieces`.
pub open spec fn views(pieces: Seq<Piece>) -> Seq<PieceView> {
    pieces.map_values(|p: Piece| p@)
}

fn push_text(out: &mut Vec<Piece>, text: &str)
    ensures
        views(final(out)@) == views(old(out)@).push(PieceView::Text(text@)),
{
    out.push(Piece::Text(text.to_owned()));
    assert(views(out@) =~= views(old(out)@).push(PieceView::Text(text@)));
}

impl Expr {
    fn render_into(&self, out: &mut Vec<Piece>)
        ensures
            views(final(out)@) == views(old(out)@) + rendering(self@),
        decreases self,
    {
        proof {
            reveal_strlit("(");
            reveal_strlit(")");
            reveal_strlit(" + ");
            reveal_strlit(" - ");
            reveal_strlit(" * ");
            reveal_strlit(" / ");
            reveal_strlit("^");
            assert("("@ =~= seq!['(']);
            assert(")"@ =~= seq![')']);
            assert(" + "@ =~= seq![' ', '+', ' ']);
            assert(" - "@ =~= seq![' ', '-', ' ']);
            assert(" * "@ =~= seq![' ', '*', ' ']);
            assert(" / "@ =~= seq![' ', '/', ' ']);
            assert("^"@ =~= seq!['^']);
        }
        let ghost before = views(out@);
        match self {
            Expr::Const(n) => {
                out.push(Piece::Number(n.clone()));
                assert(views(out@) =~= before + rendering(self@));
            },
            Expr::Var(name) => {
                push_text(out, name.as_str());
                assert(views(out@) =~= before + rendering(self@));
            },
            Expr::Add(l, r) => {
                push_text(out, "(");
                l.render_into(out);
                push_text(out, " + ");
                r.render_into(out);
                push_text(out, ")");
                assert(views(out@) =~= before + rendering(self@));
            },
            Expr::Sub(l, r) => {
                push_text(out, "(");
                l.render_into(out);
                push_text(out, " - ");
                r.render_into(out);
                push_text(out, ")");
                assert(views(out@) =~= before + rendering(self@));
            },
            Expr::Mul(l, r) => {
                push_text(out, "(");
                l.render_into(out);
                push_text(out, " * ");
                r.render_into(out);
                push_text(out, ")");
                assert(views(out@) =~= before + rendering(self@));
            },
            Expr::Div(l, r) => {
                push_text(out, "(");
                l.render_into(out);
                push_text(out, " / ");
                r.render_into(out);
                push_text(out, ")");
                assert(views(out@) =~= before + rendering(self@));
            },
            Expr::Pow(base, n) => {
                push_text(out, "(");
                base.render_into(out);
                push_text(out, "^");
                let ghost mid = views(out@);
                out.push(Piece::Number(n.clone()));
                assert(views(out@) =~= mid.push(PieceView::Number(n@)));
                push_text(out, ")");
                assert(views(out@) =~= before + rendering(self@));
            },
        }
    }

    /// The fully bracketed form of this expression.
    pub fn render(&self) -> (r: Vec<Piece>)
        ensures
            views(r@) == rendering(self@),
    {
        let mut out: Vec<Piece> = Vec::new();
        assert(views(out@) =~= Seq::<PieceView>::empty());
        self.render_into(&mut out);
        assert(views(out@) =~= rendering(self@));
        out
    }
}

} // verus!
