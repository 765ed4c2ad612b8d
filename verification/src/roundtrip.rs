//! What survives rendering and parsing again.
//!
//! An expression need not come back from its own rendering: the parser takes
//! brackets by their looks, so `((a + b) + (c + d))` is no expression to it.
//! One operation on two names does come back.

use vstd::prelude::*;
use crate::expression::ExprView;
use crate::literal::{digits_end, is_decimal, is_number_literal, is_special, unsigned};
use crate::numeral::NumeralView;
use crate::parser::{
    combine, depth, is_name, is_operator, is_wrapped, lemma_split_from, parse, split_from,
    split_point, splits_at,
};
use crate::render::{lemma_text_of_add, rendering, text_of, PieceView};
use crate::text::{is_letter, is_space, trim_end, trim_start, trimmed};

verus! {

/// A name as one writes it: one letter or more, none of them white space,
/// and not one of the words that name a number.
pub open spec fn is_plain_name(s: Seq<char>) -> bool {
    &&& s.len() > 0
    &&& is_name(s)
    &&& forall|i: int| 0 <= i < s.len() ==> !is_space(#[trigger] s[i])
    &&& !is_number_literal(s)
}

/// One of the four operators that join two expressions of any kind.
pub open spec fn is_arithmetic(op: char) -> bool {
    op == '+' || op == '-' || op == '*' || op == '/'
}

/// The operation `op` on `l` and `r`.
pub open spec fn operation(op: char, l: ExprView, r: ExprView) -> ExprView {
    if op == '+' {
        ExprView::Add(Box::new(l), Box::new(r))
    } else if op == '-' {
        ExprView::Sub(Box::new(l), Box::new(r))
    } else if op == '*' {
        ExprView::Mul(Box::new(l), Box::new(r))
    } else {
        ExprView::Div(Box::new(l), Box::new(r))
    }
}

/// A letter is none of the characters that the grammar gives a meaning.
proof fn lemma_letter(c: char)
    requires
        is_letter(c),
    ensures
        !is_operator(c),
        c != '(',
        c != ')',
        c != '.',
        c != ' ',
        !('0' <= c && c <= '9'),
{
}

/// A text that neither starts nor ends with white space is its own trimmed
/// form.
proof fn lemma_trimmed_same(s: Seq<char>)
    requires
        s.len() > 0,
        !is_space(s[0]),
        !is_space(s.last()),
    ensures
        trimmed(s) == s,
{
}

/// A plain name parses to the variable of that name, with or without a
/// blank before or after it.
proof fn lemma_parse_name(name: Seq<char>)
    requires
        is_plain_name(name),
    ensures
        parse(name) == Ok::<ExprView, crate::parser::ParseError>(ExprView::Var(name)),
        parse(name + seq![' ']) == Ok::<ExprView, crate::parser::ParseError>(ExprView::Var(name)),
        parse(seq![' '] + name) == Ok::<ExprView, crate::parser::ParseError>(ExprView::Var(name)),
{
    lemma_letter(name[0]);
    lemma_trimmed_same(name);
    assert(!is_wrapped(name));
    let after = name + seq![' '];
    assert(trim_start(after) == after);
    assert(after.drop_last() =~= name);
    assert(is_space(after.last()));
    assert(trim_end(after) == trim_end(name));
    assert(trimmed(after) == name);
    let before = seq![' '] + name;
    assert(before.skip(1) =~= name);
    assert(is_space(before[0]));
    assert(trim_start(before) == trim_start(name));
    assert(trimmed(before) == name);
}

/// Where no bracket stands among the first `n` characters, none is open
/// after them.
proof fn lemma_depth_flat(s: Seq<char>, n: int)
    requires
        0 <= n <= s.len(),
        forall|i: int| 0 <= i < n ==> #[trigger] s[i] != '(' && s[i] != ')',
    ensures
        depth(s, n) == 0,
    decreases n,
{
    if n > 0 {
        lemma_depth_flat(s, n - 1);
    }
}

/// One operation on two plain names comes back from its rendering as it
/// was, however numbers are printed.
pub proof fn lemma_single_operation_round_trip(
    op: char,
    a: Seq<char>,
    b: Seq<char>,
    printed: spec_fn(NumeralView) -> Seq<char>,
)
    requires
        is_arithmetic(op),
        is_plain_name(a),
        is_plain_name(b),
    ensures
        parse(
            text_of(rendering(operation(op, ExprView::Var(a), ExprView::Var(b))), printed),
        ) == Ok::<ExprView, crate::parser::ParseError>(
            operation(op, ExprView::Var(a), ExprView::Var(b)),
        ),
{
    let e = operation(op, ExprView::Var(a), ExprView::Var(b));
    let sign = seq![' ', op, ' '];
    let inner = a + sign + b;
    let text = seq!['('] + inner + seq![')'];
    // The rendering spells `text`.
    assert(text_of(rendering(e), printed) == text) by {
        reveal_with_fuel(rendering, 2);
        reveal_with_fuel(text_of, 2);
        let open = seq![PieceView::Text(seq!['('])];
        let left = seq![PieceView::Text(a)];
        let mid = seq![PieceView::Text(sign)];
        let right = seq![PieceView::Text(b)];
        let close = seq![PieceView::Text(seq![')'])];
        assert(rendering(e) == open + left + mid + right + close);
        lemma_text_of_add(open + left + mid + right, close, printed);
        lemma_text_of_add(open + left + mid, right, printed);
        lemma_text_of_add(open + left, mid, printed);
        lemma_text_of_add(open, left, printed);
        assert(open.drop_last() =~= Seq::<PieceView>::empty());
        assert(left.drop_last() =~= Seq::<PieceView>::empty());
        assert(mid.drop_last() =~= Seq::<PieceView>::empty());
        assert(right.drop_last() =~= Seq::<PieceView>::empty());
        assert(close.drop_last() =~= Seq::<PieceView>::empty());
        assert(text_of(open, printed) =~= seq!['(']);
        assert(text_of(left, printed) =~= a);
        assert(text_of(mid, printed) =~= sign);
        assert(text_of(right, printed) =~= b);
        assert(text_of(close, printed) =~= seq![')']);
        assert(text_of(rendering(e), printed) =~= text);
    }
    // The brackets come off.
    lemma_trimmed_same(text);
    assert(is_wrapped(text));
    assert(text.subrange(1, text.len() - 1) =~= inner);
    assert(parse(text) == parse(inner));
    // What is inside is neither a number nor a name, and splits at `op`.
    lemma_letter(a[0]);
    lemma_letter(b.last());
    let m = a.len() as int + 1;
    assert(inner[0] == a[0]);
    assert(inner.last() == b.last());
    lemma_trimmed_same(inner);
    assert(!is_wrapped(inner));
    assert(!is_number_literal(inner)) by {
        assert(unsigned(inner) == inner);
        assert(inner[a.len() as int] == ' ');
        assert(!is_special(inner));
        assert(digits_end(inner, 0) == 0);
        assert(!is_decimal(inner));
    }
    assert(inner[m] == op);
    assert(!is_name(inner)) by {
        assert(!is_letter(inner[m]));
    }
    assert forall|i: int| 0 <= i < m implies #[trigger] inner[i] != '(' && inner[i] != ')'
        && !is_operator(inner[i]) by {
        if i < a.len() {
            assert(inner[i] == a[i]);
            lemma_letter(a[i]);
        }
    }
    lemma_depth_flat(inner, m);
    assert(splits_at(inner, m));
    lemma_split_from(inner, 0);
    assert(split_point(inner) == Some(m)) by {
        match split_from(inner, 0) {
            Some(i) => {
                if i < m {
                    assert(!is_operator(inner[i]));
                }
            },
            None => {},
        }
    }
    // Each side is a name with a blank at one end.
    assert(inner.take(m) =~= a + seq![' ']);
    assert(inner.skip(m + 1) =~= seq![' '] + b);
    lemma_parse_name(a);
    lemma_parse_name(b);
    assert(parse(inner) == combine(op, parse(inner.take(m)), parse(inner.skip(m + 1))));
}

} // verus!
