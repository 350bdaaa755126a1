//! Expressions back to tokens and text, and what parsing has to do with
//! it: a parsed expression, printed, parses to itself.
use vstd::prelude::*;
use crate::error::CompileError;
use crate::lexer::{
    decimal_value, digit_value, digits_end, is_digit, is_lowercase, is_operator, is_paren, lex_from,
    lex_spec, lemma_digits_end_bounds, lemma_digits_end_inside, LexItem,
};
use crate::parser::{
    lemma_expr_advances, lemma_summand_advances, lemma_term_advances, parse_expr_spec, parse_spec,
    parse_summand_spec, parse_term_spec, parse_tokens, Expr,
};

verus! {

/// The tokens of an expression, in the order in which they are written.
pub open spec fn tokens_of(e: Expr) -> Seq<LexItem>
    decreases e,
{
    match e {
        Expr::Number(n) => seq![LexItem::Num(n)],
        Expr::Arg(c) => seq![LexItem::Arg(c)],
        Expr::Paren(inner) => seq![LexItem::Paren('(')] + tokens_of(*inner) + seq![
            LexItem::Paren(')'),
        ],
        Expr::Sum(l, r) => tokens_of(*l) + seq![LexItem::Op('+')] + tokens_of(*r),
        Expr::Product(l, r) => tokens_of(*l) + seq![LexItem::Op('*')] + tokens_of(*r),
        Expr::Div(l, r) => tokens_of(*l) + seq![LexItem::Op('/')] + tokens_of(*r),
    }
}

/// The character of a digit's value.
pub open spec fn digit_char(d: nat) -> char
    recommends
        d < 10,
{
    (d + '0' as nat) as char
}

/// The decimal digits of a number, without leading zeros.
pub open spec fn decimal_digits(n: nat) -> Seq<char>
    decreases n,
{
    if n < 10 {
        seq![digit_char(n)]
    } else {
        decimal_digits(n / 10).push(digit_char(n % 10))
    }
}

/// How a token is written.
pub open spec fn token_text(token: LexItem) -> Seq<char> {
    match token {
        LexItem::Num(n) => decimal_digits(n as nat),
        LexItem::Arg(c) => seq![c],
        LexItem::Op(c) => seq![c],
        LexItem::Paren(c) => seq![c],
    }
}

/// The tokens written one after the other, a space after each.
pub open spec fn text_of(tokens: Seq<LexItem>) -> Seq<char>
    decreases tokens.len(),
{
    if tokens.len() == 0 {
        Seq::empty()
    } else {
        token_text(tokens[0]) + seq![' '] + text_of(tokens.drop_first())
    }
}

/// An expression as text.
pub open spec fn printed(e: Expr) -> Seq<char> {
    text_of(tokens_of(e))
}

/// Whether a token is one that the lexer gives: a parameter is a lowercase
/// letter, an operator one of the three, a parenthesis one of the two.
pub open spec fn proper(token: LexItem) -> bool {
    match token {
        LexItem::Num(_) => true,
        LexItem::Arg(c) => is_lowercase(c),
        LexItem::Op(c) => is_operator(c),
        LexItem::Paren(c) => is_paren(c),
    }
}

/// The value of an expression without parameters in the natural numbers,
/// where no division is by zero: the quotient is rounded down.
pub open spec fn value(e: Expr) -> Option<nat>
    decreases e,
{
    match e {
        Expr::Number(n) => Some(n as nat),
        Expr::Arg(_) => None,
        Expr::Paren(inner) => value(*inner),
        Expr::Sum(l, r) => match (value(*l), value(*r)) {
            (Some(a), Some(b)) => Some(a + b),
            _ => None,
        },
        Expr::Product(l, r) => match (value(*l), value(*r)) {
            (Some(a), Some(b)) => Some(a * b),
            _ => None,
        },
        Expr::Div(l, r) => match (value(*l), value(*r)) {
            (Some(a), Some(b)) => if b == 0 {
                None
            } else {
                Some(a / b)
            },
            _ => None,
        },
    }
}

/// A term that parses is written with the tokens that it was read from.
pub proof fn lemma_term_sound(tokens: Seq<LexItem>, pos: int)
    ensures
        parse_term_spec(tokens, pos) matches Some((e, end)) ==> 0 <= pos < end <= tokens.len()
            && tokens.subrange(pos, end) == tokens_of(e),
    decreases tokens.len() - pos, 0int,
{
    lemma_term_advances(tokens, pos);
    if let Some((e, end)) = parse_term_spec(tokens, pos) {
        match tokens[pos] {
            LexItem::Paren(_) => {
                lemma_expr_sound(tokens, pos + 1);
                lemma_expr_advances(tokens, pos + 1);
                let (inner, next) = parse_expr_spec(tokens, pos + 1)->0;
                assert(tokens.subrange(pos, end) =~= seq![LexItem::Paren('(')] + tokens.subrange(
                    pos + 1,
                    next,
                ) + seq![LexItem::Paren(')')]);
            },
            _ => {
                assert(tokens.subrange(pos, end) =~= seq![tokens[pos]]);
            },
        }
    }
}

/// A summand that parses is written with the tokens that it was read
/// from.
pub proof fn lemma_summand_sound(tokens: Seq<LexItem>, pos: int)
    ensures
        parse_summand_spec(tokens, pos) matches Some((e, end)) ==> 0 <= pos < end <= tokens.len()
            && tokens.subrange(pos, end) == tokens_of(e),
    decreases tokens.len() - pos, 1int,
{
    lemma_summand_advances(tokens, pos);
    lemma_term_sound(tokens, pos);
    if let Some((e, end)) = parse_summand_spec(tokens, pos) {
        let (left, next) = parse_term_spec(tokens, pos)->0;
        if next < tokens.len() && tokens[next] == LexItem::Op('*') {
            lemma_summand_sound(tokens, next + 1);
            assert(tokens.subrange(pos, end) =~= tokens.subrange(pos, next) + seq![
                LexItem::Op('*'),
            ] + tokens.subrange(next + 1, end));
        } else if next < tokens.len() && tokens[next] == LexItem::Op('/') {
            lemma_expr_sound(tokens, next + 1);
            assert(tokens.subrange(pos, end) =~= tokens.subrange(pos, next) + seq![
                LexItem::Op('/'),
            ] + tokens.subrange(next + 1, end));
        }
    }
}

/// An expression that parses is written with the tokens that it was read
/// from.
pub proof fn lemma_expr_sound(tokens: Seq<LexItem>, pos: int)
    ensures
        parse_expr_spec(tokens, pos) matches Some((e, end)) ==> 0 <= pos < end <= tokens.len()
            && tokens.subrange(pos, end) == tokens_of(e),
    decreases tokens.len() - pos, 2int,
{
    lemma_expr_advances(tokens, pos);
    lemma_summand_sound(tokens, pos);
    if let Some((e, end)) = parse_expr_spec(tokens, pos) {
        let (left, next) = parse_summand_spec(tokens, pos)->0;
        if next < tokens.len() && tokens[next] == LexItem::Op('+') {
            lemma_expr_sound(tokens, next + 1);
            assert(tokens.subrange(pos, end) =~= tokens.subrange(pos, next) + seq![
                LexItem::Op('+'),
            ] + tokens.subrange(next + 1, end));
        }
    }
}

/// The tokens of a parsed expression are the tokens that were parsed.
pub proof fn lemma_parse_tokens_sound(tokens: Seq<LexItem>)
    ensures
        parse_tokens(tokens) matches Some(e) ==> tokens_of(e) == tokens,
{
    lemma_expr_sound(tokens, 0);
    if parse_tokens(tokens) is Some {
        assert(tokens.subrange(0, tokens.len() as int) =~= tokens);
    }
}

/// The lexer gives proper tokens only.
pub proof fn lemma_lex_proper(s: Seq<char>, from: int)
    requires
        0 <= from <= s.len(),
    ensures
        lex_from(s, from) matches Ok(tokens) ==> forall|i: int|
            0 <= i < tokens.len() ==> proper(#[trigger] tokens[i]),
    decreases s.len() - from,
{
    if from < s.len() {
        let c = s[from];
        if is_digit(c) {
            lemma_digits_end_bounds(s, from);
            lemma_lex_proper(s, digits_end(s, from));
        } else {
            lemma_lex_proper(s, from + 1);
        }
    }
}

/// The digits of a number are digits, at least one, and denote the
/// number.
pub proof fn lemma_decimal_digits(n: nat)
    ensures
        decimal_digits(n).len() > 0,
        forall|i: int| 0 <= i < decimal_digits(n).len() ==> is_digit(#[trigger] decimal_digits(n)[i]),
        decimal_value(decimal_digits(n)) == n,
    decreases n,
{
    if n < 10 {
        let d = seq![digit_char(n)];
        assert(d.drop_last() =~= Seq::<char>::empty());
        assert(decimal_value(d.drop_last()) == 0);
        assert(digit_value(digit_char(n)) == n);
    } else {
        lemma_decimal_digits(n / 10);
        let d = decimal_digits(n);
        assert(d.drop_last() =~= decimal_digits(n / 10));
        assert(digit_value(digit_char(n % 10)) == n % 10);
    }
}

/// Text that consists of written tokens lexes to those tokens.
pub proof fn lemma_lex_text(s: Seq<char>, from: int, tokens: Seq<LexItem>)
    requires
        0 <= from <= s.len(),
        s.subrange(from, s.len() as int) == text_of(tokens),
        forall|i: int| 0 <= i < tokens.len() ==> proper(#[trigger] tokens[i]),
    ensures
        lex_from(s, from) == Ok::<Seq<LexItem>, CompileError>(tokens),
    decreases tokens.len(),
{
    let rest_text = s.subrange(from, s.len() as int);
    if tokens.len() == 0 {
        assert(rest_text.len() == 0);
        assert(tokens =~= Seq::<LexItem>::empty());
    } else {
        let first = tokens[0];
        let rest = tokens.drop_first();
        let word = token_text(first);
        let k = word.len() as int;
        assert(proper(first));
        if let LexItem::Num(n) = first {
            lemma_decimal_digits(n as nat);
        }
        assert(k >= 1);
        assert(rest_text.len() == k + 1 + text_of(rest).len());
        assert forall|i: int| 0 <= i < k implies s[from + i] == word[i] by {
            assert(rest_text[i] == word[i]);
        }
        assert(s[from + k] == ' ') by {
            assert(rest_text[k] == ' ');
        }
        assert(s.subrange(from + k + 1, s.len() as int) =~= text_of(rest)) by {
            assert forall|i: int| 0 <= i < text_of(rest).len() implies s[from + k + 1 + i]
                == text_of(rest)[i] by {
                assert(rest_text[k + 1 + i] == text_of(rest)[i]);
            }
        }
        assert forall|i: int| 0 <= i < rest.len() implies proper(#[trigger] rest[i]) by {
            assert(rest[i] == tokens[i + 1]);
        }
        lemma_lex_text(s, from + k + 1, rest);
        assert(seq![first] + rest =~= tokens);
        assert(lex_from(s, from + k) == lex_from(s, from + k + 1));
        match first {
            LexItem::Num(n) => {
                assert forall|j: int| from <= j < from + k implies is_digit(#[trigger] s[j]) by {
                    assert(s[from + (j - from)] == word[j - from]);
                }
                lemma_digits_end_inside(s, from, from + k);
                assert(digits_end(s, from + k) == from + k);
                assert(s.subrange(from, from + k) =~= word);
                assert(is_digit(s[from]));
                assert(lex_from(s, from) == crate::lexer::prepend(first, lex_from(s, from + k)));
            },
            _ => {
                assert(s[from] == word[0]);
                assert(lex_from(s, from) == crate::lexer::prepend(first, lex_from(s, from + 1)));
            },
        }
    }
}

/// Printing what the text of an expression parses to, and parsing the
/// print, gives the same expression again, and so the same value.
pub proof fn lemma_reparse(text: Seq<char>)
    requires
        parse_spec(text) is Ok,
    ensures
        parse_spec(printed(parse_spec(text)->Ok_0)) == parse_spec(text),
        value(parse_spec(printed(parse_spec(text)->Ok_0))->Ok_0) == value(parse_spec(text)->Ok_0),
{
    let tokens = lex_spec(text)->Ok_0;
    let e = parse_tokens(tokens)->0;
    lemma_parse_tokens_sound(tokens);
    lemma_lex_proper(text, 0);
    let print = printed(e);
    assert(print.subrange(0, print.len() as int) =~= text_of(tokens));
    lemma_lex_text(print, 0, tokens);
}

} // verus!
