//! The lexer: expression text to tokens.
use vstd::prelude::*;
use crate::error::CompileError;
use crate::text::chars_of;

verus! {

/// A token of the expression language.
#[derive(Debug, Clone, Copy, PartialEq, Eq, Structural)]
pub enum LexItem {
    /// `(` or `)`.
    Paren(char),
    /// `+`, `*` or `/`.
    Op(char),
    /// A decimal literal.
    Num(u64),
    /// A parameter: one lowercase letter.
    Arg(char),
}

/// Whether `c` is a decimal digit.
pub open spec fn is_digit(c: char) -> bool {
    '0' <= c <= '9'
}

/// The value of a decimal digit.
pub open spec fn digit_value(c: char) -> nat
    recommends
        is_digit(c),
{
    (c as int - '0' as int) as nat
}

/// Whether `c` names a parameter.
pub open spec fn is_lowercase(c: char) -> bool {
    'a' <= c <= 'z'
}

/// Whether `c` is one of the three operators.
pub open spec fn is_operator(c: char) -> bool {
    c == '+' || c == '*' || c == '/'
}

/// Whether `c` is a parenthesis.
pub open spec fn is_paren(c: char) -> bool {
    c == '(' || c == ')'
}

/// The first index at or after `from` that holds no digit.
pub open spec fn digits_end(s: Seq<char>, from: int) -> int
    decreases s.len() - from,
{
    if 0 <= from < s.len() && is_digit(s[from]) {
        digits_end(s, from + 1)
    } else {
        from
    }
}

/// The number that a string of decimal digits denotes.
pub open spec fn decimal_value(digits: Seq<char>) -> nat
    decreases digits.len(),
{
    if digits.len() == 0 {
        0
    } else {
        decimal_value(digits.drop_last()) * 10 + digit_value(digits.last())
    }
}

/// Puts `token` in front of what the rest of the text lexes to.
pub open spec fn prepend(token: LexItem, rest: Result<Seq<LexItem>, CompileError>) -> Result<
    Seq<LexItem>,
    CompileError,
> {
    match rest {
        Ok(tokens) => Ok(seq![token] + tokens),
        Err(e) => Err(e),
    }
}

/// The tokens of `s` from index `from` on, or the first error met.
///
/// A run of digits is one literal, as long as it is; a literal that does
/// not fit in 64 bits is rejected at its first digit. Spaces separate
/// tokens and are otherwise skipped.
pub open spec fn lex_from(s: Seq<char>, from: int) -> Result<Seq<LexItem>, CompileError>
    decreases s.len() - from,
{
    if from < 0 || from >= s.len() {
        Ok(Seq::empty())
    } else {
        let c = s[from];
        if is_digit(c) {
            let end = digits_end(s, from);
            let value = decimal_value(s.subrange(from, end));
            proof {
                lemma_digits_end_bounds(s, from);
            }
            if value > u64::MAX {
                Err(CompileError::LexError(c))
            } else {
                prepend(LexItem::Num(value as u64), lex_from(s, end))
            }
        } else if is_lowercase(c) {
            prepend(LexItem::Arg(c), lex_from(s, from + 1))
        } else if is_operator(c) {
            prepend(LexItem::Op(c), lex_from(s, from + 1))
        } else if is_paren(c) {
            prepend(LexItem::Paren(c), lex_from(s, from + 1))
        } else if c == ' ' {
            lex_from(s, from + 1)
        } else {
            Err(CompileError::LexError(c))
        }
    }
}

/// The tokens of `s`, or the first error met.
pub open spec fn lex_spec(s: Seq<char>) -> Result<Seq<LexItem>, CompileError> {
    lex_from(s, 0)
}

/// A run of digits ends inside the text, after its first digit, and
/// holds digits only.
pub proof fn lemma_digits_end_bounds(s: Seq<char>, from: int)
    requires
        0 <= from <= s.len(),
    ensures
        from <= digits_end(s, from) <= s.len(),
        from < s.len() && is_digit(s[from]) ==> from < digits_end(s, from),
        forall|i: int| from <= i < digits_end(s, from) ==> is_digit(#[trigger] s[i]),
        digits_end(s, from) < s.len() ==> !is_digit(s[digits_end(s, from)]),
    decreases s.len() - from,
{
    if from < s.len() && is_digit(s[from]) {
        lemma_digits_end_bounds(s, from + 1);
    }
}

/// A run of digits ends at the same place from each of its positions.
pub proof fn lemma_digits_end_inside(s: Seq<char>, from: int, i: int)
    requires
        0 <= from <= i <= s.len(),
        forall|j: int| from <= j < i ==> is_digit(#[trigger] s[j]),
    ensures
        digits_end(s, from) == digits_end(s, i),
    decreases i - from,
{
    if from < i {
        lemma_digits_end_inside(s, from + 1, i);
    }
}

/// Appending a digit multiplies the value by ten and adds the digit.
pub proof fn lemma_decimal_value_step(s: Seq<char>, from: int, i: int)
    requires
        0 <= from <= i < s.len(),
    ensures
        decimal_value(s.subrange(from, i + 1)) == decimal_value(s.subrange(from, i)) * 10
            + digit_value(s[i]),
{
    assert(s.subrange(from, i + 1).drop_last() =~= s.subrange(from, i));
}

/// A longer digit string denotes no smaller a number than its prefix.
pub proof fn lemma_decimal_value_monotonic(s: Seq<char>, from: int, i: int, j: int)
    requires
        0 <= from <= i <= j <= s.len(),
    ensures
        decimal_value(s.subrange(from, i)) <= decimal_value(s.subrange(from, j)),
    decreases j - i,
{
    if i < j {
        lemma_decimal_value_monotonic(s, from, i, j - 1);
        lemma_decimal_value_step(s, from, j - 1);
    }
}

/// Reads the decimal literal that starts at `start`: its value and the
/// index after its last digit, or `None` where it does not fit in 64 bits.
pub fn get_number(input: &Vec<char>, start: usize) -> (r: Option<(u64, usize)>)
    requires
        start < input.len(),
        is_digit(input[start as int]),
    ensures
        ({
            let end = digits_end(input@, start as int);
            let value = decimal_value(input@.subrange(start as int, end));
            if value <= u64::MAX {
                r == Some((value as u64, end as usize))
            } else {
                r is None
            }
        }),
{
    let ghost s = input@;
    let ghost end = digits_end(s, start as int);
    proof {
        lemma_digits_end_bounds(s, start as int);
    }
    let mut number: u64 = 0;
    let mut i: usize = start;
    while i < input.len() && input[i] >= '0' && input[i] <= '9'
        invariant
            s == input@,
            start <= i <= end <= s.len(),
            end == digits_end(s, start as int),
            end == digits_end(s, i as int),
            forall|j: int| start <= j < i ==> is_digit(#[trigger] s[j]),
            number == decimal_value(s.subrange(start as int, i as int)),
        decreases s.len() - i,
    {
        let digit: u64 = (input[i] as u64) - ('0' as u64);
        proof {
            lemma_digits_end_bounds(s, i as int);
            lemma_decimal_value_step(s, start as int, i as int);
            lemma_decimal_value_monotonic(s, start as int, i + 1, end);
            lemma_digits_end_inside(s, start as int, i + 1);
        }
        if number > (u64::MAX - digit) / 10 {
            return None;
        }
        number = number * 10 + digit;
        i += 1;
    }
    Some((number, i))
}

/// Splits `input` into tokens.
///
/// Fails with `LexError` at the first character that starts no token, and
/// at the first digit of a literal that does not fit in 64 bits.
pub fn lex_chars(input: &Vec<char>) -> (r: Result<Vec<LexItem>, CompileError>)
    ensures
        match lex_spec(input@) {
            Ok(tokens) => r matches Ok(v) && v@ == tokens,
            Err(e) => r == Err::<Vec<LexItem>, CompileError>(e),
        },
{
    let ghost s = input@;
    let mut result: Vec<LexItem> = Vec::new();
    let mut i: usize = 0;
    while i < input.len()
        invariant
            s == input@,
            i <= s.len(),
            lex_spec(s) == match lex_from(s, i as int) {
                Ok(rest) => Ok(result@ + rest),
                Err(e) => Err(e),
            },
        decreases s.len() - i,
    {
        let c = input[i];
        let ghost before = result@;
        if c >= '0' && c <= '9' {
            match get_number(input, i) {
                Some((n, end)) => {
                    proof {
                        lemma_digits_end_bounds(s, i as int);
                    }
                    result.push(LexItem::Num(n));
                    i = end;
                },
                None => {
                    return Err(CompileError::LexError(c));
                },
            }
        } else if c >= 'a' && c <= 'z' {
            result.push(LexItem::Arg(c));
            i += 1;
        } else if c == '+' || c == '*' || c == '/' {
            result.push(LexItem::Op(c));
            i += 1;
        } else if c == '(' || c == ')' {
            result.push(LexItem::Paren(c));
            i += 1;
        } else if c == ' ' {
            i += 1;
        } else {
            return Err(CompileError::LexError(c));
        }
        proof {
            match lex_from(s, i as int) {
                Ok(rest) => {
                    if c != ' ' {
                        assert(before + (seq![result@.last()] + rest) =~= result@ + rest);
                    }
                },
                Err(_) => {},
            }
        }
    }
    proof {
        assert(result@ + Seq::<LexItem>::empty() =~= result@);
    }
    Ok(result)
}

/// Splits a string into tokens; see [`lex_chars`].
pub fn lex(input: &String) -> (r: Result<Vec<LexItem>, CompileError>)
    ensures
        match lex_spec(input@) {
            Ok(tokens) => r matches Ok(v) && v@ == tokens,
            Err(e) => r == Err::<Vec<LexItem>, CompileError>(e),
        },
{
    let chars = chars_of(input.as_str());
    lex_chars(&chars)
}

} // verus!
