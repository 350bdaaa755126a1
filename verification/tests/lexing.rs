use minicomp::lexer::lex_chars;
use minicomp::{get_number, lex, CompileError, LexItem};

fn lexing_chars(text: &str) -> Vec<char> {
    text.chars().collect()
}

#[test]
fn lex_recognises_every_token_kind() {
    let tokens = lex(&String::from("(a+12)*b/3")).unwrap();
    assert_eq!(
        tokens,
        vec![
            LexItem::Paren('('),
            LexItem::Arg('a'),
            LexItem::Op('+'),
            LexItem::Num(12),
            LexItem::Paren(')'),
            LexItem::Op('*'),
            LexItem::Arg('b'),
            LexItem::Op('/'),
            LexItem::Num(3),
        ]
    );
}

#[test]
fn lex_of_empty_text_is_empty() {
    assert_eq!(lex(&String::new()), Ok(vec![]));
    assert_eq!(lex(&String::from("    ")), Ok(vec![]));
}

#[test]
fn lex_skips_spaces() {
    assert_eq!(
        lex(&String::from("  x +  y ")),
        Ok(vec![LexItem::Arg('x'), LexItem::Op('+'), LexItem::Arg('y')])
    );
}

#[test]
fn lex_space_separates_literals() {
    assert_eq!(lex(&String::from("1 2")), Ok(vec![LexItem::Num(1), LexItem::Num(2)]));
    assert_eq!(lex(&String::from("12")), Ok(vec![LexItem::Num(12)]));
}

#[test]
fn lex_adjacent_letters_are_separate_parameters() {
    assert_eq!(lex(&String::from("xy")), Ok(vec![LexItem::Arg('x'), LexItem::Arg('y')]));
}

#[test]
fn lex_rejects_unexpected_character() {
    assert_eq!(lex(&String::from("a-b")), Err(CompileError::LexError('-')));
    assert_eq!(lex(&String::from("a+B")), Err(CompileError::LexError('B')));
    assert_eq!(lex(&String::from("a\t+b")), Err(CompileError::LexError('\t')));
    assert_eq!(lex(&String::from("x=1")), Err(CompileError::LexError('=')));
}

#[test]
fn lex_reports_the_first_unexpected_character() {
    assert_eq!(lex(&String::from("1 ? 2 !")), Err(CompileError::LexError('?')));
}

#[test]
fn lex_reads_the_largest_literal() {
    assert_eq!(
        lex(&String::from("18446744073709551615")),
        Ok(vec![LexItem::Num(u64::MAX)])
    );
    assert_eq!(lex(&String::from("0007")), Ok(vec![LexItem::Num(7)]));
}

#[test]
fn lex_rejects_a_literal_beyond_64_bits_at_its_first_digit() {
    assert_eq!(
        lex(&String::from("18446744073709551616")),
        Err(CompileError::LexError('1'))
    );
    assert_eq!(
        lex(&String::from("a+99999999999999999999999")),
        Err(CompileError::LexError('9'))
    );
}

#[test]
fn get_number_reads_one_digit_run() {
    let text = lexing_chars("x+1234*y");
    assert_eq!(get_number(&text, 2), Some((1234, 6)));
    assert_eq!(get_number(&text, 4), Some((34, 6)));
    let tail = lexing_chars("42");
    assert_eq!(get_number(&tail, 0), Some((42, 2)));
}

#[test]
fn get_number_gives_none_on_overflow() {
    let text = lexing_chars("18446744073709551616+1");
    assert_eq!(get_number(&text, 0), None);
    assert_eq!(get_number(&text, 1), Some((8446744073709551616, 20)));
}

#[test]
fn lex_chars_agrees_with_lex() {
    let text = "(x + 2) * y / 10";
    assert_eq!(lex_chars(&lexing_chars(text)), lex(&String::from(text)));
}
