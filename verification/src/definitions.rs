//! The definition extractor: the input text to equations.
//!
//! The input is a list of definitions separated by `;`, each of the form
//! `name(a,b,...)=expression`.
use vstd::prelude::*;
use crate::codegen::addressable;
use crate::error::CompileError;
use crate::lexer::is_lowercase;
use crate::parser::{parse_chars, parse_spec, Expr, GrammarItem, ParseNode};
use crate::text::{
    chars_of, find, lemma_position_contains, lemma_position_from, position, slice, split, split_on, trim,
    trimmed, views,
};

verus! {

/// What an equation says: the function's name, its parameters in
/// stack-slot order, and its body.
pub struct Definition {
    pub name: Seq<char>,
    pub params: Seq<char>,
    pub body: Expr,
}

/// A function definition that has been parsed and checked.
#[derive(Debug, PartialEq, Eq)]
pub struct Equation {
    function_name: Vec<char>,
    tree: ParseNode,
    arguments: Vec<char>,
}

/// Whether `c` may stand in a function's name: an ASCII letter, a digit or
/// an underscore.
pub open spec fn is_identifier_char(c: char) -> bool {
    'a' <= c <= 'z' || 'A' <= c <= 'Z' || '0' <= c <= '9' || c == '_'
}

/// Whether `name` is a function's name: not empty, and made of identifier
/// characters.
pub open spec fn is_identifier(name: Seq<char>) -> bool {
    name.len() > 0 && forall|i: int| 0 <= i < name.len() ==> is_identifier_char(#[trigger] name[i])
}

/// The parameter that one piece of the parameter list names: the first
/// character of the trimmed piece, a lowercase letter.
pub open spec fn parameter_of(piece: Seq<char>) -> Option<char> {
    let t = trimmed(piece);
    if t.len() > 0 && is_lowercase(t[0]) {
        Some(t[0])
    } else {
        None
    }
}

/// The parameters that the pieces of a parameter list name, in order;
/// none where a piece names no parameter or repeats an earlier one.
pub open spec fn parameters_of(pieces: Seq<Seq<char>>) -> Option<Seq<char>>
    decreases pieces.len(),
{
    if pieces.len() == 0 {
        Some(Seq::empty())
    } else {
        match (parameters_of(pieces.drop_last()), parameter_of(pieces.last())) {
            (Some(earlier), Some(p)) => if earlier.contains(p) {
                None
            } else {
                Some(earlier.push(p))
            },
            _ => None,
        }
    }
}

/// Whether every parameter that `e` names is one of `params`.
pub open spec fn closed(e: Expr, params: Seq<char>) -> bool
    decreases e,
{
    match e {
        Expr::Number(_) => true,
        Expr::Arg(c) => params.contains(c),
        Expr::Paren(inner) => closed(*inner, params),
        Expr::Sum(l, r) => closed(*l, params) && closed(*r, params),
        Expr::Product(l, r) => closed(*l, params) && closed(*r, params),
        Expr::Div(l, r) => closed(*l, params) && closed(*r, params),
    }
}

/// What holds of every equation: the name is an identifier, the
/// parameters are lowercase letters, at least one and each once, and the
/// body names no other.
pub open spec fn valid_definition(d: Definition) -> bool {
    &&& is_identifier(d.name)
    &&& d.params.len() > 0
    &&& d.params.no_duplicates()
    &&& forall|i: int| 0 <= i < d.params.len() ==> is_lowercase(#[trigger] d.params[i])
    &&& closed(d.body, d.params)
}

/// The equation that one trimmed, non-empty definition stands for.
///
/// The head is what stands before the first `=`, the expression what
/// stands after it. In the head, the name is what stands before the first
/// `(`, and the parameter list what stands between it and the first `)`.
/// A definition without one of the three, with `)` before `(`, with a
/// name that is no identifier, or with a parameter list that names no
/// parameter or one twice is a `ParseError`; so is a body that names a
/// parameter that the list lacks. An expression that does not lex or
/// parse fails as the parser says.
pub open spec fn definition_of(text: Seq<char>) -> Result<Definition, CompileError> {
    let eq = position(text, '=');
    let head = text.subrange(0, eq);
    let open = position(head, '(');
    let close = position(head, ')');
    if eq >= text.len() || open >= head.len() || close >= head.len() || close < open {
        Err(CompileError::ParseError)
    } else if !is_identifier(head.subrange(0, open)) {
        Err(CompileError::ParseError)
    } else {
        match parameters_of(split_on(head.subrange(open + 1, close), ',')) {
            None => Err(CompileError::ParseError),
            Some(params) => match parse_spec(text.subrange(eq + 1, text.len() as int)) {
                Err(e) => Err(e),
                Ok(body) => if closed(body, params) {
                    Ok(Definition { name: head.subrange(0, open), params, body })
                } else {
                    Err(CompileError::ParseError)
                },
            },
        }
    }
}

/// The equations of the pieces from index `from` on, or the error of the
/// first piece that fails. A piece that is empty once trimmed is skipped.
pub open spec fn definitions_from(pieces: Seq<Seq<char>>, from: int) -> Result<
    Seq<Definition>,
    CompileError,
>
    decreases pieces.len() - from,
{
    if from < 0 || from >= pieces.len() {
        Ok(Seq::empty())
    } else {
        let text = trimmed(pieces[from]);
        if text.len() == 0 {
            definitions_from(pieces, from + 1)
        } else {
            match definition_of(text) {
                Err(e) => Err(e),
                Ok(d) => match definitions_from(pieces, from + 1) {
                    Ok(rest) => Ok(seq![d] + rest),
                    Err(e) => Err(e),
                },
            }
        }
    }
}

/// The equations that the input defines, or the error of the first
/// definition that fails.
pub open spec fn parse_definitions(input: Seq<char>) -> Result<Seq<Definition>, CompileError> {
    definitions_from(split_on(input, ';'), 0)
}

/// What each equation of a list says.
pub open spec fn models(equations: Seq<Equation>) -> Seq<Definition> {
    Seq::new(equations.len(), |i: int| equations[i]@)
}

impl View for Equation {
    type V = Definition;

    closed spec fn view(&self) -> Definition {
        Definition {
            name: self.function_name@,
            params: self.arguments@,
            body: self.tree.expr()->0,
        }
    }
}

impl Equation {
    #[verifier::type_invariant]
    spec fn checked(self) -> bool {
        self.tree.expr() is Some && valid_definition(self@)
    }

    /// The function's name.
    pub fn function_name(&self) -> (r: &Vec<char>)
        ensures
            r@ == self@.name,
            valid_definition(self@),
    {
        proof {
            use_type_invariant(self);
        }
        &self.function_name
    }

    /// The body's tree.
    pub fn tree(&self) -> (r: &ParseNode)
        ensures
            r.expr() == Some(self@.body),
            valid_definition(self@),
    {
        proof {
            use_type_invariant(self);
        }
        &self.tree
    }

    /// The parameters, in stack-slot order.
    pub fn arguments(&self) -> (r: &Vec<char>)
        ensures
            r@ == self@.params,
            valid_definition(self@),
    {
        proof {
            use_type_invariant(self);
        }
        &self.arguments
    }
}

/// A parameter list that names parameters names one for each piece,
/// lowercase letters, each once.
pub proof fn lemma_parameters_of(pieces: Seq<Seq<char>>)
    ensures
        parameters_of(pieces) matches Some(params) ==> {
            &&& params.len() == pieces.len()
            &&& params.no_duplicates()
            &&& forall|i: int| 0 <= i < params.len() ==> is_lowercase(#[trigger] params[i])
        },
    decreases pieces.len(),
{
    if pieces.len() > 0 {
        lemma_parameters_of(pieces.drop_last());
    }
}

/// Distinct integers from `0` up to `n` are at most `n`.
proof fn lemma_distinct_bounded(s: Seq<int>, n: int)
    requires
        0 <= n,
        s.no_duplicates(),
        forall|i: int| 0 <= i < s.len() ==> 0 <= #[trigger] s[i] < n,
    ensures
        s.len() <= n,
    decreases n,
{
    if s.len() > 0 {
        if n == 0 {
            assert(0 <= s[0] < n);
        } else if exists|i: int| 0 <= i < s.len() && s[i] == n - 1 {
            let i = choose|i: int| 0 <= i < s.len() && s[i] == n - 1;
            let t = s.remove(i);
            assert forall|j: int| 0 <= j < t.len() implies 0 <= #[trigger] t[j] < n - 1 by {
                if j < i {
                    assert(t[j] == s[j]);
                } else {
                    assert(t[j] == s[j + 1]);
                }
            }
            assert(t.no_duplicates()) by {
                assert forall|a: int, b: int| 0 <= a < t.len() && 0 <= b < t.len() && a != b implies t[a]
                    != t[b] by {
                    let a2 = if a < i { a } else { a + 1 };
                    let b2 = if b < i { b } else { b + 1 };
                    assert(t[a] == s[a2] && t[b] == s[b2]);
                }
            }
            lemma_distinct_bounded(t, n - 1);
        } else {
            lemma_distinct_bounded(s, n - 1);
        }
    }
}

/// There are no more than 26 distinct lowercase letters.
pub proof fn lemma_parameter_count(params: Seq<char>)
    requires
        params.no_duplicates(),
        forall|i: int| 0 <= i < params.len() ==> is_lowercase(#[trigger] params[i]),
    ensures
        params.len() <= 26,
{
    let s = Seq::new(params.len(), |i: int| params[i] as int - 'a' as int);
    assert forall|i: int| 0 <= i < s.len() implies 0 <= #[trigger] s[i] < 26 by {
        assert(is_lowercase(params[i]));
    }
    assert forall|a: int, b: int| 0 <= a < s.len() && 0 <= b < s.len() && a != b implies s[a]
        != s[b] by {
        assert(params[a] != params[b]);
    }
    lemma_distinct_bounded(s, 26);
}

/// The body of a valid definition finds each of its parameters at a
/// displacement that fits in a byte.
pub proof fn lemma_closed_is_addressable(e: Expr, params: Seq<char>)
    requires
        closed(e, params),
        params.len() <= 26,
    ensures
        addressable(e, params),
    decreases e,
{
    match e {
        Expr::Number(_) => {},
        Expr::Arg(c) => {
            lemma_position_contains(params, c);
        },
        Expr::Paren(inner) => {
            lemma_closed_is_addressable(*inner, params);
        },
        Expr::Sum(l, r) => {
            lemma_closed_is_addressable(*l, params);
            lemma_closed_is_addressable(*r, params);
        },
        Expr::Product(l, r) => {
            lemma_closed_is_addressable(*l, params);
            lemma_closed_is_addressable(*r, params);
        },
        Expr::Div(l, r) => {
            lemma_closed_is_addressable(*l, params);
            lemma_closed_is_addressable(*r, params);
        },
    }
}

/// The body of a valid definition can be compiled.
pub proof fn lemma_valid_is_addressable(d: Definition)
    requires
        valid_definition(d),
    ensures
        addressable(d.body, d.params),
{
    lemma_parameter_count(d.params);
    lemma_closed_is_addressable(d.body, d.params);
}

/// Whether `name` is an identifier.
fn check_identifier(name: &Vec<char>) -> (r: bool)
    ensures
        r == is_identifier(name@),
{
    if name.len() == 0 {
        return false;
    }
    let mut i: usize = 0;
    while i < name.len()
        invariant
            i <= name@.len(),
            forall|j: int| 0 <= j < i ==> is_identifier_char(#[trigger] name@[j]),
        decreases name@.len() - i,
    {
        let c = name[i];
        let ok = (c >= 'a' && c <= 'z') || (c >= 'A' && c <= 'Z') || (c >= '0' && c <= '9') || c
            == '_';
        if !ok {
            return false;
        }
        i += 1;
    }
    true
}

/// Reads the parameters off the pieces of a parameter list.
fn parse_parameters(pieces: &Vec<Vec<char>>) -> (r: Option<Vec<char>>)
    ensures
        match parameters_of(views(pieces@)) {
            Some(params) => r matches Some(v) && v@ == params,
            None => r is None,
        },
{
    let ghost all = views(pieces@);
    let mut params: Vec<char> = Vec::new();
    let mut i: usize = 0;
    while i < pieces.len()
        invariant
            i <= pieces@.len(),
            all == views(pieces@),
            parameters_of(all.take(i as int)) == Some(params@),
        decreases pieces@.len() - i,
    {
        proof {
            assert(all.take(i + 1).drop_last() =~= all.take(i as int));
            assert(all.take(i + 1).last() == pieces@[i as int]@);
            lemma_parameters_of_prefix(all, i + 1);
        }
        let piece = trim(&pieces[i]);
        if piece.len() == 0 {
            return None;
        }
        let p = piece[0];
        if !(p >= 'a' && p <= 'z') {
            return None;
        }
        proof {
            lemma_position_contains(params@, p);
        }
        if find(&params, p) < params.len() {
            return None;
        }
        params.push(p);
        i += 1;
    }
    proof {
        assert(all.take(i as int) =~= all);
    }
    Some(params)
}

/// A parameter list that names parameters does so in each of its prefixes.
pub proof fn lemma_parameters_of_prefix(pieces: Seq<Seq<char>>, k: int)
    requires
        0 <= k <= pieces.len(),
    ensures
        parameters_of(pieces.take(k)) is None ==> parameters_of(pieces) is None,
    decreases pieces.len() - k,
{
    if k < pieces.len() {
        assert(pieces.take(k + 1).drop_last() =~= pieces.take(k));
        lemma_parameters_of_prefix(pieces, k + 1);
    } else {
        assert(pieces.take(k) =~= pieces);
    }
}

/// Whether every parameter that `tree` names is one of `params`.
fn check_closed(tree: &ParseNode, params: &Vec<char>) -> (r: bool)
    requires
        tree.expr() is Some,
    ensures
        r == closed(tree.expr()->0, params@),
    decreases tree,
{
    match tree.entry {
        GrammarItem::Number(_) => true,
        GrammarItem::Arg(c) => {
            proof {
                lemma_position_contains(params@, c);
            }
            find(params, c) < params.len()
        },
        GrammarItem::Paren => check_closed(&tree.children[0], params),
        _ => check_closed(&tree.children[0], params) && check_closed(&tree.children[1], params),
    }
}

/// Reads one trimmed, non-empty definition.
pub fn extract_definition(text: &Vec<char>) -> (r: Result<Equation, CompileError>)
    ensures
        match definition_of(text@) {
            Ok(d) => r matches Ok(equation) && equation@ == d,
            Err(e) => r == Err::<Equation, CompileError>(e),
        },
{
    let eq = find(text, '=');
    if eq >= text.len() {
        return Err(CompileError::ParseError);
    }
    let head = slice(text, 0, eq);
    let open = find(&head, '(');
    let close = find(&head, ')');
    if open >= head.len() || close >= head.len() || close < open {
        return Err(CompileError::ParseError);
    }
    proof {
        lemma_position_from(head@, '(', 0);
        lemma_position_from(head@, ')', 0);
    }
    let function_name = slice(&head, 0, open);
    if !check_identifier(&function_name) {
        return Err(CompileError::ParseError);
    }
    let list = slice(&head, open + 1, close);
    let pieces = split(&list, ',');
    let arguments = match parse_parameters(&pieces) {
        Some(found) => found,
        None => {
            return Err(CompileError::ParseError);
        },
    };
    let body = slice(text, eq + 1, text.len());
    let tree = match parse_chars(&body) {
        Ok(found) => found,
        Err(e) => {
            return Err(e);
        },
    };
    if !check_closed(&tree, &arguments) {
        return Err(CompileError::ParseError);
    }
    proof {
        lemma_parameters_of(views(pieces@));
    }
    Ok(Equation { function_name, tree, arguments })
}

/// Reads the definitions of `input`: split at `;`, each piece trimmed,
/// empty pieces skipped.
///
/// Fails with the error of the first definition, from the left, that is
/// not well-formed.
pub fn parse_input_formula(input: &String) -> (r: Result<Vec<Equation>, CompileError>)
    ensures
        match parse_definitions(input@) {
            Ok(definitions) => r matches Ok(equations) && models(equations@) == definitions,
            Err(e) => r == Err::<Vec<Equation>, CompileError>(e),
        },
{
    let chars = chars_of(input.as_str());
    let pieces = split(&chars, ';');
    let ghost all = views(pieces@);
    let mut equations: Vec<Equation> = Vec::new();
    let mut i: usize = 0;
    while i < pieces.len()
        invariant
            i <= pieces@.len(),
            all == views(pieces@),
            all == split_on(input@, ';'),
            parse_definitions(input@) == match definitions_from(all, i as int) {
                Ok(rest) => Ok(models(equations@) + rest),
                Err(e) => Err(e),
            },
        decreases pieces@.len() - i,
    {
        let text = trim(&pieces[i]);
        if text.len() != 0 {
            match extract_definition(&text) {
                Ok(equation) => {
                    let ghost before = equations@;
                    equations.push(equation);
                    proof {
                        match definitions_from(all, i + 1) {
                            Ok(rest) => {
                                assert(models(before) + (seq![equation@] + rest) =~= models(
                                    equations@,
                                ) + rest);
                            },
                            Err(_) => {},
                        }
                    }
                },
                Err(e) => {
                    return Err(e);
                },
            }
        }
        i += 1;
    }
    proof {
        assert(models(equations@) + Seq::<Definition>::empty() =~= models(equations@));
    }
    Ok(equations)
}

} // verus!
