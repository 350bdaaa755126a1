//! The parser: tokens to expression trees.
//!
//! ```text
//! expr     := summand ('+' expr)?
//! summand  := term ('*' summand | '/' expr)?
//! term     := Number | Arg | '(' expr ')'
//! ```
//!
//! `+` and `*` associate to the right, and the right operand of `/` is a
//! whole `expr`: `a/b+c` is `a/(b+c)`.
use vstd::prelude::*;
use crate::error::CompileError;
use crate::lexer::{lex_chars, lex_spec, LexItem};
use crate::text::chars_of;

verus! {

/// What a node of the tree is.
#[derive(Debug, Clone, Copy, PartialEq, Eq, Structural)]
pub enum GrammarItem {
    Product,
    Sum,
    Div,
    Number(u64),
    Paren,
    Arg(char),
}

/// A node of the tree with its children, left to right.
#[derive(Debug, PartialEq, Eq)]
pub struct ParseNode {
    pub children: Vec<ParseNode>,
    pub entry: GrammarItem,
}

/// An expression: what a tree denotes whose nodes all have the children
/// that their tags ask for.
pub enum Expr {
    Number(u64),
    Arg(char),
    Paren(Box<Expr>),
    Sum(Box<Expr>, Box<Expr>),
    Product(Box<Expr>, Box<Expr>),
    Div(Box<Expr>, Box<Expr>),
}

impl ParseNode {
    /// The expression that the tree denotes: `Number` and `Arg` are
    /// leaves, `Paren` has one child, the operators have two. A tree with
    /// a node of another shape denotes nothing.
    pub open spec fn expr(self) -> Option<Expr>
        decreases self,
    {
        match self.entry {
            GrammarItem::Number(n) => if self.children.len() == 0 {
                Some(Expr::Number(n))
            } else {
                None
            },
            GrammarItem::Arg(c) => if self.children.len() == 0 {
                Some(Expr::Arg(c))
            } else {
                None
            },
            GrammarItem::Paren => if self.children.len() == 1 {
                match self.children[0].expr() {
                    Some(inner) => Some(Expr::Paren(Box::new(inner))),
                    None => None,
                }
            } else {
                None
            },
            GrammarItem::Sum => if self.children.len() == 2 {
                match (self.children[0].expr(), self.children[1].expr()) {
                    (Some(l), Some(r)) => Some(Expr::Sum(Box::new(l), Box::new(r))),
                    _ => None,
                }
            } else {
                None
            },
            GrammarItem::Product => if self.children.len() == 2 {
                match (self.children[0].expr(), self.children[1].expr()) {
                    (Some(l), Some(r)) => Some(Expr::Product(Box::new(l), Box::new(r))),
                    _ => None,
                }
            } else {
                None
            },
            GrammarItem::Div => if self.children.len() == 2 {
                match (self.children[0].expr(), self.children[1].expr()) {
                    (Some(l), Some(r)) => Some(Expr::Div(Box::new(l), Box::new(r))),
                    _ => None,
                }
            } else {
                None
            },
        }
    }

    /// Whether every node has the children that its tag asks for.
    pub open spec fn well_formed(self) -> bool {
        self.expr() is Some
    }

    /// A `Paren` node without children, to be filled in.
    pub fn new() -> (r: ParseNode)
        ensures
            r.children@.len() == 0,
            r.entry == GrammarItem::Paren,
    {
        ParseNode { children: Vec::new(), entry: GrammarItem::Paren }
    }
}

impl Clone for ParseNode {
    fn clone(&self) -> (r: ParseNode)
        ensures
            r.entry == self.entry,
            r.children@.len() == self.children@.len(),
            r.expr() == self.expr(),
        decreases self,
    {
        let mut children: Vec<ParseNode> = Vec::new();
        let mut i: usize = 0;
        while i < self.children.len()
            invariant
                i <= self.children@.len(),
                children@.len() == i,
                forall|j: int| 0 <= j < i ==> (#[trigger] children@[j]).expr() == self.children@[j].expr(),
            decreases self.children@.len() - i,
        {
            let child = self.children[i].clone();
            children.push(child);
            i += 1;
        }
        ParseNode { children, entry: self.entry }
    }
}

/// The term that starts at `pos`, and the index after it.
pub open spec fn parse_term_spec(tokens: Seq<LexItem>, pos: int) -> Option<(Expr, int)>
    decreases tokens.len() - pos, 0int,
{
    if pos < 0 || pos >= tokens.len() {
        None
    } else {
        match tokens[pos] {
            LexItem::Num(n) => Some((Expr::Number(n), pos + 1)),
            LexItem::Arg(c) => Some((Expr::Arg(c), pos + 1)),
            LexItem::Paren(c) => if c == '(' {
                match parse_expr_spec(tokens, pos + 1) {
                    Some((inner, next)) => if 0 <= next < tokens.len() && tokens[next]
                        == LexItem::Paren(')') {
                        Some((Expr::Paren(Box::new(inner)), next + 1))
                    } else {
                        None
                    },
                    None => None,
                }
            } else {
                None
            },
            LexItem::Op(_) => None,
        }
    }
}

/// The summand that starts at `pos`, as long as it can be, and the index
/// after it.
pub open spec fn parse_summand_spec(tokens: Seq<LexItem>, pos: int) -> Option<(Expr, int)>
    decreases tokens.len() - pos, 1int,
{
    match parse_term_spec(tokens, pos) {
        None => None,
        Some((left, next)) => if pos < next < tokens.len() && tokens[next] == LexItem::Op('*') {
            match parse_summand_spec(tokens, next + 1) {
                Some((right, end)) => Some((Expr::Product(Box::new(left), Box::new(right)), end)),
                None => None,
            }
        } else if pos < next < tokens.len() && tokens[next] == LexItem::Op('/') {
            match parse_expr_spec(tokens, next + 1) {
                Some((right, end)) => Some((Expr::Div(Box::new(left), Box::new(right)), end)),
                None => None,
            }
        } else {
            Some((left, next))
        },
    }
}

/// The expression that starts at `pos`, as long as it can be, and the
/// index after it.
pub open spec fn parse_expr_spec(tokens: Seq<LexItem>, pos: int) -> Option<(Expr, int)>
    decreases tokens.len() - pos, 2int,
{
    match parse_summand_spec(tokens, pos) {
        None => None,
        Some((left, next)) => if pos < next < tokens.len() && tokens[next] == LexItem::Op('+') {
            match parse_expr_spec(tokens, next + 1) {
                Some((right, end)) => Some((Expr::Sum(Box::new(left), Box::new(right)), end)),
                None => None,
            }
        } else {
            Some((left, next))
        },
    }
}

/// The expression that the tokens form, all of them.
pub open spec fn parse_tokens(tokens: Seq<LexItem>) -> Option<Expr> {
    match parse_expr_spec(tokens, 0) {
        Some((e, end)) => if end == tokens.len() {
            Some(e)
        } else {
            None
        },
        None => None,
    }
}

/// The expression that the text denotes, or why it denotes none.
pub open spec fn parse_spec(text: Seq<char>) -> Result<Expr, CompileError> {
    match lex_spec(text) {
        Err(e) => Err(e),
        Ok(tokens) => match parse_tokens(tokens) {
            Some(e) => Ok(e),
            None => Err(CompileError::ParseError),
        },
    }
}

/// A term that parses ends after where it starts, inside the tokens.
pub proof fn lemma_term_advances(tokens: Seq<LexItem>, pos: int)
    ensures
        parse_term_spec(tokens, pos) matches Some((_, end)) ==> 0 <= pos < end <= tokens.len(),
    decreases tokens.len() - pos, 0int,
{
    if 0 <= pos < tokens.len() {
        if tokens[pos] == LexItem::Paren('(') {
            lemma_expr_advances(tokens, pos + 1);
        }
    }
}

/// A summand that parses ends after where it starts, inside the tokens.
pub proof fn lemma_summand_advances(tokens: Seq<LexItem>, pos: int)
    ensures
        parse_summand_spec(tokens, pos) matches Some((_, end)) ==> 0 <= pos < end <= tokens.len(),
    decreases tokens.len() - pos, 1int,
{
    lemma_term_advances(tokens, pos);
    if let Some((_, next)) = parse_term_spec(tokens, pos) {
        if next < tokens.len() {
            if tokens[next] == LexItem::Op('*') {
                lemma_summand_advances(tokens, next + 1);
            } else if tokens[next] == LexItem::Op('/') {
                lemma_expr_advances(tokens, next + 1);
            }
        }
    }
}

/// An expression that parses ends after where it starts, inside the
/// tokens.
pub proof fn lemma_expr_advances(tokens: Seq<LexItem>, pos: int)
    ensures
        parse_expr_spec(tokens, pos) matches Some((_, end)) ==> 0 <= pos < end <= tokens.len(),
    decreases tokens.len() - pos, 2int,
{
    lemma_summand_advances(tokens, pos);
    if let Some((_, next)) = parse_summand_spec(tokens, pos) {
        if next < tokens.len() && tokens[next] == LexItem::Op('+') {
            lemma_expr_advances(tokens, next + 1);
        }
    }
}

/// The parenthesis that closes or opens what `c` opens or closes.
pub fn matching(c: char) -> (r: char)
    requires
        c == '(' || c == ')',
    ensures
        r == (if c == '(' {
            ')'
        } else {
            '('
        }),
{
    if c == ')' {
        '('
    } else {
        ')'
    }
}

/// A node with the given tag over one child.
fn unary(entry: GrammarItem, child: ParseNode) -> (r: ParseNode)
    ensures
        r.entry == entry,
        r.children@ == seq![child],
{
    let mut node = ParseNode::new();
    node.entry = entry;
    node.children.push(child);
    node
}

/// A node with the given tag over two children.
fn binary(entry: GrammarItem, left: ParseNode, right: ParseNode) -> (r: ParseNode)
    ensures
        r.entry == entry,
        r.children@ == seq![left, right],
{
    let mut node = ParseNode::new();
    node.entry = entry;
    node.children.push(left);
    node.children.push(right);
    node
}

/// Whether the token at `pos` is the operator `op`.
fn is_op_at(tokens: &Vec<LexItem>, pos: usize, op: char) -> (r: bool)
    ensures
        r == (pos < tokens.len() && tokens@[pos as int] == LexItem::Op(op)),
{
    if pos < tokens.len() {
        match tokens[pos] {
            LexItem::Op(c) => c == op,
            _ => false,
        }
    } else {
        false
    }
}

/// Parses the term that starts at `pos`: a number, a parameter, or an
/// expression in parentheses.
pub fn parse_term(tokens: &Vec<LexItem>, pos: usize) -> (r: Result<(ParseNode, usize), CompileError>)
    ensures
        match parse_term_spec(tokens@, pos as int) {
            Some((e, end)) => r matches Ok((node, next)) && node.expr() == Some(e) && next == end,
            None => r == Err::<(ParseNode, usize), CompileError>(CompileError::ParseError),
        },
    decreases tokens@.len() - pos, 0int,
{
    if pos >= tokens.len() {
        return Err(CompileError::ParseError);
    }
    match tokens[pos] {
        LexItem::Num(n) => {
            let mut node = ParseNode::new();
            node.entry = GrammarItem::Number(n);
            Ok((node, pos + 1))
        },
        LexItem::Arg(c) => {
            let mut node = ParseNode::new();
            node.entry = GrammarItem::Arg(c);
            Ok((node, pos + 1))
        },
        LexItem::Paren(c) => {
            if c != '(' {
                return Err(CompileError::ParseError);
            }
            proof {
                lemma_expr_advances(tokens@, pos + 1);
            }
            match parse_expr(tokens, pos + 1) {
                Ok((node, next_pos)) => {
                    if next_pos < tokens.len() {
                        match tokens[next_pos] {
                            LexItem::Paren(c2) => {
                                if c2 == matching(c) {
                                    Ok((unary(GrammarItem::Paren, node), next_pos + 1))
                                } else {
                                    Err(CompileError::ParseError)
                                }
                            },
                            _ => Err(CompileError::ParseError),
                        }
                    } else {
                        Err(CompileError::ParseError)
                    }
                },
                Err(e) => Err(e),
            }
        },
        LexItem::Op(_) => Err(CompileError::ParseError),
    }
}

/// Parses the summand that starts at `pos`: a term, then `*` and a
/// summand, or `/` and an expression, where one follows.
pub fn parse_summand(tokens: &Vec<LexItem>, pos: usize) -> (r: Result<
    (ParseNode, usize),
    CompileError,
>)
    ensures
        match parse_summand_spec(tokens@, pos as int) {
            Some((e, end)) => r matches Ok((node, next)) && node.expr() == Some(e) && next == end,
            None => r == Err::<(ParseNode, usize), CompileError>(CompileError::ParseError),
        },
    decreases tokens@.len() - pos, 1int,
{
    proof {
        lemma_term_advances(tokens@, pos as int);
    }
    let (node_term, next_pos) = match parse_term(tokens, pos) {
        Ok(found) => found,
        Err(e) => {
            return Err(e);
        },
    };
    if is_op_at(tokens, next_pos, '*') {
        proof {
            lemma_summand_advances(tokens@, next_pos + 1);
        }
        match parse_summand(tokens, next_pos + 1) {
            Ok((rhs, i)) => Ok((binary(GrammarItem::Product, node_term, rhs), i)),
            Err(e) => Err(e),
        }
    } else if is_op_at(tokens, next_pos, '/') {
        proof {
            lemma_expr_advances(tokens@, next_pos + 1);
        }
        match parse_expr(tokens, next_pos + 1) {
            Ok((rhs, i)) => Ok((binary(GrammarItem::Div, node_term, rhs), i)),
            Err(e) => Err(e),
        }
    } else {
        Ok((node_term, next_pos))
    }
}

/// Parses the expression that starts at `pos`: a summand, then `+` and
/// an expression where one follows.
pub fn parse_expr(tokens: &Vec<LexItem>, pos: usize) -> (r: Result<(ParseNode, usize), CompileError>)
    ensures
        match parse_expr_spec(tokens@, pos as int) {
            Some((e, end)) => r matches Ok((node, next)) && node.expr() == Some(e) && next == end,
            None => r == Err::<(ParseNode, usize), CompileError>(CompileError::ParseError),
        },
    decreases tokens@.len() - pos, 2int,
{
    proof {
        lemma_summand_advances(tokens@, pos as int);
    }
    let (node_summand, next_pos) = match parse_summand(tokens, pos) {
        Ok(found) => found,
        Err(e) => {
            return Err(e);
        },
    };
    if is_op_at(tokens, next_pos, '+') {
        proof {
            lemma_expr_advances(tokens@, next_pos + 1);
        }
        match parse_expr(tokens, next_pos + 1) {
            Ok((rhs, i)) => Ok((binary(GrammarItem::Sum, node_summand, rhs), i)),
            Err(e) => Err(e),
        }
    } else {
        Ok((node_summand, next_pos))
    }
}

/// Parses a token sequence as one expression, all of it.
pub fn parse_token_list(tokens: &Vec<LexItem>) -> (r: Result<ParseNode, CompileError>)
    ensures
        match parse_tokens(tokens@) {
            Some(e) => r matches Ok(node) && node.expr() == Some(e),
            None => r == Err::<ParseNode, CompileError>(CompileError::ParseError),
        },
{
    match parse_expr(tokens, 0) {
        Ok((node, end)) => {
            if end == tokens.len() {
                Ok(node)
            } else {
                Err(CompileError::ParseError)
            }
        },
        Err(e) => Err(e),
    }
}

/// Parses the characters of an expression; see [`parse`].
pub fn parse_chars(input: &Vec<char>) -> (r: Result<ParseNode, CompileError>)
    ensures
        match parse_spec(input@) {
            Ok(e) => r matches Ok(node) && node.expr() == Some(e),
            Err(e) => r == Err::<ParseNode, CompileError>(e),
        },
{
    match lex_chars(input) {
        Ok(tokens) => parse_token_list(&tokens),
        Err(e) => Err(e),
    }
}

/// Parses the text of an expression into its tree.
///
/// Fails with `LexError` where the text does not lex, and with
/// `ParseError` where the tokens are no expression: at a missing operand
/// or parenthesis, and at tokens left over.
pub fn parse(input: &String) -> (r: Result<ParseNode, CompileError>)
    ensures
        match parse_spec(input@) {
            Ok(e) => r matches Ok(node) && node.expr() == Some(e),
            Err(e) => r == Err::<ParseNode, CompileError>(e),
        },
{
    let chars = chars_of(input.as_str());
    parse_chars(&chars)
}

} // verus!
