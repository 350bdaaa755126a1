//! The code generator: expression trees to x86-64 machine code.
//!
//! A function finds its k-th parameter at `[rbp + 0x10 + 8*k]` and leaves
//! its result in `rax`.
use vstd::prelude::*;
use crate::encoding::{append, le_bytes, lemma_le_bytes_len, to_le_bytes};
use crate::definitions::{lemma_valid_is_addressable, models, Definition, Equation};
use crate::parser::{Expr, GrammarItem, ParseNode};
use crate::text::{find, lemma_position_from, position};

verus! {

/// Whether `e` is a number or a parameter. Everything else is composite.
pub open spec fn is_leaf(e: Expr) -> bool {
    e is Number || e is Arg
}

/// The displacement from `rbp` at which the parameter `c` lives.
pub open spec fn load_offset(params: Seq<char>, c: char) -> int {
    0x10 + 8 * position(params, c)
}

/// Whether every parameter that `e` names is one of `params`, at a
/// displacement that fits in a byte.
pub open spec fn addressable(e: Expr, params: Seq<char>) -> bool
    decreases e,
{
    match e {
        Expr::Number(_) => true,
        Expr::Arg(c) => position(params, c) < params.len() && load_offset(params, c) <= 0xff,
        Expr::Paren(inner) => addressable(*inner, params),
        Expr::Sum(l, r) => addressable(*l, params) && addressable(*r, params),
        Expr::Product(l, r) => addressable(*l, params) && addressable(*r, params),
        Expr::Div(l, r) => addressable(*l, params) && addressable(*r, params),
    }
}

/// The right operand's code after the register repair: where it starts
/// with the same three bytes as the left operand's, its third byte becomes
/// `0x45`, which turns a load into `rcx` into a load into `rax`.
pub open spec fn repaired(left: Seq<u8>, right: Seq<u8>) -> Seq<u8> {
    if left.len() >= 3 && right.len() >= 3 && right[0] == left[0] && right[1] == left[1]
        && right[2] == left[2] {
        right.update(2, 0x45u8)
    } else {
        right
    }
}

/// The code of an expression.
///
/// | node | bytes |
/// |---|---|
/// | `Paren(c)` | those of `c` |
/// | `Number(n)` | `B9`, then the low four bytes of `n` (`mov ecx, imm32`) |
/// | `Arg(c)` | `48 8B 4D`, then the displacement of `c` (`mov rcx, [rbp+d]`) |
/// | `Sum(l, r)` | `l`, repaired `r`, `59` (`pop rcx`) if both are composite, `48 01 C8` (`add rax, rcx`) |
/// | `Product(l, r)` | repaired `r`, `l`, `48 F7 E1` (`mul rcx`), `50` (`push rax`) if exactly one is composite |
/// | `Div(l, r)` | `l`, repaired `r`, `48 F7 F1` (`div rcx`) |
pub open spec fn code(e: Expr, params: Seq<char>) -> Seq<u8>
    decreases e,
{
    match e {
        Expr::Paren(inner) => code(*inner, params),
        Expr::Number(n) => seq![0xb9u8] + le_bytes(n as nat, 4),
        Expr::Arg(c) => seq![0x48u8, 0x8bu8, 0x4du8, load_offset(params, c) as u8],
        Expr::Sum(l, r) => {
            let left = code(*l, params);
            let right = repaired(left, code(*r, params));
            let pop = if !is_leaf(*l) && !is_leaf(*r) {
                seq![0x59u8]
            } else {
                Seq::empty()
            };
            left + right + pop + seq![0x48u8, 0x01u8, 0xc8u8]
        },
        Expr::Product(l, r) => {
            let left = code(*l, params);
            let right = repaired(left, code(*r, params));
            let push = if is_leaf(*l) != is_leaf(*r) {
                seq![0x50u8]
            } else {
                Seq::empty()
            };
            right + left + seq![0x48u8, 0xf7u8, 0xe1u8] + push
        },
        Expr::Div(l, r) => {
            let left = code(*l, params);
            let right = repaired(left, code(*r, params));
            left + right + seq![0x48u8, 0xf7u8, 0xf1u8]
        },
    }
}

/// Two operands, each given by the bytes that follow the opcode of its
/// load, with the loads put in front where the operand is a parameter.
///
/// Two parameters are loaded into different registers: the right one into
/// `rax` (`48 8B 45`), the left one into `rcx` (`48 8B 4D`); the pair is
/// right, then left. A parameter beside an operand of another kind is
/// loaded into `rax`, and the two change places. Two operands of other
/// kinds stay as they are, right, then left.
pub open spec fn placed(left: GrammarItem, right: GrammarItem, rhs: Seq<u8>, lhs: Seq<u8>) -> (
    Seq<u8>,
    Seq<u8>,
) {
    if left is Arg && right is Arg {
        (seq![0x48u8, 0x8bu8, 0x45u8] + rhs, seq![0x48u8, 0x8bu8, 0x4du8] + lhs)
    } else if right is Arg {
        (lhs, seq![0x48u8, 0x8bu8, 0x45u8] + rhs)
    } else if left is Arg {
        (seq![0x48u8, 0x8bu8, 0x45u8] + lhs, rhs)
    } else {
        (rhs, lhs)
    }
}

/// The code of a function: `push rbp; mov rbp, rsp`, the body's code, and
/// `pop rbp; ret`.
pub open spec fn function_code(body: Expr, params: Seq<char>) -> Seq<u8> {
    seq![0x55u8, 0x48u8, 0x89u8, 0xe5u8] + code(body, params) + seq![0x5du8, 0xc3u8]
}

/// The code of an equation's function.
pub open spec fn equation_code(d: Definition) -> Seq<u8> {
    function_code(d.body, d.params)
}

/// The code section: the functions' code, one after the other, in the
/// order of the definitions.
pub open spec fn code_section(definitions: Seq<Definition>) -> Seq<u8>
    decreases definitions.len(),
{
    if definitions.len() == 0 {
        Seq::empty()
    } else {
        code_section(definitions.drop_last()) + equation_code(definitions.last())
    }
}

/// Whether `e` names the parameter `c`.
pub open spec fn mentions(e: Expr, c: char) -> bool
    decreases e,
{
    match e {
        Expr::Number(_) => false,
        Expr::Arg(d) => d == c,
        Expr::Paren(inner) => mentions(*inner, c),
        Expr::Sum(l, r) => mentions(*l, c) || mentions(*r, c),
        Expr::Product(l, r) => mentions(*l, c) || mentions(*r, c),
        Expr::Div(l, r) => mentions(*l, c) || mentions(*r, c),
    }
}

/// Whether `code` holds at index `at` a load from `[rbp + offset]`, into
/// `rcx` or into `rax`.
pub open spec fn loads_at(code: Seq<u8>, at: int, offset: int) -> bool {
    &&& 0 <= at
    &&& at + 4 <= code.len()
    &&& code[at] == 0x48u8
    &&& code[at + 1] == 0x8bu8
    &&& (code[at + 2] == 0x4du8 || code[at + 2] == 0x45u8)
    &&& code[at + 3] == offset
}

/// The repair keeps a load that starts the right operand's code, or
/// stands behind its first four bytes: it may change the register, not
/// the displacement.
pub proof fn lemma_repair_keeps_loads(left: Seq<u8>, right: Seq<u8>, at: int, offset: int)
    requires
        at == 0 || at >= 4,
        loads_at(right, at, offset),
    ensures
        loads_at(repaired(left, right), at, offset),
{
}

/// Every parameter that an expression names is loaded from its own
/// slot: somewhere in the code stands `48 8B 4D` or `48 8B 45`, and
/// behind it the displacement `0x10 + 8 * k` of the `k`-th parameter.
pub proof fn lemma_parameter_loads(e: Expr, params: Seq<char>, c: char) -> (at: int)
    requires
        addressable(e, params),
        mentions(e, c),
    ensures
        at == 0 || at >= 4,
        loads_at(code(e, params), at, 0x10 + 8 * position(params, c)),
    decreases e,
{
    let offset = 0x10 + 8 * position(params, c);
    match e {
        Expr::Number(_) => 0,
        Expr::Arg(_) => {
            lemma_position_from(params, c, 0);
            0
        },
        Expr::Paren(inner) => lemma_parameter_loads(*inner, params, c),
        Expr::Sum(l, r) => {
            let left = code(*l, params);
            let right = code(*r, params);
            lemma_code_len(*l, params);
            if mentions(*l, c) {
                lemma_parameter_loads(*l, params, c)
            } else {
                let at = lemma_parameter_loads(*r, params, c);
                lemma_repair_keeps_loads(left, right, at, offset);
                left.len() + at
            }
        },
        Expr::Product(l, r) => {
            let left = code(*l, params);
            let right = code(*r, params);
            lemma_code_len(*r, params);
            if mentions(*r, c) {
                let at = lemma_parameter_loads(*r, params, c);
                lemma_repair_keeps_loads(left, right, at, offset);
                at
            } else {
                let at = lemma_parameter_loads(*l, params, c);
                assert(repaired(left, right).len() == right.len());
                right.len() + at
            }
        },
        Expr::Div(l, r) => {
            let left = code(*l, params);
            let right = code(*r, params);
            lemma_code_len(*l, params);
            if mentions(*l, c) {
                lemma_parameter_loads(*l, params, c)
            } else {
                let at = lemma_parameter_loads(*r, params, c);
                lemma_repair_keeps_loads(left, right, at, offset);
                left.len() + at
            }
        },
    }
}

/// The code of the `k`-th function lies in the code section behind the
/// code of the functions before it.
pub proof fn lemma_function_place(definitions: Seq<Definition>, k: int)
    requires
        0 <= k < definitions.len(),
    ensures
        ({
            let start = code_section(definitions.take(k)).len() as int;
            let end = code_section(definitions.take(k + 1)).len() as int;
            &&& start <= end <= code_section(definitions).len()
            &&& code_section(definitions).subrange(start, end) == equation_code(definitions[k])
        }),
    decreases definitions.len(),
{
    let start = code_section(definitions.take(k)).len() as int;
    let end = code_section(definitions.take(k + 1)).len() as int;
    let earlier = definitions.drop_last();
    assert(definitions.take(k + 1).drop_last() =~= definitions.take(k));
    if k == definitions.len() - 1 {
        assert(definitions.take(k + 1) =~= definitions);
        assert(definitions.take(k) =~= earlier);
        assert(code_section(definitions).subrange(start, end) =~= equation_code(definitions[k]));
    } else {
        lemma_function_place(earlier, k);
        assert(earlier.take(k) =~= definitions.take(k));
        assert(earlier.take(k + 1) =~= definitions.take(k + 1));
        assert(code_section(definitions).subrange(start, end) =~= code_section(earlier).subrange(
            start,
            end,
        ));
    }
}

/// Every function starts with `55 48 89 E5` and ends with `C3`.
pub proof fn lemma_function_code_frame(body: Expr, params: Seq<char>)
    ensures
        function_code(body, params).len() >= 10,
        function_code(body, params).subrange(0, 4) == seq![0x55u8, 0x48u8, 0x89u8, 0xe5u8],
        function_code(body, params).last() == 0xc3u8,
{
    lemma_code_len(body, params);
    assert(function_code(body, params).subrange(0, 4) =~= seq![0x55u8, 0x48u8, 0x89u8, 0xe5u8]);
}

/// Every expression compiles to at least four bytes.
pub proof fn lemma_code_len(e: Expr, params: Seq<char>)
    ensures
        code(e, params).len() >= 4,
    decreases e,
{
    match e {
        Expr::Paren(inner) => {
            lemma_code_len(*inner, params);
        },
        Expr::Number(n) => {
            lemma_le_bytes_len(n as nat, 4);
        },
        Expr::Arg(_) => {},
        Expr::Sum(l, r) => {
            lemma_code_len(*l, params);
            lemma_code_len(*r, params);
        },
        Expr::Product(l, r) => {
            lemma_code_len(*l, params);
            lemma_code_len(*r, params);
        },
        Expr::Div(l, r) => {
            lemma_code_len(*l, params);
            lemma_code_len(*r, params);
        },
    }
}

/// The tags of the first two children of `tree`, left then right.
pub fn get_arguments(tree: &ParseNode) -> (r: (&GrammarItem, &GrammarItem))
    requires
        tree.children@.len() >= 2,
    ensures
        *r.0 == tree.children@[0].entry,
        *r.1 == tree.children@[1].entry,
{
    let lhs_type = &tree.children[0].entry;
    let rhs_type = &tree.children[1].entry;
    (lhs_type, rhs_type)
}

/// Whether a tag is that of a number or a parameter.
fn is_leaf_tag(tag: &GrammarItem) -> (r: bool)
    ensures
        r == (*tag is Number || *tag is Arg),
{
    match tag {
        GrammarItem::Number(_) => true,
        GrammarItem::Arg(_) => true,
        _ => false,
    }
}

/// The register repair on the right operand's code.
fn repair(lhs: &Vec<u8>, rhs: &mut Vec<u8>)
    requires
        lhs@.len() >= 3,
        old(rhs)@.len() >= 3,
    ensures
        final(rhs)@ == repaired(lhs@, old(rhs)@),
{
    if rhs[0] == lhs[0] && rhs[1] == lhs[1] && rhs[2] == lhs[2] {
        rhs.set(2, 0x45);
    }
}

/// Emits the code of `tree`, whose parameters live in the order of `args`.
///
/// A postorder walk: `Sum` and `Div` emit the left operand first,
/// `Product` the right; each repairs the right operand's leading load where
/// it would land in the register of the left.
pub fn combine(tree: &ParseNode, args: &Vec<char>) -> (r: Vec<u8>)
    requires
        tree.expr() is Some,
        addressable(tree.expr()->0, args@),
    ensures
        r@ == code(tree.expr()->0, args@),
        tree.expr() matches Some(Expr::Arg(c)) ==> r@ == seq![
            0x48u8,
            0x8bu8,
            0x4du8,
            (0x10 + 8 * position(args@, c)) as u8,
        ],
    decreases tree,
{
    match tree.entry {
        GrammarItem::Paren => combine(&tree.children[0], args),
        GrammarItem::Sum => {
            let lhs = combine(&tree.children[0], args);
            let mut rhs = combine(&tree.children[1], args);
            let (lhs_type, rhs_type) = get_arguments(tree);
            let both_sides_operators = !is_leaf_tag(lhs_type) && !is_leaf_tag(rhs_type);
            proof {
                lemma_code_len(tree.children@[0].expr()->0, args@);
                lemma_code_len(tree.children@[1].expr()->0, args@);
            }
            repair(&lhs, &mut rhs);
            let mut v: Vec<u8> = Vec::new();
            append(&mut v, lhs);
            append(&mut v, rhs);
            if both_sides_operators {
                v.push(0x59);
            }
            v.push(0x48);
            v.push(0x01);
            v.push(0xc8);
            proof {
                assert(v@ =~= code(tree.expr()->0, args@));
            }
            v
        },
        GrammarItem::Product => {
            let lhs = combine(&tree.children[0], args);
            let mut rhs = combine(&tree.children[1], args);
            let (lhs_type, rhs_type) = get_arguments(tree);
            let one_side_operator = is_leaf_tag(lhs_type) != is_leaf_tag(rhs_type);
            proof {
                lemma_code_len(tree.children@[0].expr()->0, args@);
                lemma_code_len(tree.children@[1].expr()->0, args@);
            }
            repair(&lhs, &mut rhs);
            let mut v: Vec<u8> = Vec::new();
            append(&mut v, rhs);
            append(&mut v, lhs);
            v.push(0x48);
            v.push(0xf7);
            v.push(0xe1);
            if one_side_operator {
                v.push(0x50);
            }
            proof {
                assert(v@ =~= code(tree.expr()->0, args@));
            }
            v
        },
        GrammarItem::Div => {
            let lhs = combine(&tree.children[0], args);
            let mut rhs = combine(&tree.children[1], args);
            proof {
                lemma_code_len(tree.children@[0].expr()->0, args@);
                lemma_code_len(tree.children@[1].expr()->0, args@);
            }
            repair(&lhs, &mut rhs);
            let mut v: Vec<u8> = Vec::new();
            append(&mut v, lhs);
            append(&mut v, rhs);
            v.push(0x48);
            v.push(0xf7);
            v.push(0xf1);
            proof {
                assert(v@ =~= code(tree.expr()->0, args@));
            }
            v
        },
        GrammarItem::Number(n) => {
            let mut v: Vec<u8> = Vec::new();
            v.push(0xb9);
            append(&mut v, to_le_bytes(n, 4));
            proof {
                assert(v@ =~= code(tree.expr()->0, args@));
            }
            v
        },
        GrammarItem::Arg(c) => {
            let index = find(args, c);
            let offset: usize = index * 8 + 0x10;
            let mut v: Vec<u8> = Vec::new();
            v.push(0x48);
            v.push(0x8b);
            v.push(0x4d);
            v.push(offset as u8);
            proof {
                assert(v@ =~= code(tree.expr()->0, args@));
            }
            v
        },
    }
}

/// Puts loads in front of the operands of `tree` that are parameters, so
/// that two parameters land in different registers; see [`placed`].
///
/// This is the explicit alternative to the byte-level repair that
/// [`combine`] applies: the operands come as displacement bytes, and the
/// parent chooses the registers.
pub fn set_arguments_to_different_regs(tree: &ParseNode, rhs: &Vec<u8>, lhs: &Vec<u8>) -> (r: (
    Vec<u8>,
    Vec<u8>,
))
    requires
        tree.children@.len() >= 2,
    ensures
        (r.0@, r.1@) == placed(tree.children@[0].entry, tree.children@[1].entry, rhs@, lhs@),
{
    let (lhs_type, rhs_type) = get_arguments(tree);
    let left_is_arg = match lhs_type {
        GrammarItem::Arg(_) => true,
        _ => false,
    };
    let right_is_arg = match rhs_type {
        GrammarItem::Arg(_) => true,
        _ => false,
    };
    if left_is_arg && right_is_arg {
        let mut r: Vec<u8> = vec![0x48, 0x8b, 0x45];
        append(&mut r, rhs.clone());
        let mut l: Vec<u8> = vec![0x48, 0x8b, 0x4d];
        append(&mut l, lhs.clone());
        (r, l)
    } else if right_is_arg {
        let mut r: Vec<u8> = vec![0x48, 0x8b, 0x45];
        append(&mut r, rhs.clone());
        (lhs.clone(), r)
    } else if left_is_arg {
        let mut l: Vec<u8> = vec![0x48, 0x8b, 0x45];
        append(&mut l, lhs.clone());
        (l, rhs.clone())
    } else {
        (rhs.clone(), lhs.clone())
    }
}

/// Emits the function of one equation: prologue, body, epilogue.
pub fn equation_to_code(eq: &Equation) -> (r: Vec<u8>)
    ensures
        r@ == equation_code(eq@),
        r@.len() >= 10,
        r@.subrange(0, 4) == seq![0x55u8, 0x48u8, 0x89u8, 0xe5u8],
        r@.last() == 0xc3u8,
{
    let tree = eq.tree();
    let arguments = eq.arguments();
    proof {
        lemma_valid_is_addressable(eq@);
        lemma_function_code_frame(eq@.body, eq@.params);
    }
    let mut res: Vec<u8> = Vec::new();
    res.push(0x55);
    res.push(0x48);
    res.push(0x89);
    res.push(0xe5);
    append(&mut res, combine(tree, arguments));
    res.push(0x5d);
    res.push(0xc3);
    proof {
        assert(res@ =~= equation_code(eq@));
    }
    res
}

/// Emits the code section: the function of each equation, in order.
pub fn generate_code_section(equations: &Vec<Equation>) -> (r: Vec<u8>)
    ensures
        r@ == code_section(models(equations@)),
{
    let ghost all = models(equations@);
    let mut res: Vec<u8> = Vec::new();
    let mut i: usize = 0;
    while i < equations.len()
        invariant
            i <= equations@.len(),
            all == models(equations@),
            res@ == code_section(all.take(i as int)),
        decreases equations@.len() - i,
    {
        proof {
            assert(all.take(i + 1).drop_last() =~= all.take(i as int));
        }
        append(&mut res, equation_to_code(&equations[i]));
        i += 1;
    }
    proof {
        assert(all.take(i as int) =~= all);
    }
    res
}

} // verus!
