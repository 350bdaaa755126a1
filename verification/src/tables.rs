//! The tables at the end of the file: section names, symbols and symbol
//! names.
use vstd::prelude::*;
use crate::codegen::{code_section, equation_to_code};
use crate::definitions::{models, Definition, Equation};
use crate::elf::{SymtabEntry, FILE_LOAD_VA};
use crate::encoding::{append, lemma_le_bytes_len};

verus! {

/// Length of a symbol table entry.
pub const SYMBOL_SIZE: u64 = 24;

/// Length of the section names.
pub const SECTION_NAMES_SIZE: u64 = 33;

/// The section names: `\0.text\0.shstrtab\0.symtab\0.strtab\0`.
#[verifier::opaque]
pub open spec fn section_names() -> Seq<u8> {
    seq![
        0x00u8, 0x2eu8, 0x74u8, 0x65u8, 0x78u8, 0x74u8, 0x00u8, 0x2eu8, 0x73u8, 0x68u8, 0x73u8,
        0x74u8, 0x72u8, 0x74u8, 0x61u8, 0x62u8, 0x00u8, 0x2eu8, 0x73u8, 0x79u8, 0x6du8, 0x74u8,
        0x61u8, 0x62u8, 0x00u8, 0x2eu8, 0x73u8, 0x74u8, 0x72u8, 0x74u8, 0x61u8, 0x62u8, 0x00u8,
    ]
}

/// A name as bytes, one for each character.
pub open spec fn name_bytes(name: Seq<char>) -> Seq<u8> {
    Seq::new(name.len(), |i: int| name[i] as u8)
}

/// The symbol names: `\0entry_point\0`, then each function's name and a
/// zero byte, in the order of the definitions.
pub open spec fn symbol_names(definitions: Seq<Definition>) -> Seq<u8>
    decreases definitions.len(),
{
    if definitions.len() == 0 {
        seq![
            0x00u8, 0x65u8, 0x6eu8, 0x74u8, 0x72u8, 0x79u8, 0x5fu8, 0x70u8, 0x6fu8, 0x69u8, 0x6eu8,
            0x74u8, 0x00u8,
        ]
    } else {
        symbol_names(definitions.drop_last()) + name_bytes(definitions.last().name) + seq![0x00u8]
    }
}

/// The symbol of the function that follows the given definitions: its
/// name starts where their names end, its code where their code ends.
pub open spec fn function_symbol(code_offset: u64, earlier: Seq<Definition>) -> SymtabEntry {
    SymtabEntry {
        name: symbol_names(earlier).len() as u32,
        info: 0,
        other: 0,
        shndx: 1,
        value: (FILE_LOAD_VA + code_offset + code_section(earlier).len()) as u64,
        size: 0,
    }
}

/// The symbols of the functions, in the order of the definitions.
pub open spec fn function_symbols(code_offset: u64, definitions: Seq<Definition>) -> Seq<u8>
    decreases definitions.len(),
{
    if definitions.len() == 0 {
        Seq::empty()
    } else {
        function_symbols(code_offset, definitions.drop_last()) + function_symbol(
            code_offset,
            definitions.drop_last(),
        ).bytes()
    }
}

/// The null symbol.
pub open spec fn null_symbol() -> SymtabEntry {
    SymtabEntry { name: 0, info: 0, other: 0, shndx: 0, value: 0, size: 0 }
}

/// The symbol `entry_point`.
pub open spec fn entry_symbol(entry_point_offset: u64) -> SymtabEntry {
    SymtabEntry {
        name: 1,
        info: 0x10,
        other: 0,
        shndx: 1,
        value: (FILE_LOAD_VA + entry_point_offset) as u64,
        size: 0,
    }
}

/// The symbol table: the null symbol, `entry_point`, and one symbol for
/// each function.
pub open spec fn symbol_table(
    entry_point_offset: u64,
    code_offset: u64,
    definitions: Seq<Definition>,
) -> Seq<u8> {
    null_symbol().bytes() + entry_symbol(entry_point_offset).bytes() + function_symbols(
        code_offset,
        definitions,
    )
}

/// A symbol is 24 bytes long.
pub proof fn lemma_symbol_len(s: SymtabEntry)
    ensures
        s.bytes().len() == 24,
{
    broadcast use lemma_le_bytes_len;
}

/// The section names are 33 bytes long.
pub proof fn lemma_section_names_len()
    ensures
        section_names().len() == SECTION_NAMES_SIZE,
{
    reveal(section_names);
}

/// The function symbols are 24 bytes for each definition.
pub proof fn lemma_function_symbols_len(code_offset: u64, definitions: Seq<Definition>)
    ensures
        function_symbols(code_offset, definitions).len() == SYMBOL_SIZE * definitions.len(),
    decreases definitions.len(),
{
    if definitions.len() > 0 {
        lemma_function_symbols_len(code_offset, definitions.drop_last());
        lemma_symbol_len(function_symbol(code_offset, definitions.drop_last()));
    }
}

/// The symbol table is 24 bytes for each definition and two more entries.
pub proof fn lemma_symbol_table_len(
    entry_point_offset: u64,
    code_offset: u64,
    definitions: Seq<Definition>,
)
    ensures
        symbol_table(entry_point_offset, code_offset, definitions).len() == SYMBOL_SIZE * (2
            + definitions.len()),
{
    lemma_symbol_len(null_symbol());
    lemma_symbol_len(entry_symbol(entry_point_offset));
    lemma_function_symbols_len(code_offset, definitions);
}

/// The code and the names of the first definitions of a list are no
/// longer than those of all.
pub proof fn lemma_prefix_sizes(definitions: Seq<Definition>, k: int)
    requires
        0 <= k <= definitions.len(),
    ensures
        code_section(definitions.take(k)).len() <= code_section(definitions).len(),
        symbol_names(definitions.take(k)).len() <= symbol_names(definitions).len(),
    decreases definitions.len() - k,
{
    if k < definitions.len() {
        assert(definitions.take(k + 1).drop_last() =~= definitions.take(k));
        lemma_prefix_sizes(definitions, k + 1);
    } else {
        assert(definitions.take(k) =~= definitions);
    }
}

/// Emits `.shstrtab`, the section names.
pub fn assemble_string_table() -> (r: Vec<u8>)
    ensures
        r@ == section_names(),
        r@.len() == SECTION_NAMES_SIZE,
{
    proof {
        reveal(section_names);
    }
    vec![
        0x00, 0x2e, 0x74, 0x65, 0x78, 0x74, 0x00, 0x2e, 0x73, 0x68, 0x73, 0x74, 0x72, 0x74, 0x61,
        0x62, 0x00, 0x2e, 0x73, 0x79, 0x6d, 0x74, 0x61, 0x62, 0x00, 0x2e, 0x73, 0x74, 0x72, 0x74,
        0x61, 0x62, 0x00,
    ]
}

/// Emits a name, one byte for each character.
fn encode_name(name: &Vec<char>) -> (r: Vec<u8>)
    ensures
        r@ == name_bytes(name@),
{
    let mut out: Vec<u8> = Vec::new();
    let mut i: usize = 0;
    while i < name.len()
        invariant
            i <= name@.len(),
            out@ == name_bytes(name@).take(i as int),
        decreases name@.len() - i,
    {
        out.push(name[i] as u8);
        proof {
            assert(out@ =~= name_bytes(name@).take(i + 1));
        }
        i += 1;
    }
    proof {
        assert(name_bytes(name@).take(i as int) =~= name_bytes(name@));
    }
    out
}

/// Emits `.strtab`, the symbol names.
pub fn assemble_strtab_table(equations: &Vec<Equation>) -> (r: Vec<u8>)
    ensures
        r@ == symbol_names(models(equations@)),
{
    let ghost all = models(equations@);
    let mut res: Vec<u8> = vec![
        0x00, 0x65, 0x6e, 0x74, 0x72, 0x79, 0x5f, 0x70, 0x6f, 0x69, 0x6e, 0x74, 0x00,
    ];
    let mut i: usize = 0;
    while i < equations.len()
        invariant
            i <= equations@.len(),
            all == models(equations@),
            res@ == symbol_names(all.take(i as int)),
        decreases equations@.len() - i,
    {
        proof {
            assert(all.take(i + 1).drop_last() =~= all.take(i as int));
        }
        append(&mut res, encode_name(equations[i].function_name()));
        res.push(0x00);
        i += 1;
    }
    proof {
        assert(all.take(i as int) =~= all);
    }
    res
}

/// Emits `.symtab`: the null symbol, `entry_point`, and one symbol for
/// each function, whose code starts at `code_offset`.
pub fn assemble_symtab_table(
    entry_point_offset: u64,
    code_offset: u64,
    equations: &Vec<Equation>,
) -> (r: Vec<u8>)
    requires
        FILE_LOAD_VA + entry_point_offset <= u64::MAX,
        FILE_LOAD_VA + code_offset + code_section(models(equations@)).len() <= u64::MAX,
        symbol_names(models(equations@)).len() <= u32::MAX,
    ensures
        r@ == symbol_table(entry_point_offset, code_offset, models(equations@)),
        r@.len() == SYMBOL_SIZE * (2 + equations@.len()),
{
    let ghost all = models(equations@);
    let null = SymtabEntry { name: 0, info: 0, other: 0, shndx: 0, value: 0, size: 0 };
    let entry = SymtabEntry {
        name: 1,
        info: 0x10,
        other: 0,
        shndx: 1,
        value: FILE_LOAD_VA + entry_point_offset,
        size: 0,
    };
    let mut res = null.encode();
    append(&mut res, entry.encode());
    let mut name: u32 = 13;
    let mut value: u64 = FILE_LOAD_VA + code_offset;
    let mut i: usize = 0;
    while i < equations.len()
        invariant
            i <= equations@.len(),
            all == models(equations@),
            FILE_LOAD_VA + code_offset + code_section(all).len() <= u64::MAX,
            symbol_names(all).len() <= u32::MAX,
            name == symbol_names(all.take(i as int)).len(),
            value == FILE_LOAD_VA + code_offset + code_section(all.take(i as int)).len(),
            res@ == null_symbol().bytes() + entry_symbol(entry_point_offset).bytes()
                + function_symbols(code_offset, all.take(i as int)),
        decreases equations@.len() - i,
    {
        proof {
            assert(all.take(i + 1).drop_last() =~= all.take(i as int));
            lemma_prefix_sizes(all, i + 1);
        }
        let symbol = SymtabEntry { name, info: 0, other: 0, shndx: 1, value, size: 0 };
        let ghost before = res@;
        append(&mut res, symbol.encode());
        proof {
            assert(res@ =~= null_symbol().bytes() + entry_symbol(entry_point_offset).bytes()
                + function_symbols(code_offset, all.take(i + 1)));
        }
        let code_len = equation_to_code(&equations[i]).len();
        let name_len = equations[i].function_name().len();
        value = value + code_len as u64;
        name = name + name_len as u32 + 1;
        i += 1;
    }
    proof {
        assert(all.take(i as int) =~= all);
        lemma_symbol_table_len(entry_point_offset, code_offset, all);
    }
    res
}

} // verus!
