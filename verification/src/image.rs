//! The ELF layout engine: the two passes that put the file together.
//!
//! ```text
//! 0x000  ELF header
//! 0x040  program header: one loadable segment
//! 0x078  section headers: null, .text, .shstrtab, .symtab, .strtab
//! 0x1b8  the functions' code
//!        the entry point's code
//!        the message
//!        .shstrtab
//!        .symtab
//!        .strtab
//! ```
//!
//! The first pass writes everything with placeholder offsets and notes how
//! long each region is; the second pass writes everything again with the
//! offsets that the first has found.
use vstd::prelude::*;
use crate::codegen::{
    code_section, equation_code, equation_to_code, generate_code_section, lemma_function_code_frame,
    lemma_function_place,
};
use crate::definitions::{models, parse_definitions, parse_input_formula, Definition, Equation};
use crate::driver::{
    entry_code, entry_point_code, lemma_call_lands, lemma_entry_code_calls, lemma_entry_code_len,
    lemma_message_len, message, message_buffer, signed_operand, ENTRY_CODE_SIZE, FIRST_RETURN,
    MESSAGE_SIZE, REACH, SECOND_RETURN,
};
use crate::elf::FILE_LOAD_VA;
use crate::encoding::{append, le_bytes};
use crate::error::CompileError;
use crate::headers::{
    assemble_elf_header, assemble_program_header, assemble_section_header,
    assemble_strtab_section_header, assemble_symtab_section_header, elf_header_of,
    lemma_elf_header_len, lemma_identification, lemma_program_header_len,
    lemma_section_header_len, lemma_segment_fields, null_section_header, program_header_of,
    section_headers, shstrtab_section_header_of, strtab_section_header_of,
    symtab_section_header_of, text_section_header_of,
};
use crate::tables::{
    assemble_string_table, assemble_strtab_table, assemble_symtab_table, lemma_prefix_sizes,
    lemma_section_names_len, lemma_symbol_table_len, section_names, symbol_names, symbol_table,
    SECTION_NAMES_SIZE, SYMBOL_SIZE,
};

verus! {

/// Length of what stands before the code: the ELF header, the program
/// header and the five section headers.
pub const HEADERS_SIZE: u64 = 440;

/// The file offsets that the first pass finds and the second pass writes
/// into the headers.
#[derive(Debug, Clone, Copy, PartialEq, Eq)]
pub struct Layout {
    pub entry_point_offset: u64,
    pub message_buffer_offset: u64,
    pub shstrtab_offset: u64,
    pub symtab_offset: u64,
    pub strtab_offset: u64,
    pub file_size: u64,
}

/// How far before the entry point the function of the `k`-th definition
/// starts; where there is none, it is taken to start at the entry point.
pub open spec fn distance_to(definitions: Seq<Definition>, k: nat) -> nat {
    if k <= definitions.len() {
        (code_section(definitions).len() - code_section(definitions.take(k as int)).len()) as nat
    } else {
        0
    }
}

impl Layout {
    /// The offsets that the first pass writes: all zero.
    pub open spec fn placeholder() -> Layout {
        Layout {
            entry_point_offset: 0,
            message_buffer_offset: 0,
            shstrtab_offset: 0,
            symtab_offset: 0,
            strtab_offset: 0,
            file_size: 0,
        }
    }

    /// Whether the tables follow each other in the file's order and every
    /// offset is one whose address a 32-bit operand can name.
    pub open spec fn in_reach(self) -> bool {
        &&& self.shstrtab_offset <= self.symtab_offset <= self.strtab_offset <= self.file_size
        &&& FILE_LOAD_VA + self.entry_point_offset < REACH
        &&& FILE_LOAD_VA + self.message_buffer_offset < REACH
        &&& FILE_LOAD_VA + self.file_size <= REACH
    }
}

/// The headers, written with the offsets of `l`.
#[verifier::opaque]
pub open spec fn headers(l: Layout) -> Seq<u8> {
    elf_header_of(l.entry_point_offset).bytes() + program_header_of(l.shstrtab_offset).bytes()
        + section_headers(
        l.file_size,
        l.shstrtab_offset,
        (l.symtab_offset - l.shstrtab_offset) as u64,
    ) + symtab_section_header_of(
        l.symtab_offset,
        (l.strtab_offset - l.symtab_offset) as u64,
    ).bytes() + strtab_section_header_of(
        l.strtab_offset,
        (l.file_size - l.strtab_offset) as u64,
    ).bytes()
}

/// The entry point's code, written with the offsets of `l`: the first
/// call goes to the first function, the second to the second.
pub open spec fn driver(definitions: Seq<Definition>, l: Layout) -> Seq<u8> {
    entry_code(
        (FILE_LOAD_VA + l.message_buffer_offset) as u64,
        distance_to(definitions, 0) as u64,
        distance_to(definitions, 1) as u64,
    )
}

/// The whole file, written with the offsets of `l`.
pub open spec fn image_with(definitions: Seq<Definition>, l: Layout) -> Seq<u8> {
    headers(l) + code_section(definitions) + driver(definitions, l) + message() + section_names()
        + symbol_table(l.entry_point_offset, HEADERS_SIZE, definitions) + symbol_names(definitions)
}

/// The offsets that a pass with the offsets of `l` finds: each is the
/// length of all that the pass wrote before that point.
pub open spec fn measured(definitions: Seq<Definition>, l: Layout) -> Layout {
    let entry = headers(l).len() + code_section(definitions).len();
    let buffer = entry + driver(definitions, l).len();
    let shstrtab = buffer + message().len();
    let symtab = shstrtab + section_names().len();
    let strtab = symtab + symbol_table(l.entry_point_offset, HEADERS_SIZE, definitions).len();
    let size = strtab + symbol_names(definitions).len();
    Layout {
        entry_point_offset: entry as u64,
        message_buffer_offset: buffer as u64,
        shstrtab_offset: shstrtab as u64,
        symtab_offset: symtab as u64,
        strtab_offset: strtab as u64,
        file_size: size as u64,
    }
}

/// The offsets of the file: those that the first pass finds.
pub open spec fn layout_of(definitions: Seq<Definition>) -> Layout {
    measured(definitions, Layout::placeholder())
}

/// The length of the file.
pub open spec fn image_size(definitions: Seq<Definition>) -> nat {
    HEADERS_SIZE as nat + code_section(definitions).len() + ENTRY_CODE_SIZE as nat
        + MESSAGE_SIZE as nat + SECTION_NAMES_SIZE as nat + SYMBOL_SIZE as nat * (2
        + definitions.len()) + symbol_names(definitions).len()
}

/// Whether the file, loaded at `FILE_LOAD_VA`, ends within the reach of
/// the 32-bit operands that the entry point uses.
pub open spec fn image_fits(definitions: Seq<Definition>) -> bool {
    FILE_LOAD_VA + image_size(definitions) <= REACH
}

/// The file: the second pass, written with the offsets of the first.
pub open spec fn image(definitions: Seq<Definition>) -> Seq<u8> {
    image_with(definitions, layout_of(definitions))
}

/// What compiling `input` gives: the file, or the reason why there is
/// none.
pub open spec fn compiled(input: Seq<char>) -> Result<Seq<u8>, CompileError> {
    match parse_definitions(input) {
        Err(e) => Err(e),
        Ok(definitions) => if image_fits(definitions) {
            Ok(image(definitions))
        } else {
            Err(CompileError::ImageTooLarge)
        },
    }
}

/// Whether `result` is what compiling `input` gives.
pub open spec fn is_compilation(input: Seq<char>, result: Result<Vec<u8>, CompileError>) -> bool {
    match compiled(input) {
        Ok(bytes) => result matches Ok(v) && v@ == bytes,
        Err(e) => result == Err::<Vec<u8>, CompileError>(e),
    }
}

/// Compiling the same input twice gives the same bytes, or the same
/// error.
pub proof fn lemma_compile_deterministic(
    input: Seq<char>,
    first: Result<Vec<u8>, CompileError>,
    second: Result<Vec<u8>, CompileError>,
)
    requires
        is_compilation(input, first),
        is_compilation(input, second),
    ensures
        match (first, second) {
            (Ok(a), Ok(b)) => a@ == b@,
            (Err(a), Err(b)) => a == b,
            _ => false,
        },
{
}

/// The headers are 440 bytes long, whatever the offsets.
pub proof fn lemma_headers_len(l: Layout)
    ensures
        headers(l).len() == HEADERS_SIZE,
{
    reveal(headers);
    lemma_elf_header_len(elf_header_of(l.entry_point_offset));
    lemma_program_header_len(program_header_of(l.shstrtab_offset));
    lemma_section_header_len(null_section_header());
    lemma_section_header_len(text_section_header_of(l.file_size));
    lemma_section_header_len(
        shstrtab_section_header_of(l.shstrtab_offset, (l.symtab_offset - l.shstrtab_offset) as u64),
    );
    lemma_section_header_len(
        symtab_section_header_of(l.symtab_offset, (l.strtab_offset - l.symtab_offset) as u64),
    );
    lemma_section_header_len(
        strtab_section_header_of(l.strtab_offset, (l.file_size - l.strtab_offset) as u64),
    );
}

/// The regions that a pass writes are as long with one set of offsets as
/// with another.
pub proof fn lemma_region_sizes(definitions: Seq<Definition>, l: Layout)
    ensures
        headers(l).len() == HEADERS_SIZE,
        driver(definitions, l).len() == ENTRY_CODE_SIZE,
        message().len() == MESSAGE_SIZE,
        section_names().len() == SECTION_NAMES_SIZE,
        symbol_table(l.entry_point_offset, HEADERS_SIZE, definitions).len() == SYMBOL_SIZE * (2
            + definitions.len()),
{
    lemma_headers_len(l);
    lemma_entry_code_len(
        (FILE_LOAD_VA + l.message_buffer_offset) as u64,
        distance_to(definitions, 0) as u64,
        distance_to(definitions, 1) as u64,
    );
    lemma_message_len();
    lemma_section_names_len();
    lemma_symbol_table_len(l.entry_point_offset, HEADERS_SIZE, definitions);
}

/// A pass writes as many bytes as the file is long and finds the same
/// offsets, whatever offsets it writes.
pub proof fn lemma_pass_measures(definitions: Seq<Definition>, l: Layout)
    ensures
        image_with(definitions, l).len() == image_size(definitions),
        measured(definitions, l) == layout_of(definitions),
{
    lemma_region_sizes(definitions, l);
    lemma_region_sizes(definitions, Layout::placeholder());
}

/// The first pass and the second write the same number of bytes.
pub proof fn lemma_passes_agree(definitions: Seq<Definition>)
    ensures
        image_with(definitions, Layout::placeholder()).len() == image(definitions).len(),
{
    lemma_pass_measures(definitions, Layout::placeholder());
    lemma_pass_measures(definitions, layout_of(definitions));
}

/// Where each of seven sequences lies in their concatenation.
proof fn lemma_seven_parts(
    a: Seq<u8>,
    b: Seq<u8>,
    c: Seq<u8>,
    d: Seq<u8>,
    e: Seq<u8>,
    f: Seq<u8>,
    g: Seq<u8>,
)
    ensures
        ({
            let s = a + b + c + d + e + f + g;
            let at_b = a.len() as int;
            let at_c = at_b + b.len();
            let at_d = at_c + c.len();
            let at_e = at_d + d.len();
            let at_f = at_e + e.len();
            let at_g = at_f + f.len();
            &&& s.len() == at_g + g.len()
            &&& s.subrange(0, at_b) == a
            &&& s.subrange(at_b, at_c) == b
            &&& s.subrange(at_c, at_d) == c
            &&& s.subrange(at_d, at_e) == d
            &&& s.subrange(at_e, at_f) == e
            &&& s.subrange(at_f, at_g) == f
            &&& s.subrange(at_g, s.len() as int) == g
        }),
{
    let s = a + b + c + d + e + f + g;
    let at_b = a.len() as int;
    let at_c = at_b + b.len();
    let at_d = at_c + c.len();
    let at_e = at_d + d.len();
    let at_f = at_e + e.len();
    let at_g = at_f + f.len();
    assert(s.subrange(0, at_b) =~= a);
    assert(s.subrange(at_b, at_c) =~= b);
    assert(s.subrange(at_c, at_d) =~= c);
    assert(s.subrange(at_d, at_e) =~= d);
    assert(s.subrange(at_e, at_f) =~= e);
    assert(s.subrange(at_f, at_g) =~= f);
    assert(s.subrange(at_g, s.len() as int) =~= g);
}

/// Every region of the file starts at its offset: the headers at 0, the
/// code after them, and what follows the code where the layout says.
pub proof fn lemma_image_regions(definitions: Seq<Definition>)
    requires
        image_fits(definitions),
    ensures
        ({
            let l = layout_of(definitions);
            let file = image(definitions);
            &&& file.len() == l.file_size
            &&& file.subrange(0, HEADERS_SIZE as int) == headers(l)
            &&& file.subrange(HEADERS_SIZE as int, l.entry_point_offset as int) == code_section(
                definitions,
            )
            &&& file.subrange(l.entry_point_offset as int, l.message_buffer_offset as int)
                == driver(definitions, l)
            &&& file.subrange(l.message_buffer_offset as int, l.shstrtab_offset as int)
                == message()
            &&& file.subrange(l.shstrtab_offset as int, l.symtab_offset as int) == section_names()
            &&& file.subrange(l.symtab_offset as int, l.strtab_offset as int) == symbol_table(
                l.entry_point_offset,
                HEADERS_SIZE,
                definitions,
            )
            &&& file.subrange(l.strtab_offset as int, l.file_size as int) == symbol_names(
                definitions,
            )
        }),
{
    let l = layout_of(definitions);
    lemma_region_sizes(definitions, l);
    lemma_region_sizes(definitions, Layout::placeholder());
    lemma_seven_parts(
        headers(l),
        code_section(definitions),
        driver(definitions, l),
        message(),
        section_names(),
        symbol_table(l.entry_point_offset, HEADERS_SIZE, definitions),
        symbol_names(definitions),
    );
}

/// The headers start with the ELF header and the program header.
pub proof fn lemma_headers_start(l: Layout)
    ensures
        headers(l).len() == HEADERS_SIZE,
        headers(l).subrange(0, 0x40) == elf_header_of(l.entry_point_offset).bytes(),
        headers(l).subrange(0x40, 0x78) == program_header_of(l.shstrtab_offset).bytes(),
{
    lemma_headers_len(l);
    reveal(headers);
    lemma_elf_header_len(elf_header_of(l.entry_point_offset));
    lemma_program_header_len(program_header_of(l.shstrtab_offset));
    assert(headers(l).subrange(0, 0x40) =~= elf_header_of(l.entry_point_offset).bytes());
    assert(headers(l).subrange(0x40, 0x78) =~= program_header_of(l.shstrtab_offset).bytes());
}

/// The file starts with the ELF identification: `7F 45 4C 46`, class 2,
/// data 1, version 1.
pub proof fn lemma_image_identification(definitions: Seq<Definition>)
    requires
        image_fits(definitions),
    ensures
        image(definitions).subrange(0, 7) == seq![
            0x7fu8,
            0x45u8,
            0x4cu8,
            0x46u8,
            2u8,
            1u8,
            1u8,
        ],
{
    let l = layout_of(definitions);
    let file = image(definitions);
    lemma_image_regions(definitions);
    lemma_headers_start(l);
    lemma_identification(l.entry_point_offset);
    let h = file.subrange(0, HEADERS_SIZE as int);
    assert(file.subrange(0, 7) =~= h.subrange(0, 0x40).subrange(0, 7));
}

/// The file's one segment starts at file offset 0, is loaded at
/// `FILE_LOAD_VA`, and is as long in the file as in memory: it ends where
/// the section names start, after the code, the entry point and the
/// message.
pub proof fn lemma_image_segment(definitions: Seq<Definition>)
    requires
        image_fits(definitions),
    ensures
        ({
            let file = image(definitions);
            let end = HEADERS_SIZE + code_section(definitions).len() + ENTRY_CODE_SIZE
                + MESSAGE_SIZE;
            &&& file.subrange(0x40, 0x44) == le_bytes(1, 4)
            &&& file.subrange(0x48, 0x50) == le_bytes(0, 8)
            &&& file.subrange(0x50, 0x58) == le_bytes(FILE_LOAD_VA as nat, 8)
            &&& file.subrange(0x60, 0x68) == le_bytes(end as nat, 8)
            &&& file.subrange(0x68, 0x70) == le_bytes(end as nat, 8)
            &&& end <= file.len()
        }),
{
    let l = layout_of(definitions);
    let file = image(definitions);
    lemma_image_regions(definitions);
    lemma_region_sizes(definitions, Layout::placeholder());
    lemma_headers_start(l);
    lemma_segment_fields(l.shstrtab_offset);
    let h = file.subrange(0, HEADERS_SIZE as int).subrange(0x40, 0x78);
    assert(file.subrange(0x40, 0x44) =~= h.subrange(0, 4));
    assert(file.subrange(0x48, 0x50) =~= h.subrange(8, 16));
    assert(file.subrange(0x50, 0x58) =~= h.subrange(16, 24));
    assert(file.subrange(0x60, 0x68) =~= h.subrange(32, 40));
    assert(file.subrange(0x68, 0x70) =~= h.subrange(40, 48));
}

/// In the file, the first call lands on the first function and the
/// second call on the second: the operand of the `k`-th call, added to
/// the offset of the instruction after it, is the offset at which the
/// `k`-th function starts with `55 48 89 E5`.
pub proof fn lemma_image_calls(definitions: Seq<Definition>, k: int)
    requires
        image_fits(definitions),
        k == 0 || k == 1,
        k < definitions.len(),
    ensures
        ({
            let file = image(definitions);
            let entry = layout_of(definitions).entry_point_offset;
            let after = entry + (if k == 0 {
                FIRST_RETURN
            } else {
                SECOND_RETURN
            });
            let target = after + signed_operand(file.subrange(after - 4, after));
            &&& file[after - 5] == 0xe8u8
            &&& target == HEADERS_SIZE + code_section(definitions.take(k)).len()
            &&& file.subrange(target, target + 4) == seq![0x55u8, 0x48u8, 0x89u8, 0xe5u8]
        }),
{
    let l = layout_of(definitions);
    let file = image(definitions);
    let entry = l.entry_point_offset;
    let buffer = (FILE_LOAD_VA + l.message_buffer_offset) as u64;
    let first = distance_to(definitions, 0) as u64;
    let second = distance_to(definitions, 1) as u64;
    let code = code_section(definitions);
    let start = code_section(definitions.take(k)).len() as int;
    lemma_image_regions(definitions);
    lemma_region_sizes(definitions, Layout::placeholder());
    lemma_prefix_sizes(definitions, k);
    lemma_entry_code_calls(buffer, first, second);
    lemma_function_place(definitions, k);
    lemma_function_code_frame(definitions[k].body, definitions[k].params);
    let entry_bytes = file.subrange(entry as int, l.message_buffer_offset as int);
    assert(entry_bytes == entry_code(buffer, first, second));
    if k == 0 {
        assert(file.subrange(entry + 5, entry + 9) =~= entry_bytes.subrange(5, 9));
        assert(file[entry + 4] == entry_bytes[4]);
        lemma_call_lands(entry as nat, first as nat, FIRST_RETURN as nat);
    } else {
        assert(file.subrange(entry + 52, entry + 56) =~= entry_bytes.subrange(52, 56));
        assert(file[entry + 51] == entry_bytes[51]);
        lemma_call_lands(entry as nat, second as nat, SECOND_RETURN as nat);
    }
    let target = HEADERS_SIZE + start;
    let code_bytes = file.subrange(HEADERS_SIZE as int, entry as int);
    assert(code_bytes == code);
    assert(file.subrange(target, target + 4) =~= code.subrange(
        start,
        code_section(definitions.take(k + 1)).len() as int,
    ).subrange(0, 4));
}

/// The offsets of a file that fits are in reach.
pub proof fn lemma_layout_in_reach(definitions: Seq<Definition>)
    requires
        image_fits(definitions),
    ensures
        layout_of(definitions).in_reach(),
        layout_of(definitions).file_size == image_size(definitions),
{
    lemma_region_sizes(definitions, Layout::placeholder());
}

/// Emits the headers with the offsets of `layout`.
pub fn assemble_headers(layout: &Layout) -> (r: Vec<u8>)
    requires
        layout.in_reach(),
    ensures
        r@ == headers(*layout),
        r@.len() == HEADERS_SIZE,
{
    proof {
        reveal(headers);
    }
    let mut res = assemble_elf_header(layout.entry_point_offset);
    append(&mut res, assemble_program_header(layout.shstrtab_offset));
    append(
        &mut res,
        assemble_section_header(
            layout.file_size,
            layout.shstrtab_offset,
            layout.symtab_offset - layout.shstrtab_offset,
        ),
    );
    append(
        &mut res,
        assemble_symtab_section_header(
            layout.symtab_offset,
            layout.strtab_offset - layout.symtab_offset,
        ),
    );
    append(
        &mut res,
        assemble_strtab_section_header(
            layout.strtab_offset,
            layout.file_size - layout.strtab_offset,
        ),
    );
    res
}

/// Emits the entry point's code with the offsets of `layout`, for
/// functions whose code is `code_len` bytes long in all.
fn assemble_driver(equations: &Vec<Equation>, layout: &Layout, code_len: usize) -> (r: Vec<u8>)
    requires
        image_fits(models(equations@)),
        layout.in_reach(),
        code_len == code_section(models(equations@)).len(),
    ensures
        r@ == driver(models(equations@), *layout),
        r@.len() == ENTRY_CODE_SIZE,
{
    let ghost all = models(equations@);
    proof {
        lemma_prefix_sizes(all, 0);
        assert(code_section(all.take(0)).len() == 0);
        if all.len() >= 1 {
            lemma_prefix_sizes(all, 1);
            assert(all.take(1).drop_last() =~= Seq::<Definition>::empty());
            assert(all.take(1).last() == all[0]);
            assert(code_section(all.take(1).drop_last()) =~= Seq::<u8>::empty());
            assert(code_section(all.take(1)) =~= equation_code(all[0]));
        }
    }
    let first_distance = code_len as u64;
    let second_distance = if equations.len() >= 1 {
        (code_len - equation_to_code(&equations[0]).len()) as u64
    } else {
        0
    };
    entry_point_code(FILE_LOAD_VA + layout.message_buffer_offset, first_distance, second_distance)
}

/// One pass: emits the whole file with the offsets of `layout`, and
/// reports the offsets found on the way.
pub fn run_pass(equations: &Vec<Equation>, layout: &Layout) -> (r: (Vec<u8>, Layout))
    requires
        image_fits(models(equations@)),
        layout.in_reach(),
    ensures
        r.0@ == image_with(models(equations@), *layout),
        r.1 == measured(models(equations@), *layout),
{
    let mut assembly = assemble_headers(layout);
    let code = generate_code_section(equations);
    let code_len = code.len();
    append(&mut assembly, code);
    let entry_point_offset = assembly.len() as u64;
    append(&mut assembly, assemble_driver(equations, layout, code_len));
    let message_buffer_offset = assembly.len() as u64;
    append(&mut assembly, message_buffer());
    let shstrtab_offset = assembly.len() as u64;
    append(&mut assembly, assemble_string_table());
    let symtab_offset = assembly.len() as u64;
    append(
        &mut assembly,
        assemble_symtab_table(layout.entry_point_offset, HEADERS_SIZE, equations),
    );
    let strtab_offset = assembly.len() as u64;
    append(&mut assembly, assemble_strtab_table(equations));
    let file_size = assembly.len() as u64;
    let found = Layout {
        entry_point_offset,
        message_buffer_offset,
        shstrtab_offset,
        symtab_offset,
        strtab_offset,
        file_size,
    };
    (assembly, found)
}

/// Assembles the executable: a first pass with placeholder offsets finds
/// where everything lies, a second pass writes the file with what the first
/// found.
pub fn assemble_binary(equations: &Vec<Equation>) -> (r: Vec<u8>)
    requires
        image_fits(models(equations@)),
    ensures
        r@ == image(models(equations@)),
        r@.len() == image_size(models(equations@)),
{
    let placeholder = Layout {
        entry_point_offset: 0,
        message_buffer_offset: 0,
        shstrtab_offset: 0,
        symtab_offset: 0,
        strtab_offset: 0,
        file_size: 0,
    };
    let (_, layout) = run_pass(equations, &placeholder);
    proof {
        lemma_layout_in_reach(models(equations@));
        lemma_pass_measures(models(equations@), layout);
    }
    let (assembly, _) = run_pass(equations, &layout);
    assembly
}

/// Assembles the executable where it fits, and says so where it does
/// not.
pub fn assemble(equations: &Vec<Equation>) -> (r: Result<Vec<u8>, CompileError>)
    ensures
        match r {
            Ok(bytes) => image_fits(models(equations@)) && bytes@ == image(models(equations@)),
            Err(e) => !image_fits(models(equations@)) && e == CompileError::ImageTooLarge,
        },
{
    let limit: u64 = REACH - FILE_LOAD_VA;
    let code_len = generate_code_section(equations).len() as u64;
    let names_len = assemble_strtab_table(equations).len() as u64;
    let count = equations.len() as u64;
    if code_len > limit || names_len > limit || count > limit / SYMBOL_SIZE {
        return Err(CompileError::ImageTooLarge);
    }
    let size: u64 = HEADERS_SIZE + code_len + ENTRY_CODE_SIZE + MESSAGE_SIZE + SECTION_NAMES_SIZE
        + SYMBOL_SIZE * (2 + count) + names_len;
    if size > limit {
        return Err(CompileError::ImageTooLarge);
    }
    Ok(assemble_binary(equations))
}

/// Compiles a list of definitions to an executable: parses them, lays the
/// file out and writes it.
///
/// Fails as [`parse_input_formula`] does where the input is not
/// well-formed, and with `ImageTooLarge` where the file would not fit.
pub fn compile(input: &String) -> (r: Result<Vec<u8>, CompileError>)
    ensures
        is_compilation(input@, r),
{
    match parse_input_formula(input) {
        Ok(equations) => assemble(&equations),
        Err(e) => Err(e),
    }
}

} // verus!
