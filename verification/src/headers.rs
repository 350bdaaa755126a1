//! The headers of the file: what each says, and its bytes.
use vstd::prelude::*;
use crate::elf::{ElfHeader, ProgramHeader, SectionHeader, FILE_LOAD_VA};
use crate::encoding::{append, le_bytes, lemma_le_bytes_len, lemma_le_bytes_of_byte};

verus! {

/// The header of an executable for x86-64 whose entry point lies at the
/// given file offset.
pub open spec fn elf_header_of(entry_point_offset: u64) -> ElfHeader {
    ElfHeader {
        signature: [0x7fu8, 0x45u8, 0x4cu8, 0x46u8],
        class: 2,
        endianness: 1,
        elf_version: 1,
        os_abi: 0,
        extended_abi: 0,
        elf_file_type: 2,
        target_architecture: 0x3e,
        additional_elf_version: 1,
        entry_point: (FILE_LOAD_VA + entry_point_offset) as u64,
        program_header_offset: 0x40,
        section_header_offset: 0x78,
        flags: 0,
        size_of_elf_header: 64,
        size_of_program_header_entry: 0x38,
        number_of_program_header_entries: 1,
        size_of_section_header_entry: 0x40,
        number_of_section_header_entries: 5,
        index_of_string_table: 2,
    }
}

/// The one segment: `segment_size` bytes from the start of the file,
/// loaded at `FILE_LOAD_VA`, readable, writable and executable.
pub open spec fn program_header_of(segment_size: u64) -> ProgramHeader {
    ProgramHeader {
        program_header_type: 1,
        program_header_flags: 7,
        loadable_segment_offset: 0,
        virtual_address: FILE_LOAD_VA,
        physical_address: FILE_LOAD_VA,
        segment_size_in_file: segment_size,
        segment_size_in_memory: segment_size,
        segment_aligment: 0x200000,
    }
}

/// The section header that every table starts with: all zero.
pub open spec fn null_section_header() -> SectionHeader {
    SectionHeader {
        name: 0,
        bits: 0,
        flags: 0,
        addr: 0,
        offset: 0,
        size: 0,
        link: 0,
        info: 0,
        addralign: 0,
        entsize: 0,
    }
}

/// The header of `.text`: the whole file, loaded at `FILE_LOAD_VA`.
pub open spec fn text_section_header_of(file_size: u64) -> SectionHeader {
    SectionHeader {
        name: 1,
        bits: 1,
        flags: 7,
        addr: FILE_LOAD_VA,
        offset: 0,
        size: file_size,
        link: 0,
        info: 0,
        addralign: 0,
        entsize: 0,
    }
}

/// The header of `.shstrtab`, the table of section names.
pub open spec fn shstrtab_section_header_of(offset: u64, size: u64) -> SectionHeader {
    SectionHeader {
        name: 7,
        bits: 3,
        flags: 0,
        addr: (FILE_LOAD_VA + offset) as u64,
        offset,
        size,
        link: 0,
        info: 0,
        addralign: 1,
        entsize: 0,
    }
}

/// The header of `.symtab`, whose names are in section 4.
pub open spec fn symtab_section_header_of(offset: u64, size: u64) -> SectionHeader {
    SectionHeader {
        name: 17,
        bits: 2,
        flags: 0,
        addr: 0,
        offset,
        size,
        link: 4,
        info: 0,
        addralign: 0,
        entsize: 0x18,
    }
}

/// The header of `.strtab`, the table of symbol names.
pub open spec fn strtab_section_header_of(offset: u64, size: u64) -> SectionHeader {
    SectionHeader {
        name: 25,
        bits: 3,
        flags: 0,
        addr: 0,
        offset,
        size,
        link: 0,
        info: 0,
        addralign: 0,
        entsize: 0,
    }
}

/// The first three section headers: null, `.text`, `.shstrtab`.
pub open spec fn section_headers(
    file_size: u64,
    string_table_offset: u64,
    string_table_size: u64,
) -> Seq<u8> {
    null_section_header().bytes() + text_section_header_of(file_size).bytes()
        + shstrtab_section_header_of(string_table_offset, string_table_size).bytes()
}

/// The ELF header is 64 bytes long.
pub proof fn lemma_elf_header_len(h: ElfHeader)
    ensures
        h.bytes().len() == 64,
{
    broadcast use lemma_le_bytes_len;
}

/// A program header is 56 bytes long.
pub proof fn lemma_program_header_len(h: ProgramHeader)
    ensures
        h.bytes().len() == 56,
{
    broadcast use lemma_le_bytes_len;
}

/// A section header is 64 bytes long.
pub proof fn lemma_section_header_len(h: SectionHeader)
    ensures
        h.bytes().len() == 64,
{
    broadcast use lemma_le_bytes_len;
}

/// Every ELF header that the library writes starts with `7F 45 4C 46`
/// and says class 2 (64 bits), data 1 (little-endian), version 1.
pub proof fn lemma_identification(entry_point_offset: u64)
    ensures
        elf_header_of(entry_point_offset).bytes().len() == 64,
        elf_header_of(entry_point_offset).bytes().subrange(0, 7) == seq![
            0x7fu8,
            0x45u8,
            0x4cu8,
            0x46u8,
            2u8,
            1u8,
            1u8,
        ],
{
    broadcast use lemma_le_bytes_len;
    let h = elf_header_of(entry_point_offset);
    lemma_le_bytes_of_byte(2u8);
    lemma_le_bytes_of_byte(1u8);
    assert(h.signature@ =~= seq![0x7fu8, 0x45u8, 0x4cu8, 0x46u8]);
    assert(h.bytes().subrange(0, 7) =~= seq![0x7fu8, 0x45u8, 0x4cu8, 0x46u8, 2u8, 1u8, 1u8]);
}

/// The program header says: a loadable segment from file offset 0, at
/// `FILE_LOAD_VA`, as long in memory as in the file.
pub proof fn lemma_segment_fields(segment_size: u64)
    ensures
        ({
            let h = program_header_of(segment_size).bytes();
            &&& h.len() == 56
            &&& h.subrange(0, 4) == le_bytes(1, 4)
            &&& h.subrange(8, 16) == le_bytes(0, 8)
            &&& h.subrange(16, 24) == le_bytes(FILE_LOAD_VA as nat, 8)
            &&& h.subrange(32, 40) == le_bytes(segment_size as nat, 8)
            &&& h.subrange(40, 48) == le_bytes(segment_size as nat, 8)
        }),
{
    broadcast use lemma_le_bytes_len;
    let h = program_header_of(segment_size).bytes();
    assert(h.subrange(0, 4) =~= le_bytes(1, 4));
    assert(h.subrange(8, 16) =~= le_bytes(0, 8));
    assert(h.subrange(16, 24) =~= le_bytes(FILE_LOAD_VA as nat, 8));
    assert(h.subrange(32, 40) =~= le_bytes(segment_size as nat, 8));
    assert(h.subrange(40, 48) =~= le_bytes(segment_size as nat, 8));
}

/// Emits the ELF header.
pub fn assemble_elf_header(entry_point_offset: u64) -> (r: Vec<u8>)
    requires
        FILE_LOAD_VA + entry_point_offset <= u64::MAX,
    ensures
        r@ == elf_header_of(entry_point_offset).bytes(),
        r@.len() == 64,
{
    let elf = ElfHeader {
        signature: [0x7f, 0x45, 0x4c, 0x46],
        class: 2,
        endianness: 1,
        elf_version: 1,
        os_abi: 0,
        extended_abi: 0,
        elf_file_type: 2,
        target_architecture: 0x3e,
        additional_elf_version: 1,
        entry_point: FILE_LOAD_VA + entry_point_offset,
        program_header_offset: 0x40,
        section_header_offset: 0x78,
        flags: 0,
        size_of_elf_header: 64,
        size_of_program_header_entry: 0x38,
        number_of_program_header_entries: 1,
        size_of_section_header_entry: 0x40,
        number_of_section_header_entries: 5,
        index_of_string_table: 2,
    };
    proof {
        assert(elf.signature@ =~= elf_header_of(entry_point_offset).signature@);
        lemma_elf_header_len(elf);
    }
    elf.encode()
}

/// Emits the program header.
pub fn assemble_program_header(segment_size: u64) -> (r: Vec<u8>)
    ensures
        r@ == program_header_of(segment_size).bytes(),
        r@.len() == 56,
{
    let ph = ProgramHeader {
        program_header_type: 1,
        program_header_flags: 7,
        loadable_segment_offset: 0,
        virtual_address: FILE_LOAD_VA,
        physical_address: FILE_LOAD_VA,
        segment_size_in_file: segment_size,
        segment_size_in_memory: segment_size,
        segment_aligment: 0x200000,
    };
    proof {
        lemma_program_header_len(ph);
    }
    ph.encode()
}

/// Emits the first three section headers: null, `.text`, `.shstrtab`.
pub fn assemble_section_header(
    file_size: u64,
    string_table_offset: u64,
    string_table_size: u64,
) -> (r: Vec<u8>)
    requires
        FILE_LOAD_VA + string_table_offset <= u64::MAX,
    ensures
        r@ == section_headers(file_size, string_table_offset, string_table_size),
        r@.len() == 192,
{
    let null = SectionHeader {
        name: 0,
        bits: 0,
        flags: 0,
        addr: 0,
        offset: 0,
        size: 0,
        link: 0,
        info: 0,
        addralign: 0,
        entsize: 0,
    };
    let text = SectionHeader {
        name: 1,
        bits: 1,
        flags: 7,
        addr: FILE_LOAD_VA,
        offset: 0,
        size: file_size,
        link: 0,
        info: 0,
        addralign: 0,
        entsize: 0,
    };
    let shstrtab = SectionHeader {
        name: 7,
        bits: 3,
        flags: 0,
        addr: FILE_LOAD_VA + string_table_offset,
        offset: string_table_offset,
        size: string_table_size,
        link: 0,
        info: 0,
        addralign: 1,
        entsize: 0,
    };
    proof {
        lemma_section_header_len(null);
        lemma_section_header_len(text);
        lemma_section_header_len(shstrtab);
    }
    let mut res = null.encode();
    append(&mut res, text.encode());
    append(&mut res, shstrtab.encode());
    res
}

/// Emits the section header of `.symtab`.
pub fn assemble_symtab_section_header(symtab_offset: u64, symtab_table_size: u64) -> (r: Vec<u8>)
    ensures
        r@ == symtab_section_header_of(symtab_offset, symtab_table_size).bytes(),
        r@.len() == 64,
{
    let sh = SectionHeader {
        name: 17,
        bits: 2,
        flags: 0,
        addr: 0,
        offset: symtab_offset,
        size: symtab_table_size,
        link: 4,
        info: 0,
        addralign: 0,
        entsize: 0x18,
    };
    proof {
        lemma_section_header_len(sh);
    }
    sh.encode()
}

/// Emits the section header of `.strtab`.
pub fn assemble_strtab_section_header(strtab_offset: u64, strtab_table_size: u64) -> (r: Vec<u8>)
    ensures
        r@ == strtab_section_header_of(strtab_offset, strtab_table_size).bytes(),
        r@.len() == 64,
{
    let sh = SectionHeader {
        name: 25,
        bits: 3,
        flags: 0,
        addr: 0,
        offset: strtab_offset,
        size: strtab_table_size,
        link: 0,
        info: 0,
        addralign: 0,
        entsize: 0,
    };
    proof {
        lemma_section_header_len(sh);
    }
    sh.encode()
}

} // verus!
