//! The records of an ELF64 file and their byte encodings.
use vstd::prelude::*;
use crate::encoding::{
    append, encode_u16, encode_u32, encode_u64, encode_u8, le_bytes, lemma_le_bytes_of_byte,
};

verus! {

/// Virtual address at which the file is mapped. Page-aligned.
pub const FILE_LOAD_VA: u64 = 4096 * 40;

/// The ELF64 file header.
#[derive(Debug, Clone, Copy, PartialEq, Eq)]
pub struct ElfHeader {
    pub signature: [u8; 4],
    pub class: u8,
    pub endianness: u8,
    pub elf_version: u8,
    pub os_abi: u8,
    pub extended_abi: u64,
    pub elf_file_type: u16,
    pub target_architecture: u16,
    pub additional_elf_version: u32,
    pub entry_point: u64,
    pub program_header_offset: u64,
    pub section_header_offset: u64,
    pub flags: u32,
    pub size_of_elf_header: u16,
    pub size_of_program_header_entry: u16,
    pub number_of_program_header_entries: u16,
    pub size_of_section_header_entry: u16,
    pub number_of_section_header_entries: u16,
    pub index_of_string_table: u16,
}

/// One entry of the program header table.
#[derive(Debug, Clone, Copy, PartialEq, Eq)]
pub struct ProgramHeader {
    pub program_header_type: u32,
    pub program_header_flags: u32,
    pub loadable_segment_offset: u64,
    pub virtual_address: u64,
    pub physical_address: u64,
    pub segment_size_in_file: u64,
    pub segment_size_in_memory: u64,
    pub segment_aligment: u64,
}

/// One entry of the section header table.
#[derive(Debug, Clone, Copy, PartialEq, Eq)]
pub struct SectionHeader {
    pub name: u32,
    pub bits: u32,
    pub flags: u64,
    pub addr: u64,
    pub offset: u64,
    pub size: u64,
    pub link: u32,
    pub info: u32,
    pub addralign: u64,
    pub entsize: u64,
}

/// One entry of the symbol table.
#[derive(Debug, Clone, Copy, PartialEq, Eq)]
pub struct SymtabEntry {
    pub name: u32,
    pub info: u8,
    pub other: u8,
    pub shndx: u16,
    pub value: u64,
    pub size: u64,
}

impl ElfHeader {
    /// The 64 bytes of the header: every field in declaration order, each
    /// at its own width, little-endian.
    pub open spec fn bytes(self) -> Seq<u8> {
        self.signature@ + le_bytes(self.class as nat, 1) + le_bytes(self.endianness as nat, 1)
            + le_bytes(self.elf_version as nat, 1) + le_bytes(self.os_abi as nat, 1) + le_bytes(
            self.extended_abi as nat,
            8,
        ) + le_bytes(self.elf_file_type as nat, 2) + le_bytes(self.target_architecture as nat, 2)
            + le_bytes(self.additional_elf_version as nat, 4) + le_bytes(self.entry_point as nat, 8)
            + le_bytes(self.program_header_offset as nat, 8) + le_bytes(
            self.section_header_offset as nat,
            8,
        ) + le_bytes(self.flags as nat, 4) + le_bytes(self.size_of_elf_header as nat, 2)
            + le_bytes(self.size_of_program_header_entry as nat, 2) + le_bytes(
            self.number_of_program_header_entries as nat,
            2,
        ) + le_bytes(self.size_of_section_header_entry as nat, 2) + le_bytes(
            self.number_of_section_header_entries as nat,
            2,
        ) + le_bytes(self.index_of_string_table as nat, 2)
    }

    /// Encodes the header.
    pub fn encode(&self) -> (r: Vec<u8>)
        ensures
            r@ == self.bytes(),
    {
        let mut out: Vec<u8> = Vec::new();
        append(&mut out, encode_u8(self.signature[0]));
        append(&mut out, encode_u8(self.signature[1]));
        append(&mut out, encode_u8(self.signature[2]));
        append(&mut out, encode_u8(self.signature[3]));
        proof {
            lemma_le_bytes_of_byte(self.signature[0]);
            lemma_le_bytes_of_byte(self.signature[1]);
            lemma_le_bytes_of_byte(self.signature[2]);
            lemma_le_bytes_of_byte(self.signature[3]);
            assert(out@ =~= self.signature@);
        }
        append(&mut out, encode_u8(self.class));
        append(&mut out, encode_u8(self.endianness));
        append(&mut out, encode_u8(self.elf_version));
        append(&mut out, encode_u8(self.os_abi));
        append(&mut out, encode_u64(self.extended_abi));
        append(&mut out, encode_u16(self.elf_file_type));
        append(&mut out, encode_u16(self.target_architecture));
        append(&mut out, encode_u32(self.additional_elf_version));
        append(&mut out, encode_u64(self.entry_point));
        append(&mut out, encode_u64(self.program_header_offset));
        append(&mut out, encode_u64(self.section_header_offset));
        append(&mut out, encode_u32(self.flags));
        append(&mut out, encode_u16(self.size_of_elf_header));
        append(&mut out, encode_u16(self.size_of_program_header_entry));
        append(&mut out, encode_u16(self.number_of_program_header_entries));
        append(&mut out, encode_u16(self.size_of_section_header_entry));
        append(&mut out, encode_u16(self.number_of_section_header_entries));
        append(&mut out, encode_u16(self.index_of_string_table));
        out
    }
}

impl ProgramHeader {
    /// The 56 bytes of the entry: every field in declaration order.
    pub open spec fn bytes(self) -> Seq<u8> {
        le_bytes(self.program_header_type as nat, 4) + le_bytes(self.program_header_flags as nat, 4)
            + le_bytes(self.loadable_segment_offset as nat, 8) + le_bytes(
            self.virtual_address as nat,
            8,
        ) + le_bytes(self.physical_address as nat, 8) + le_bytes(
            self.segment_size_in_file as nat,
            8,
        ) + le_bytes(self.segment_size_in_memory as nat, 8) + le_bytes(
            self.segment_aligment as nat,
            8,
        )
    }

    /// Encodes the entry.
    pub fn encode(&self) -> (r: Vec<u8>)
        ensures
            r@ == self.bytes(),
    {
        let mut out: Vec<u8> = encode_u32(self.program_header_type);
        append(&mut out, encode_u32(self.program_header_flags));
        append(&mut out, encode_u64(self.loadable_segment_offset));
        append(&mut out, encode_u64(self.virtual_address));
        append(&mut out, encode_u64(self.physical_address));
        append(&mut out, encode_u64(self.segment_size_in_file));
        append(&mut out, encode_u64(self.segment_size_in_memory));
        append(&mut out, encode_u64(self.segment_aligment));
        out
    }
}

impl SectionHeader {
    /// The 64 bytes of the entry: every field in declaration order.
    pub open spec fn bytes(self) -> Seq<u8> {
        le_bytes(self.name as nat, 4) + le_bytes(self.bits as nat, 4) + le_bytes(
            self.flags as nat,
            8,
        ) + le_bytes(self.addr as nat, 8) + le_bytes(self.offset as nat, 8) + le_bytes(
            self.size as nat,
            8,
        ) + le_bytes(self.link as nat, 4) + le_bytes(self.info as nat, 4) + le_bytes(
            self.addralign as nat,
            8,
        ) + le_bytes(self.entsize as nat, 8)
    }

    /// Encodes the entry.
    pub fn encode(&self) -> (r: Vec<u8>)
        ensures
            r@ == self.bytes(),
    {
        let mut out: Vec<u8> = encode_u32(self.name);
        append(&mut out, encode_u32(self.bits));
        append(&mut out, encode_u64(self.flags));
        append(&mut out, encode_u64(self.addr));
        append(&mut out, encode_u64(self.offset));
        append(&mut out, encode_u64(self.size));
        append(&mut out, encode_u32(self.link));
        append(&mut out, encode_u32(self.info));
        append(&mut out, encode_u64(self.addralign));
        append(&mut out, encode_u64(self.entsize));
        out
    }
}

impl SymtabEntry {
    /// The 24 bytes of the entry: every field in declaration order.
    pub open spec fn bytes(self) -> Seq<u8> {
        le_bytes(self.name as nat, 4) + le_bytes(self.info as nat, 1) + le_bytes(
            self.other as nat,
            1,
        ) + le_bytes(self.shndx as nat, 2) + le_bytes(self.value as nat, 8) + le_bytes(
            self.size as nat,
            8,
        )
    }

    /// Encodes the entry.
    pub fn encode(&self) -> (r: Vec<u8>)
        ensures
            r@ == self.bytes(),
    {
        let mut out: Vec<u8> = encode_u32(self.name);
        append(&mut out, encode_u8(self.info));
        append(&mut out, encode_u8(self.other));
        append(&mut out, encode_u16(self.shndx));
        append(&mut out, encode_u64(self.value));
        append(&mut out, encode_u64(self.size));
        out
    }
}

} // verus!
