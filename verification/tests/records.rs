use minicomp::encoding::to_le_bytes;
use minicomp::{ElfHeader, ProgramHeader, SectionHeader, SymtabEntry, FILE_LOAD_VA};

#[test]
fn load_address_is_forty_pages() {
    assert_eq!(FILE_LOAD_VA, 4096 * 40);
    assert_eq!(FILE_LOAD_VA, 0x28000);
}

#[test]
fn to_le_bytes_puts_the_low_byte_first() {
    assert_eq!(to_le_bytes(0x0102030405060708, 8), vec![8, 7, 6, 5, 4, 3, 2, 1]);
    assert_eq!(to_le_bytes(0x0102030405060708, 4), vec![8, 7, 6, 5]);
    assert_eq!(to_le_bytes(0x1234, 2), vec![0x34, 0x12]);
    assert_eq!(to_le_bytes(0xab, 1), vec![0xab]);
    assert_eq!(to_le_bytes(0xab, 0), Vec::<u8>::new());
    assert_eq!(to_le_bytes(1, 10), vec![1, 0, 0, 0, 0, 0, 0, 0, 0, 0]);
}

#[test]
fn elf_header_encodes_every_field_little_endian() {
    let header = ElfHeader {
        signature: [0xa1, 0xa2, 0xa3, 0xa4],
        class: 0xb1,
        endianness: 0xb2,
        elf_version: 0xb3,
        os_abi: 0xb4,
        extended_abi: 0xc1c2c3c4c5c6c7c8,
        elf_file_type: 0xd1d2,
        target_architecture: 0xd3d4,
        additional_elf_version: 0xe1e2e3e4,
        entry_point: 0x1112131415161718,
        program_header_offset: 0x2122232425262728,
        section_header_offset: 0x3132333435363738,
        flags: 0x41424344,
        size_of_elf_header: 0x5152,
        size_of_program_header_entry: 0x5354,
        number_of_program_header_entries: 0x5556,
        size_of_section_header_entry: 0x5758,
        number_of_section_header_entries: 0x595a,
        index_of_string_table: 0x5b5c,
    };
    assert_eq!(
        header.encode(),
        vec![
            0xa1, 0xa2, 0xa3, 0xa4, 0xb1, 0xb2, 0xb3, 0xb4, 0xc8, 0xc7, 0xc6, 0xc5, 0xc4, 0xc3,
            0xc2, 0xc1, 0xd2, 0xd1, 0xd4, 0xd3, 0xe4, 0xe3, 0xe2, 0xe1, 0x18, 0x17, 0x16, 0x15,
            0x14, 0x13, 0x12, 0x11, 0x28, 0x27, 0x26, 0x25, 0x24, 0x23, 0x22, 0x21, 0x38, 0x37,
            0x36, 0x35, 0x34, 0x33, 0x32, 0x31, 0x44, 0x43, 0x42, 0x41, 0x52, 0x51, 0x54, 0x53,
            0x56, 0x55, 0x58, 0x57, 0x5a, 0x59, 0x5c, 0x5b,
        ]
    );
}

#[test]
fn program_header_encodes_every_field_little_endian() {
    let header = ProgramHeader {
        program_header_type: 0x01020304,
        program_header_flags: 0x05060708,
        loadable_segment_offset: 0x1112131415161718,
        virtual_address: 0x2122232425262728,
        physical_address: 0x3132333435363738,
        segment_size_in_file: 0x4142434445464748,
        segment_size_in_memory: 0x5152535455565758,
        segment_aligment: 0x6162636465666768,
    };
    assert_eq!(
        header.encode(),
        vec![
            0x04, 0x03, 0x02, 0x01, 0x08, 0x07, 0x06, 0x05, 0x18, 0x17, 0x16, 0x15, 0x14, 0x13,
            0x12, 0x11, 0x28, 0x27, 0x26, 0x25, 0x24, 0x23, 0x22, 0x21, 0x38, 0x37, 0x36, 0x35,
            0x34, 0x33, 0x32, 0x31, 0x48, 0x47, 0x46, 0x45, 0x44, 0x43, 0x42, 0x41, 0x58, 0x57,
            0x56, 0x55, 0x54, 0x53, 0x52, 0x51, 0x68, 0x67, 0x66, 0x65, 0x64, 0x63, 0x62, 0x61,
        ]
    );
}

#[test]
fn section_header_encodes_every_field_little_endian() {
    let header = SectionHeader {
        name: 0x01020304,
        bits: 0x05060708,
        flags: 0x1112131415161718,
        addr: 0x2122232425262728,
        offset: 0x3132333435363738,
        size: 0x4142434445464748,
        link: 0x51525354,
        info: 0x55565758,
        addralign: 0x6162636465666768,
        entsize: 0x7172737475767778,
    };
    assert_eq!(
        header.encode(),
        vec![
            0x04, 0x03, 0x02, 0x01, 0x08, 0x07, 0x06, 0x05, 0x18, 0x17, 0x16, 0x15, 0x14, 0x13,
            0x12, 0x11, 0x28, 0x27, 0x26, 0x25, 0x24, 0x23, 0x22, 0x21, 0x38, 0x37, 0x36, 0x35,
            0x34, 0x33, 0x32, 0x31, 0x48, 0x47, 0x46, 0x45, 0x44, 0x43, 0x42, 0x41, 0x54, 0x53,
            0x52, 0x51, 0x58, 0x57, 0x56, 0x55, 0x68, 0x67, 0x66, 0x65, 0x64, 0x63, 0x62, 0x61,
            0x78, 0x77, 0x76, 0x75, 0x74, 0x73, 0x72, 0x71,
        ]
    );
}

#[test]
fn symtab_entry_encodes_every_field_little_endian() {
    let entry = SymtabEntry {
        name: 0x01020304,
        info: 0x05,
        other: 0x06,
        shndx: 0x0708,
        value: 0x1112131415161718,
        size: 0x2122232425262728,
    };
    assert_eq!(
        entry.encode(),
        vec![
            0x04, 0x03, 0x02, 0x01, 0x05, 0x06, 0x08, 0x07, 0x18, 0x17, 0x16, 0x15, 0x14, 0x13,
            0x12, 0x11, 0x28, 0x27, 0x26, 0x25, 0x24, 0x23, 0x22, 0x21,
        ]
    );
}
