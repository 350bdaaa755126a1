use minicomp::image::{assemble_headers, run_pass};
use minicomp::{
    assemble, assemble_binary, assemble_elf_header, assemble_program_header,
    assemble_section_header, assemble_string_table, assemble_strtab_section_header,
    assemble_strtab_table, assemble_symtab_section_header, assemble_symtab_table, compile,
    entry_point_code, equation_to_code, message_buffer, parse_input_formula, CompileError,
    Equation, Layout,
};

const TWO: &str = "avg(x,y)=(x+y)/2; quad(a,b,c,d)=2*2*a+30*b+4";

fn equations_of(text: &str) -> Vec<Equation> {
    parse_input_formula(&String::from(text)).unwrap()
}

fn compiled_bytes(text: &str) -> Vec<u8> {
    compile(&String::from(text)).unwrap()
}

fn u16_at(bytes: &[u8], at: usize) -> u16 {
    u16::from_le_bytes([bytes[at], bytes[at + 1]])
}

fn u32_at(bytes: &[u8], at: usize) -> u32 {
    u32::from_le_bytes([bytes[at], bytes[at + 1], bytes[at + 2], bytes[at + 3]])
}

fn u64_at(bytes: &[u8], at: usize) -> u64 {
    let mut word = [0u8; 8];
    word.copy_from_slice(&bytes[at..at + 8]);
    u64::from_le_bytes(word)
}

#[test]
fn elf_header_bytes() {
    assert_eq!(
        assemble_elf_header(0x204),
        vec![
            0x7f, 0x45, 0x4c, 0x46, 0x02, 0x01, 0x01, 0x00, // magic, class, data, version, abi
            0x00, 0x00, 0x00, 0x00, 0x00, 0x00, 0x00, 0x00, // padding
            0x02, 0x00, 0x3e, 0x00, 0x01, 0x00, 0x00, 0x00, // type, machine, version
            0x04, 0x82, 0x02, 0x00, 0x00, 0x00, 0x00, 0x00, // entry
            0x40, 0x00, 0x00, 0x00, 0x00, 0x00, 0x00, 0x00, // program headers
            0x78, 0x00, 0x00, 0x00, 0x00, 0x00, 0x00, 0x00, // section headers
            0x00, 0x00, 0x00, 0x00, 0x40, 0x00, 0x38, 0x00, // flags, sizes
            0x01, 0x00, 0x40, 0x00, 0x05, 0x00, 0x02, 0x00, // counts, names index
        ]
    );
}

#[test]
fn program_header_bytes() {
    assert_eq!(
        assemble_program_header(0x269),
        vec![
            0x01, 0x00, 0x00, 0x00, 0x07, 0x00, 0x00, 0x00, // PT_LOAD, RWX
            0x00, 0x00, 0x00, 0x00, 0x00, 0x00, 0x00, 0x00, // offset
            0x00, 0x80, 0x02, 0x00, 0x00, 0x00, 0x00, 0x00, // vaddr
            0x00, 0x80, 0x02, 0x00, 0x00, 0x00, 0x00, 0x00, // paddr
            0x69, 0x02, 0x00, 0x00, 0x00, 0x00, 0x00, 0x00, // filesz
            0x69, 0x02, 0x00, 0x00, 0x00, 0x00, 0x00, 0x00, // memsz
            0x00, 0x00, 0x20, 0x00, 0x00, 0x00, 0x00, 0x00, // align
        ]
    );
}

#[test]
fn section_header_bytes() {
    let bytes = assemble_section_header(0x300, 0x269, 0x21);
    assert_eq!(bytes.len(), 192);
    assert_eq!(&bytes[..64], &[0u8; 64]);
    let text = &bytes[64..128];
    assert_eq!(u32_at(text, 0), 1);
    assert_eq!(u32_at(text, 4), 1);
    assert_eq!(u64_at(text, 8), 7);
    assert_eq!(u64_at(text, 16), 0x28000);
    assert_eq!(u64_at(text, 24), 0);
    assert_eq!(u64_at(text, 32), 0x300);
    assert_eq!(&text[40..], &[0u8; 24]);
    let names = &bytes[128..];
    assert_eq!(u32_at(names, 0), 7);
    assert_eq!(u32_at(names, 4), 3);
    assert_eq!(u64_at(names, 8), 0);
    assert_eq!(u64_at(names, 16), 0x28269);
    assert_eq!(u64_at(names, 24), 0x269);
    assert_eq!(u64_at(names, 32), 0x21);
    assert_eq!(u32_at(names, 40), 0);
    assert_eq!(u32_at(names, 44), 0);
    assert_eq!(u64_at(names, 48), 1);
    assert_eq!(u64_at(names, 56), 0);
}

#[test]
fn symtab_section_header_bytes() {
    let bytes = assemble_symtab_section_header(0x28a, 0x60);
    assert_eq!(bytes.len(), 64);
    assert_eq!(u32_at(&bytes, 0), 17);
    assert_eq!(u32_at(&bytes, 4), 2);
    assert_eq!(u64_at(&bytes, 8), 0);
    assert_eq!(u64_at(&bytes, 16), 0);
    assert_eq!(u64_at(&bytes, 24), 0x28a);
    assert_eq!(u64_at(&bytes, 32), 0x60);
    assert_eq!(u32_at(&bytes, 40), 4);
    assert_eq!(u32_at(&bytes, 44), 0);
    assert_eq!(u64_at(&bytes, 48), 0);
    assert_eq!(u64_at(&bytes, 56), 0x18);
}

#[test]
fn strtab_section_header_bytes() {
    let bytes = assemble_strtab_section_header(0x2ea, 0x16);
    assert_eq!(bytes.len(), 64);
    assert_eq!(u32_at(&bytes, 0), 25);
    assert_eq!(u32_at(&bytes, 4), 3);
    assert_eq!(u64_at(&bytes, 8), 0);
    assert_eq!(u64_at(&bytes, 16), 0);
    assert_eq!(u64_at(&bytes, 24), 0x2ea);
    assert_eq!(u64_at(&bytes, 32), 0x16);
    assert_eq!(&bytes[40..], &[0u8; 24]);
}

#[test]
fn section_names_table() {
    assert_eq!(assemble_string_table(), b"\0.text\0.shstrtab\0.symtab\0.strtab\0".to_vec());
}

#[test]
fn symbol_names_follow_the_definitions() {
    assert_eq!(assemble_strtab_table(&equations_of(TWO)), b"\0entry_point\0avg\0quad\0".to_vec());
    assert_eq!(assemble_strtab_table(&equations_of("")), b"\0entry_point\0".to_vec());
    assert_eq!(
        assemble_strtab_table(&equations_of("one(x)=x;two_2(x)=x;t(x)=x")),
        b"\0entry_point\0one\0two_2\0t\0".to_vec()
    );
}

#[test]
fn symbol_table_has_one_entry_for_each_function() {
    let equations = equations_of(TWO);
    let table = assemble_symtab_table(0x204, 0x1b8, &equations);
    assert_eq!(table.len(), 4 * 24);
    assert_eq!(&table[..24], &[0u8; 24]);
    let entry = &table[24..48];
    assert_eq!(u32_at(entry, 0), 1);
    assert_eq!(entry[4], 0x10);
    assert_eq!(entry[5], 0);
    assert_eq!(u16_at(entry, 6), 1);
    assert_eq!(u64_at(entry, 8), 0x28204);
    assert_eq!(u64_at(entry, 16), 0);
    let avg = &table[48..72];
    assert_eq!(u32_at(avg, 0), 0x0d);
    assert_eq!(avg[4], 0);
    assert_eq!(avg[5], 0);
    assert_eq!(u16_at(avg, 6), 1);
    assert_eq!(u64_at(avg, 8), 0x281b8);
    assert_eq!(u64_at(avg, 16), 0);
    let quad = &table[72..];
    assert_eq!(u32_at(quad, 0), 0x11);
    assert_eq!(u16_at(quad, 6), 1);
    assert_eq!(u64_at(quad, 8), 0x281b8 + 25);
    assert_eq!(u64_at(quad, 16), 0);
    assert_eq!(assemble_symtab_table(0, 0, &equations_of("")).len(), 48);
}

#[test]
fn entry_point_code_bytes() {
    assert_eq!(
        entry_point_code(0x2825b, 76, 51),
        vec![
            0x6a, 0x64, 0x6a, 0x50, // push 100; push 80
            0xe8, 0xab, 0xff, 0xff, 0xff, // call -85
            0x88, 0x04, 0x25, 0x5b, 0x82, 0x02, 0x00, // mov [0x2825b], al
            0xb8, 0x01, 0x00, 0x00, 0x00, 0xbf, 0x01, 0x00, 0x00, 0x00, // mov eax, 1; mov edi, 1
            0x48, 0xbe, 0x5b, 0x82, 0x02, 0x00, 0x00, 0x00, 0x00, 0x00, // movabs rsi
            0xba, 0x0e, 0x00, 0x00, 0x00, 0x0f, 0x05, // mov edx, 14; syscall
            0x6a, 0x04, 0x6a, 0x1e, 0x6a, 0x01, 0x6a, 0x02, // push 4; 30; 1; 2
            0xe8, 0x95, 0xff, 0xff, 0xff, // call -107
            0x88, 0x04, 0x25, 0x5b, 0x82, 0x02, 0x00, // mov [0x2825b], al
            0xb8, 0x01, 0x00, 0x00, 0x00, 0xba, 0x0e, 0x00, 0x00, 0x00, 0x0f, 0x05, // write
            0xb8, 0x3c, 0x00, 0x00, 0x00, 0xbf, 0x00, 0x00, 0x00, 0x00, 0x0f, 0x05, // exit(0)
        ]
    );
}

#[test]
fn entry_point_code_with_the_distances_of_a_72_and_47_byte_pair() {
    let code = entry_point_code(0x281a0, 72, 47);
    assert_eq!(code.len(), 87);
    assert_eq!(&code[4..9], &[0xe8, 0xaf, 0xff, 0xff, 0xff]);
    assert_eq!(&code[51..56], &[0xe8, 0x99, 0xff, 0xff, 0xff]);
    assert_eq!(&code[12..16], &[0xa0, 0x81, 0x02, 0x00]);
}

#[test]
fn entry_point_code_at_the_edge_of_its_reach() {
    let code = entry_point_code(0x7fff_ffff, 0x8000_0000 - 9, 0x8000_0000 - 56);
    assert_eq!(&code[4..9], &[0xe8, 0x00, 0x00, 0x00, 0x80]);
    assert_eq!(&code[51..56], &[0xe8, 0x00, 0x00, 0x00, 0x80]);
    assert_eq!(&code[12..16], &[0xff, 0xff, 0xff, 0x7f]);
    let code = entry_point_code(0, 0, 0);
    assert_eq!(&code[4..9], &[0xe8, 0xf7, 0xff, 0xff, 0xff]);
    assert_eq!(&code[51..56], &[0xe8, 0xc8, 0xff, 0xff, 0xff]);
}

#[test]
fn message_is_fourteen_bytes() {
    assert_eq!(message_buffer(), b"H <- result \n\0".to_vec());
    assert_eq!(message_buffer().len(), 14);
}

#[test]
fn image_of_two_functions() {
    let image = compiled_bytes(TWO);
    assert_eq!(image.len(), 768);
    assert_eq!(&image[..4], &[0x7f, 0x45, 0x4c, 0x46]);
    assert_eq!(&image[4..7], &[2, 1, 1]);
    assert_eq!(u16_at(&image, 16), 2);
    assert_eq!(u16_at(&image, 18), 0x3e);
    assert_eq!(u64_at(&image, 24), 0x28000 + 516);
    assert_eq!(u64_at(&image, 32), 0x40);
    assert_eq!(u64_at(&image, 40), 0x78);
    assert_eq!(u16_at(&image, 60), 5);
    assert_eq!(u16_at(&image, 62), 2);
    // the loadable segment
    assert_eq!(u32_at(&image, 0x40), 1);
    assert_eq!(u32_at(&image, 0x44), 7);
    assert_eq!(u64_at(&image, 0x48), 0);
    assert_eq!(u64_at(&image, 0x50), 0x28000);
    assert_eq!(u64_at(&image, 0x58), 0x28000);
    assert_eq!(u64_at(&image, 0x60), 617);
    assert_eq!(u64_at(&image, 0x68), 617);
    assert_eq!(u64_at(&image, 0x70), 0x200000);
    // section headers: .text, .shstrtab, .symtab, .strtab
    assert_eq!(u64_at(&image, 0x78 + 64 + 32), 768);
    assert_eq!(u64_at(&image, 0x78 + 128 + 24), 617);
    assert_eq!(u64_at(&image, 0x78 + 128 + 32), 33);
    assert_eq!(u64_at(&image, 0x78 + 192 + 24), 650);
    assert_eq!(u64_at(&image, 0x78 + 192 + 32), 96);
    assert_eq!(u64_at(&image, 0x78 + 256 + 24), 746);
    assert_eq!(u64_at(&image, 0x78 + 256 + 32), 22);
    // code, entry point, message
    let equations = equations_of(TWO);
    assert_eq!(&image[440..465], &equation_to_code(&equations[0])[..]);
    assert_eq!(&image[465..516], &equation_to_code(&equations[1])[..]);
    assert_eq!(&image[516..603], &entry_point_code(0x28000 + 603, 76, 51)[..]);
    assert_eq!(&image[603..617], b"H <- result \n\0");
    assert_eq!(&image[617..650], b"\0.text\0.shstrtab\0.symtab\0.strtab\0");
    assert_eq!(&image[650..746], &assemble_symtab_table(516, 440, &equations)[..]);
    assert_eq!(&image[746..], b"\0entry_point\0avg\0quad\0");
}

#[test]
fn calls_land_on_the_prologues() {
    let image = compiled_bytes(TWO);
    let entry = 516i64;
    let first = u32_at(&image, 516 + 5) as i32 as i64;
    let second = u32_at(&image, 516 + 52) as i32 as i64;
    assert_eq!(entry + 9 + first, 440);
    assert_eq!(entry + 56 + second, 465);
    assert_eq!(&image[440..444], &[0x55, 0x48, 0x89, 0xe5]);
    assert_eq!(&image[465..469], &[0x55, 0x48, 0x89, 0xe5]);
}

#[test]
fn image_of_the_identity_function() {
    let image = compiled_bytes("f(x)=x");
    assert_eq!(&image[440..450], &[0x55, 0x48, 0x89, 0xe5, 0x48, 0x8b, 0x4d, 0x10, 0x5d, 0xc3]);
    assert_eq!(u64_at(&image, 24), 0x28000 + 450);
    assert_eq!(image.len(), 440 + 10 + 87 + 14 + 33 + 72 + 15);
    assert_eq!(&image[image.len() - 15..], b"\0entry_point\0f\0");
    // the first call goes to f, the second to the entry point
    assert_eq!(u32_at(&image, 450 + 5), 0u32.wrapping_sub(19));
    assert_eq!(u32_at(&image, 450 + 52), 0u32.wrapping_sub(56));
}

#[test]
fn image_without_functions() {
    let image = compiled_bytes("");
    assert_eq!(image.len(), 440 + 87 + 14 + 33 + 48 + 13);
    assert_eq!(u64_at(&image, 24), 0x28000 + 440);
    assert_eq!(u32_at(&image, 440 + 5), 0u32.wrapping_sub(9));
}

#[test]
fn both_passes_write_the_same_number_of_bytes() {
    for text in ["", "f(x)=x", TWO, "a(x)=1;b(x)=2;c(x)=3"] {
        let equations = equations_of(text);
        let placeholder = Layout {
            entry_point_offset: 0,
            message_buffer_offset: 0,
            shstrtab_offset: 0,
            symtab_offset: 0,
            strtab_offset: 0,
            file_size: 0,
        };
        let (first, found) = run_pass(&equations, &placeholder);
        let (second, again) = run_pass(&equations, &found);
        assert_eq!(first.len(), second.len());
        assert_eq!(found, again);
        assert_eq!(found.file_size, second.len() as u64);
        assert_eq!(second, assemble_binary(&equations));
    }
}

#[test]
fn first_pass_finds_the_offsets() {
    let placeholder = Layout {
        entry_point_offset: 0,
        message_buffer_offset: 0,
        shstrtab_offset: 0,
        symtab_offset: 0,
        strtab_offset: 0,
        file_size: 0,
    };
    let (_, found) = run_pass(&equations_of(TWO), &placeholder);
    assert_eq!(
        found,
        Layout {
            entry_point_offset: 516,
            message_buffer_offset: 603,
            shstrtab_offset: 617,
            symtab_offset: 650,
            strtab_offset: 746,
            file_size: 768,
        }
    );
    assert_eq!(assemble_headers(&found).len(), 440);
}

#[test]
fn compiling_twice_gives_the_same_bytes() {
    assert_eq!(compiled_bytes(TWO), compiled_bytes(TWO));
    assert_eq!(
        compile(&String::from("f(x)=x+")),
        compile(&String::from("f(x)=x+"))
    );
}

#[test]
fn compile_fails_on_dangling_operator() {
    assert_eq!(compile(&String::from("f(x)=x+")), Err(CompileError::ParseError));
}

#[test]
fn compile_fails_on_unexpected_character() {
    assert_eq!(compile(&String::from("f(x)=x%2")), Err(CompileError::LexError('%')));
}

#[test]
fn compile_ignores_extra_whitespace() {
    assert_eq!(
        compiled_bytes("  f(x,y)  =  x + y  ;  g(x)=x"),
        compiled_bytes("f(x,y)=x+y;g(x)=x")
    );
}

#[test]
fn assemble_agrees_with_compile() {
    assert_eq!(assemble(&equations_of(TWO)), compile(&String::from(TWO)));
}
