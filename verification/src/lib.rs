//! A miniature ahead-of-time compiler: arithmetic function definitions go in
//! as text, a statically loadable ELF64 executable for x86-64 Linux comes out.
//!
//! ```text
//! avg(x,y)=(x+y)/2; quad(a,b,c,d)=2*2*a+30*b+4
//! ```
//!
//! The pipeline, leaves first:
//!
//! - [`lexer`] turns expression text into tokens;
//! - [`parser`] builds expression trees, and [`printing`] states what
//!   parsing and printing have to do with each other;
//! - [`definitions`] splits the input into equations, with the help of
//!   [`text`];
//! - [`codegen`] lowers each equation to machine code;
//! - [`driver`] emits the fixed entry point that calls the first two
//!   functions and prints their results;
//! - [`headers`] and [`tables`] emit what stands around the code, from the
//!   records of [`elf`], which [`encoding`] turns into bytes;
//! - [`image`] lays the file out in two passes, and [`compile`] runs it all.
//!
//! Every function states what it returns and is proved to do so, but for
//! the four in [`encoding`] that call `bincode`: their contracts are taken
//! on trust.
pub mod encoding;
pub mod error;
pub mod elf;
pub mod lexer;
pub mod text;
pub mod parser;
pub mod printing;
pub mod codegen;
pub mod definitions;
pub mod driver;
pub mod headers;
pub mod tables;
pub mod image;

pub use crate::elf::{ElfHeader, ProgramHeader, SectionHeader, SymtabEntry, FILE_LOAD_VA};
pub use crate::error::CompileError;
pub use crate::codegen::{
    combine, equation_to_code, generate_code_section, get_arguments,
    set_arguments_to_different_regs,
};
pub use crate::driver::{entry_point_code, message_buffer};
pub use crate::definitions::{parse_input_formula, Definition, Equation};
pub use crate::headers::{
    assemble_elf_header, assemble_program_header, assemble_section_header,
    assemble_strtab_section_header, assemble_symtab_section_header,
};
pub use crate::image::{assemble, assemble_binary, compile, Layout};
pub use crate::tables::{assemble_string_table, assemble_strtab_table, assemble_symtab_table};
pub use crate::lexer::{get_number, lex, LexItem};
pub use crate::parser::{
    matching, parse, parse_expr, parse_summand, parse_term, Expr, GrammarItem, ParseNode,
};
