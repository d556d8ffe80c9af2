//! A disassembler for many processor families, driven by Ghidra's SLEIGH
//! specifications.

pub mod sleigh;
pub mod disasm;
pub mod text;
pub mod arch;
pub mod xml;
pub mod numbers;
pub mod opinion;
pub mod cspec;
pub mod archmap;
pub mod listing;
pub mod web;
pub mod assemble;
pub mod page;
pub mod cli;
pub mod elf;
pub mod bridge;
