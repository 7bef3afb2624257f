//! Core of a source-level debugger for sBPF programs.
//!
//! The debugger drives an interpreter one instruction at a time, relates
//! every instruction to a line of the source, and stops at breakpoints.
//! This library holds what the debugger decides and computes:
//!
//! - `input`: the input region of a program, laid out from an instruction
//!   and its accounts;
//! - `parser`: the line map between program counters and source lines;
//! - `rodata` and `elf`: the symbols of the read-only data;
//! - `debugger` and `context`: the state of a session, the stepping rules
//!   and the compute meter;
//! - `adapter`, `facade` and `json`: the protocol of the editor adapter;
//! - `repl` and `cli`: the grammar of the command line;
//! - `text` and `error`: text and errors shared by the others.

pub mod adapter;
pub mod cli;
pub mod context;
pub mod debugger;
pub mod elf;
pub mod error;
pub mod facade;
pub mod input;
pub mod json;
pub mod parser;
pub mod repl;
pub mod rodata;
pub mod text;
