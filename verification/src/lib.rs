//! Core of a source-level debugger for native x86-64 executables: breakpoint
//! bookkeeping, the byte-in-word splice used to plant trap opcodes through
//! word-granular traced-memory I/O, the execution-control state machine, a
//! plain-data model of the DWARF index, command tokenizing, and the
//! natural-language breakpoint resolver.

pub mod command;
pub mod dwarf;
pub mod json;
pub mod numbers;
pub mod report;
pub mod resolver;
pub mod session;
pub mod strutil;
pub mod table;
pub mod words;
