//! Job control for an interactive shell: a tokenizer, a pipeline parser, the
//! process descriptors and jobs it builds, and the job table that reacts to
//! process status changes. System calls are left to the caller: the library
//! says which to make and with what.

pub mod builtin;
pub mod job;
pub mod job_list;
pub mod laws;
pub mod lexer;
pub mod parser;
pub mod prog;
pub mod status;
