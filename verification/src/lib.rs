//! A streaming, chunk-resumable tokenizer for delimiter-separated text.
//!
//! Callers may hand the parser input one byte at a time or one megabyte at
//! a time; as long as a slice does not cut an unquoted field or the spot
//! just after a closing quote (those are force-resolved at a chunk's end,
//! a deliberate boundary policy), the parser produces the same logical
//! rows however the input is sliced.  The core is a finite-state transition engine
//! ([`transition`]) plus the chunk-boundary continuation logic
//! ([`CsvChunkParser::process_chunk`]), which threads the state machine
//! across buffer boundaries while preserving partially built fields and
//! rows.
//!
//! The behaviour of a whole chunk is captured by the specification
//! functions in [`parser`] (`spec_walk`, `spec_resolve`, `spec_process`),
//! and `process_chunk` is verified against them.  The module [`laws`]
//! proves the global properties: parsing a rendered table gives the table
//! back, processing is invariant under chunk splitting at safe boundaries,
//! and runs of record terminators collapse to nothing.

pub mod builders;
pub mod config;
pub mod errors;
pub mod laws;
pub mod parser;
pub mod transition;

pub use config::CsvConfig;
pub use errors::CsvError;
pub use parser::{ChunkResult, CsvChunkParser};
pub use transition::{
    handle_custom_escape_seen, handle_end_of_record, handle_finished, handle_in_quoted_field,
    handle_in_unquoted_field, handle_quote_seen, handle_start_of_field, transition, Action,
    CsvState, StateTransition,
};
