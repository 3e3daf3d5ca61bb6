use vstd::prelude::*;

verus! {

/// The ways a parse can fail.  Every error is fatal for the parser
/// instance: the caller must discard it and start over.
#[derive(Debug, PartialEq, Eq, Structural, Clone, Copy)]
pub enum CsvError {
    /// End of input was reached while a quoted field, or a pending escape
    /// sequence inside one, was still open.
    UnclosedQuote,
    /// A character that is neither delimiter, record terminator, nor escape
    /// character immediately followed a closing quote.  Carries the
    /// offending character for diagnostics.
    DataAfterClosingQuote(char),
    /// A finalized field buffer failed text validation.  This kind is
    /// defensive: the character-level append path only ever stores valid
    /// text, so the verified parser never produces it.
    Utf8Error,
}

} // verus!
