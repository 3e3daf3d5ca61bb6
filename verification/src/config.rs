use vstd::prelude::*;

verus! {

/// Configuration of the tokenizer: three single characters.
///
/// When `quote == escape` the parser runs in RFC-4180 mode, where a doubled
/// quote inside a quoted field stands for one literal quote.  When they
/// differ, the character immediately following `escape` inside a quoted
/// field is always taken literally.  The three characters may coincide;
/// callers that rely on distinct roles must choose distinct characters
/// themselves.  A configuration is copied into each parser instance and is
/// immutable from then on.
#[derive(Debug, Clone, Copy)]
pub struct CsvConfig {
    pub delimiter: char,
    pub quote: char,
    pub escape: char,
}

impl Default for CsvConfig {
    /// Comma-delimited, double-quoted, RFC-4180 doubling.
    fn default() -> (c: CsvConfig)
        ensures
            c.delimiter == ',',
            c.quote == '"',
            c.escape == '"',
    {
        CsvConfig { delimiter: ',', quote: '"', escape: '"' }
    }
}

} // verus!
