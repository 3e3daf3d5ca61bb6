use vstd::prelude::*;

use crate::config::CsvConfig;

verus! {

/// Relies on String::push: appends the given character to the end of the
/// string.
#[verifier::external_body]
fn push_char(s: &mut String, c: char)
    ensures
        final(s)@ == old(s)@.push(c),
{
    s.push(c);
}

/// Accumulates the field currently being built, character by character.
/// It remembers the configured quote character so that an escaped quote
/// can be appended without consulting the configuration again.
#[derive(Debug)]
pub struct FieldBuilder {
    buffer: Vec<char>,
    quote: char,
}

impl View for FieldBuilder {
    type V = Seq<char>;

    /// The characters accumulated so far.
    closed spec fn view(&self) -> Seq<char> {
        self.buffer@
    }
}

impl FieldBuilder {
    /// The quote character this builder was created with.
    pub closed spec fn quote_char(&self) -> char {
        self.quote
    }

    /// An empty builder that will use the configuration's quote character
    /// for escaped quotes.
    pub fn new(config: &CsvConfig) -> (fb: FieldBuilder)
        ensures
            fb@ == Seq::<char>::empty(),
            fb.quote_char() == config.quote,
    {
        FieldBuilder { buffer: Vec::new(), quote: config.quote }
    }

    /// Append one character of field data.
    pub fn append_char(&mut self, ch: char)
        ensures
            final(self)@ == old(self)@.push(ch),
            final(self).quote_char() == old(self).quote_char(),
    {
        self.buffer.push(ch);
    }

    /// Append the quote character itself, for a doubled or escaped quote.
    pub fn append_escaped_quote(&mut self)
        ensures
            final(self)@ == old(self)@.push(old(self).quote_char()),
            final(self).quote_char() == old(self).quote_char(),
    {
        let q = self.quote;
        self.buffer.push(q);
    }

    /// Finalize the accumulated characters into an owned text value and
    /// leave the builder empty for the next field.
    pub fn finalize_field(&mut self) -> (s: String)
        ensures
            s@ == old(self)@,
            final(self)@ == Seq::<char>::empty(),
            final(self).quote_char() == old(self).quote_char(),
    {
        let mut s = String::new();
        let mut j: usize = 0;
        while j < self.buffer.len()
            invariant
                j <= self.buffer.len(),
                s@ == self.buffer@.subrange(0, j as int),
                *self == *old(self),
            decreases self.buffer.len() - j,
        {
            push_char(&mut s, self.buffer[j]);
            j = j + 1;
            proof {
                assert(s@ =~= self.buffer@.subrange(0, j as int));
            }
        }
        proof {
            assert(s@ =~= self.buffer@);
        }
        self.buffer.clear();
        s
    }

    /// Discard any accumulated characters.
    pub fn reset(&mut self)
        ensures
            final(self)@ == Seq::<char>::empty(),
            final(self).quote_char() == old(self).quote_char(),
    {
        self.buffer.clear();
    }
}

/// Accumulates the finalized fields of the record currently being built.
#[derive(Debug)]
pub struct RowBuilder {
    fields: Vec<String>,
}

impl View for RowBuilder {
    type V = Seq<Seq<char>>;

    /// The fields accumulated so far, each as its character sequence.
    closed spec fn view(&self) -> Seq<Seq<char>> {
        self.fields.deep_view()
    }
}

impl RowBuilder {
    /// An empty builder.
    pub fn new() -> (rb: RowBuilder)
        ensures
            rb@ == Seq::<Seq<char>>::empty(),
    {
        let rb = RowBuilder { fields: Vec::new() };
        proof {
            assert(rb@ =~= Seq::<Seq<char>>::empty());
        }
        rb
    }

    /// Append a finalized field value, consuming it.
    pub fn add_field(&mut self, field: String)
        ensures
            final(self)@ == old(self)@.push(field@),
    {
        let ghost before = self.fields.deep_view();
        self.fields.push(field);
        proof {
            assert(self.fields.deep_view() =~= before.push(field@));
        }
    }

    /// Hand the accumulated fields to the caller and reset to empty.
    pub fn finalize_row(&mut self) -> (r: Vec<String>)
        ensures
            r.deep_view() == old(self)@,
            final(self)@ == Seq::<Seq<char>>::empty(),
    {
        let mut out: Vec<String> = Vec::new();
        core::mem::swap(&mut self.fields, &mut out);
        proof {
            assert(self.fields.deep_view() =~= Seq::<Seq<char>>::empty());
        }
        out
    }

    /// Discard any accumulated fields without transferring ownership.
    pub fn clear(&mut self)
        ensures
            final(self)@ == Seq::<Seq<char>>::empty(),
    {
        self.fields.clear();
        proof {
            assert(self.fields.deep_view() =~= Seq::<Seq<char>>::empty());
        }
    }
}

} // verus!
