use vstd::prelude::*;
use vstd::string::StrSliceExecFns;

use crate::builders::{FieldBuilder, RowBuilder};
use crate::config::CsvConfig;
use crate::errors::CsvError;
use crate::transition::{
    is_terminator, spec_transition, transition, Action, CsvState, StateTransition,
};

verus! {

/// The mathematical state of a parser instance: its configuration, the
/// active state of the transition engine, the field being built and the
/// fields of the row being built.
pub ghost struct ParserModel {
    pub config: CsvConfig,
    pub state: CsvState,
    pub field: Seq<char>,
    pub row: Seq<Seq<char>>,
}

/// What processing some input does to a model: the model afterwards and
/// the completed rows it emitted, in order.
pub ghost struct ChunkOutcome {
    pub model: ParserModel,
    pub rows: Seq<Seq<Seq<char>>>,
}

/// A row with zero fields, or exactly one field that is the empty string,
/// stands for a blank input line and is silently dropped from the output.
pub open spec fn spec_is_empty_row(row: Seq<Seq<char>>) -> bool {
    row.len() == 0 || (row.len() == 1 && row[0].len() == 0)
}

/// What committing a row emits: the row itself, unless it is classified
/// empty, in which case nothing.
pub open spec fn emit_row(r: Seq<Seq<char>>) -> Seq<Seq<Seq<char>>> {
    if spec_is_empty_row(r) {
        Seq::empty()
    } else {
        seq![r]
    }
}

/// Apply one action to the accumulators of a model.  The state field of
/// the result is unchanged; a committed row is emitted unless it is
/// classified empty.
pub open spec fn apply_action(m: ParserModel, a: Action) -> ChunkOutcome {
    match a {
        Action::AppendChar(ch) => ChunkOutcome {
            model: ParserModel { field: m.field.push(ch), ..m },
            rows: Seq::empty(),
        },
        Action::AppendEscapedQuote => ChunkOutcome {
            model: ParserModel { field: m.field.push(m.config.quote), ..m },
            rows: Seq::empty(),
        },
        Action::CommitField => ChunkOutcome {
            model: ParserModel { field: Seq::empty(), row: m.row.push(m.field), ..m },
            rows: Seq::empty(),
        },
        Action::CommitRow => ChunkOutcome {
            model: ParserModel { field: Seq::empty(), row: Seq::empty(), ..m },
            rows: emit_row(m.row.push(m.field)),
        },
        Action::NoOp => ChunkOutcome { model: m, rows: Seq::empty() },
    }
}

/// The main walk over the characters of a chunk.  Each step consults the
/// transition table, applies the action and adopts the new state.  When
/// the adopted state is `EndOfRecord`, one immediately following
/// terminator character is absorbed (this merges a CR LF pair, and runs of
/// blank lines one terminator at a time) and the state is forced back to
/// `StartOfField`.
pub open spec fn spec_walk(m: ParserModel, cs: Seq<char>) -> Result<ChunkOutcome, CsvError>
    decreases cs.len(),
{
    if cs.len() == 0 {
        Ok(ChunkOutcome { model: m, rows: Seq::empty() })
    } else {
        match spec_transition(m.state, Some(cs[0]), m.config) {
            Err(e) => Err(e),
            Ok(t) => {
                let stepped = apply_action(m, t.action);
                let rest = if t.new_state is EndOfRecord {
                    if cs.len() >= 2 && is_terminator(cs[1]) {
                        cs.subrange(2, cs.len() as int)
                    } else {
                        cs.subrange(1, cs.len() as int)
                    }
                } else {
                    cs.subrange(1, cs.len() as int)
                };
                let next_state = if t.new_state is EndOfRecord {
                    CsvState::StartOfField
                } else {
                    t.new_state
                };
                match spec_walk(ParserModel { state: next_state, ..stepped.model }, rest) {
                    Err(e) => Err(e),
                    Ok(o) => Ok(ChunkOutcome { model: o.model, rows: stepped.rows + o.rows }),
                }
            },
        }
    }
}

/// States that are completed at the end of a non-empty chunk: an unquoted
/// field, or the position just after a closing quote, cannot continue
/// across a boundary without a follow-up character, so they are resolved
/// by the end-of-input transition immediately.
pub open spec fn chunk_completable(s: CsvState) -> bool {
    s is InUnquotedField || s is QuoteSeen
}

/// States that carry a partially consumed construct over to the next
/// chunk: the accumulators are retained rather than cleared.
pub open spec fn partial_state(s: CsvState) -> bool {
    s is InQuotedField || s is CustomEscapeSeen
}

/// End-of-chunk resolution.  An empty chunk is the end-of-input signal
/// and always takes the end-of-input transition; a non-empty chunk takes
/// it only from a chunk-completable state.  The resulting commit action is
/// applied, and unless the resolved state is partial, both accumulators
/// are cleared.
pub open spec fn spec_resolve(m: ParserModel, chunk_is_empty: bool) -> Result<
    ChunkOutcome,
    CsvError,
> {
    let tr = if chunk_is_empty || chunk_completable(m.state) {
        spec_transition(m.state, None, m.config)
    } else {
        Ok(StateTransition { new_state: m.state, action: Action::NoOp })
    };
    match tr {
        Err(e) => Err(e),
        Ok(t) => {
            let stepped = apply_action(m, t.action);
            let cleared = if partial_state(t.new_state) {
                stepped.model
            } else {
                ParserModel { field: Seq::empty(), row: Seq::empty(), ..stepped.model }
            };
            Ok(ChunkOutcome { model: ParserModel { state: t.new_state, ..cleared }, rows: stepped.rows })
        },
    }
}

/// Everything one call to `process_chunk` does, as a function of the
/// model and the chunk's characters: the walk followed by the resolution,
/// with the emitted rows concatenated in order.
pub open spec fn spec_process(m: ParserModel, cs: Seq<char>) -> Result<ChunkOutcome, CsvError> {
    match spec_walk(m, cs) {
        Err(e) => Err(e),
        Ok(o) => match spec_resolve(o.model, cs.len() == 0) {
            Err(e) => Err(e),
            Ok(o2) => Ok(ChunkOutcome { model: o2.model, rows: o.rows + o2.rows }),
        },
    }
}

/// What one call to `process_chunk` hands back: the rows completed within
/// the chunk, and the suffix of the chunk that was not logically
/// consumed.  The suffix is informational only; the parser's own state
/// already reflects partial progress, so it need not be re-fed.
#[derive(Debug)]
pub struct ChunkResult {
    pub complete_rows: Vec<Vec<String>>,
    pub leftover_data: String,
}

/// The chunk processor: owns the active state, the configuration and the
/// two accumulators, so that identity persists across calls.  One
/// instance is driven by exactly one caller; chunks must be submitted in
/// order.
pub struct CsvChunkParser {
    state: CsvState,
    config: CsvConfig,
    field_builder: FieldBuilder,
    row_builder: RowBuilder,
}

impl View for CsvChunkParser {
    type V = ParserModel;

    /// The model this parser currently embodies.
    closed spec fn view(&self) -> ParserModel {
        ParserModel {
            config: self.config,
            state: self.state,
            field: self.field_builder@,
            row: self.row_builder@,
        }
    }
}

impl CsvChunkParser {
    /// The field accumulator holds the quote character of this parser's
    /// configuration.  Constructors establish this and every method
    /// preserves it.
    pub closed spec fn wf(&self) -> bool {
        self.field_builder.quote_char() == self.config.quote
    }

    /// A fresh parser: starts in `StartOfField` with empty accumulators.
    pub fn new(config: CsvConfig) -> (p: CsvChunkParser)
        ensures
            p.wf(),
            p@ == (ParserModel {
                config,
                state: CsvState::StartOfField,
                field: Seq::<char>::empty(),
                row: Seq::<Seq<char>>::empty(),
            }),
    {
        CsvChunkParser {
            state: CsvState::StartOfField,
            config,
            field_builder: FieldBuilder::new(&config),
            row_builder: RowBuilder::new(),
        }
    }

    /// The active state, for callers that need to know whether the parser
    /// has reached its terminal state.
    pub fn state(&self) -> (s: CsvState)
        ensures
            s == self@.state,
    {
        self.state
    }

    /// Move the field being built into the row being built.
    fn commit_field(&mut self)
        requires
            old(self).wf(),
        ensures
            final(self).wf(),
            final(self)@ == (ParserModel {
                field: Seq::<char>::empty(),
                row: old(self)@.row.push(old(self)@.field),
                ..old(self)@
            }),
    {
        let f = self.field_builder.finalize_field();
        self.row_builder.add_field(f);
    }

    /// Commit the field being built, then hand the completed row to the
    /// caller, leaving both accumulators empty.
    fn commit_row(&mut self) -> (r: Vec<String>)
        requires
            old(self).wf(),
        ensures
            final(self).wf(),
            r.deep_view() == old(self)@.row.push(old(self)@.field),
            final(self)@ == (ParserModel {
                field: Seq::<char>::empty(),
                row: Seq::<Seq<char>>::empty(),
                ..old(self)@
            }),
    {
        self.commit_field();
        self.row_builder.finalize_row()
    }

    /// Whether a committed row stands for a blank input line.
    fn is_empty_row(row: &Vec<String>) -> (b: bool)
        ensures
            b == spec_is_empty_row(row.deep_view()),
    {
        if row.len() == 0 {
            true
        } else if row.len() == 1 && row[0].as_str().is_empty() {
            true
        } else {
            false
        }
    }

    /// Drive the transition engine over one chunk of input.
    ///
    /// The result is exactly what the specification [`spec_process`] says:
    /// the walk over the chunk's characters followed by the end-of-chunk
    /// resolution, applied to the parser's current model.  An empty chunk
    /// is the end-of-input signal.  On an error the parser's internal
    /// state is not guaranteed consumable; the caller must discard the
    /// instance.
    pub fn process_chunk(&mut self, chunk: &str) -> (r: Result<ChunkResult, CsvError>)
        requires
            old(self).wf(),
        ensures
            final(self).wf(),
            (match r {
                Ok(res) => {
                    &&& spec_process(old(self)@, chunk@) matches Ok(o)
                    &&& final(self)@ == o.model
                    &&& res.complete_rows.deep_view() == o.rows
                    &&& res.leftover_data@ == Seq::<char>::empty()
                },
                Err(e) => spec_process(old(self)@, chunk@) == Err::<ChunkOutcome, CsvError>(e),
            }),
    {
        let ghost m0 = old(self)@;
        let n = chunk.unicode_len();
        let mut completed_rows: Vec<Vec<String>> = Vec::new();
        let mut i: usize = 0;
        proof {
            assert(completed_rows.deep_view() =~= Seq::<Seq<Seq<char>>>::empty());
            assert(chunk@.subrange(0, n as int) =~= chunk@);
            match spec_walk(m0, chunk@) {
                Ok(o) => {
                    assert(completed_rows.deep_view() + o.rows =~= o.rows);
                },
                Err(_) => {},
            }
        }
        while i < n
            invariant
                self.wf(),
                m0 == old(self)@,
                n == chunk@.len(),
                i <= n,
                (match spec_walk(self@, chunk@.subrange(i as int, n as int)) {
                    Ok(o) => spec_walk(m0, chunk@) == Ok::<ChunkOutcome, CsvError>(
                        ChunkOutcome { model: o.model, rows: completed_rows.deep_view() + o.rows },
                    ),
                    Err(e) => spec_walk(m0, chunk@) == Err::<ChunkOutcome, CsvError>(e),
                }),
            decreases n - i,
        {
            let ghost pre = self@;
            let ghost rest = chunk@.subrange(i as int, n as int);
            let ghost comp0 = completed_rows.deep_view();
            let c = chunk.get_char(i);
            let t = match transition(self.state, Some(c), &self.config) {
                Ok(t) => t,
                Err(e) => {
                    proof {
                        assert(spec_walk(pre, rest) == Err::<ChunkOutcome, CsvError>(e));
                    }
                    return Err(e);
                },
            };
            let ghost stepped = apply_action(pre, t.action);
            match t.action {
                Action::AppendChar(ch) => {
                    self.field_builder.append_char(ch);
                },
                Action::AppendEscapedQuote => {
                    self.field_builder.append_escaped_quote();
                },
                Action::CommitField => {
                    self.commit_field();
                },
                Action::CommitRow => {
                    let row = self.commit_row();
                    if !Self::is_empty_row(&row) {
                        let ghost rv = row.deep_view();
                        completed_rows.push(row);
                        proof {
                            assert(completed_rows.deep_view() =~= comp0.push(rv));
                            assert(comp0.push(rv) =~= comp0 + stepped.rows);
                        }
                    }
                },
                Action::NoOp => {},
            }
            proof {
                assert(completed_rows.deep_view() =~= comp0 + stepped.rows);
                assert(self@ == stepped.model);
            }
            self.state = t.new_state;
            // Terminator merge: from EndOfRecord, peek the next character
            // and ask the transition function what it would do; when it
            // would absorb it (the peeked character is itself CR or LF),
            // consume it here, then resume field scanning.
            let mut skip: usize = 1;
            if matches!(self.state, CsvState::EndOfRecord) {
                if i + 1 < n {
                    let c2 = chunk.get_char(i + 1);
                    let t2 = match transition(self.state, Some(c2), &self.config) {
                        Ok(t2) => t2,
                        Err(e) => {
                            proof {
                                assert(false);
                            }
                            return Err(e);
                        },
                    };
                    if matches!(t2.new_state, CsvState::EndOfRecord) && matches!(
                        t2.action,
                        Action::NoOp,
                    ) {
                        skip = 2;
                    }
                }
                self.state = CsvState::StartOfField;
            }
            proof {
                let rest2 = rest.subrange(skip as int, rest.len() as int);
                assert(chunk@.subrange((i + skip) as int, n as int) =~= rest2);
                assert(spec_walk(pre, rest) == (match spec_walk(self@, rest2) {
                    Ok(o) => Ok::<ChunkOutcome, CsvError>(
                        ChunkOutcome { model: o.model, rows: stepped.rows + o.rows },
                    ),
                    Err(e) => Err::<ChunkOutcome, CsvError>(e),
                }));
                match spec_walk(self@, rest2) {
                    Ok(o) => {
                        assert(completed_rows.deep_view() + o.rows =~= comp0 + (stepped.rows
                            + o.rows));
                    },
                    Err(_) => {},
                }
            }
            i = i + skip;
        }
        let ghost mw = self@;
        proof {
            assert(chunk@.subrange(i as int, n as int) =~= Seq::<char>::empty());
            assert(spec_walk(mw, Seq::<char>::empty()) == Ok::<ChunkOutcome, CsvError>(
                ChunkOutcome { model: mw, rows: Seq::empty() },
            ));
            match spec_walk(m0, chunk@) {
                Ok(o) => {
                    assert(completed_rows.deep_view() + Seq::<Seq<Seq<char>>>::empty()
                        =~= completed_rows.deep_view());
                },
                Err(_) => {},
            }
        }
        let ghost comp_walk = completed_rows.deep_view();
        // End-of-chunk resolution: an empty chunk is true end of input;
        // a non-empty chunk force-resolves only the chunk-completable
        // states, leaving truly partial states pending more data.
        let resolved = if n == 0 {
            match transition(self.state, None, &self.config) {
                Ok(t) => t,
                Err(e) => {
                    return Err(e);
                },
            }
        } else {
            match self.state {
                CsvState::InUnquotedField | CsvState::QuoteSeen => {
                    match transition(self.state, None, &self.config) {
                        Ok(t) => t,
                        Err(e) => {
                            proof {
                                assert(false);
                            }
                            return Err(e);
                        },
                    }
                },
                _ => StateTransition { new_state: self.state, action: Action::NoOp },
            }
        };
        let ghost stepped_r = apply_action(mw, resolved.action);
        match resolved.action {
            Action::CommitField => {
                self.commit_field();
            },
            Action::CommitRow => {
                let row = self.commit_row();
                if !Self::is_empty_row(&row) {
                    let ghost rv = row.deep_view();
                    completed_rows.push(row);
                    proof {
                        assert(completed_rows.deep_view() =~= comp_walk.push(rv));
                        assert(comp_walk.push(rv) =~= comp_walk + stepped_r.rows);
                    }
                }
            },
            _ => {},
        }
        proof {
            assert(completed_rows.deep_view() =~= comp_walk + stepped_r.rows);
            assert(self@ == stepped_r.model);
        }
        // When the resolved state is partial, the accumulators are kept
        // for the next call and the leftover is the unconsumed suffix of
        // the chunk (the walk consumes every character, so it is empty);
        // otherwise both accumulators are cleared.
        let leftover_data = match resolved.new_state {
            CsvState::InQuotedField | CsvState::CustomEscapeSeen => {
                self.state = resolved.new_state;
                let rem = chunk.substring_char(i, n);
                rem.to_owned()
            },
            _ => {
                self.row_builder.clear();
                self.field_builder.reset();
                self.state = resolved.new_state;
                String::new()
            },
        };
        Ok(ChunkResult { complete_rows: completed_rows, leftover_data })
    }
}

} // verus!
