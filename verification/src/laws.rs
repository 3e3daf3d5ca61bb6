use vstd::prelude::*;

use crate::config::CsvConfig;
use crate::errors::CsvError;
use crate::parser::{
    apply_action, emit_row, partial_state, spec_is_empty_row, spec_process, spec_resolve,
    spec_walk, ChunkOutcome, ParserModel,
};
use crate::transition::{is_terminator, spec_transition, CsvState};

verus! {

/// A model that is ready for the next record: scanning from the start of
/// a field with nothing accumulated.  A fresh parser is in this shape,
/// and so is a parser that has just completed a record.
pub open spec fn at_record_boundary(m: ParserModel) -> bool {
    &&& m.state is StartOfField
    &&& m.field.len() == 0
    &&& m.row.len() == 0
}

/// One record terminator at the head of the input is absorbed without
/// emitting anything: at a record boundary, walking the input gives
/// exactly the same outcome as walking the input with the terminator
/// removed.
pub proof fn lemma_leading_terminator_absorbed(m: ParserModel, cs: Seq<char>)
    requires
        at_record_boundary(m),
        !is_terminator(m.config.quote),
        !is_terminator(m.config.delimiter),
        cs.len() > 0,
        is_terminator(cs[0]),
    ensures
        spec_walk(m, cs) == spec_walk(m, cs.subrange(1, cs.len() as int)),
    decreases cs.len(),
{
    assert(m.field =~= Seq::<char>::empty());
    assert(m.row =~= Seq::<Seq<char>>::empty());
    assert(spec_is_empty_row(m.row.push(m.field)));
    assert(emit_row(m.row.push(m.field)) =~= Seq::<Seq<Seq<char>>>::empty());
    let tail = cs.subrange(1, cs.len() as int);
    let inner = if cs.len() >= 2 && is_terminator(cs[1]) {
        cs.subrange(2, cs.len() as int)
    } else {
        tail
    };
    if cs.len() >= 2 && is_terminator(cs[1]) {
        // the walk absorbs the second terminator in the same step; the
        // walk of the tail absorbs it by this lemma, one level down
        assert(tail.subrange(1, tail.len() as int) =~= inner);
        lemma_leading_terminator_absorbed(m, tail);
    }
    match spec_walk(m, inner) {
        Ok(o) => {
            assert(Seq::<Seq<Seq<char>>>::empty() + o.rows =~= o.rows);
        },
        Err(_) => {},
    }
    assert(spec_walk(m, cs) == spec_walk(m, inner));
    assert(spec_walk(m, tail) == spec_walk(m, inner));
}

/// Walking a concatenation is walking the parts in sequence: the walk of
/// `cs1 + cs2` succeeds exactly when the walk of `cs1` and then, from the
/// model it leaves, the walk of `cs2` succeed, leaves the same model, and
/// emits the two runs' rows in order.  The active state is never
/// `EndOfRecord` between steps of a walk, so any model a parser can hold
/// satisfies the precondition.
#[verifier::rlimit(60)]
pub proof fn lemma_walk_append(m: ParserModel, cs1: Seq<char>, cs2: Seq<char>)
    requires
        !(m.state is EndOfRecord),
        !is_terminator(m.config.quote),
        !is_terminator(m.config.delimiter),
    ensures
        spec_walk(m, cs1 + cs2) == (match spec_walk(m, cs1) {
            Ok(o1) => match spec_walk(o1.model, cs2) {
                Ok(o2) => Ok::<ChunkOutcome, CsvError>(
                    ChunkOutcome { model: o2.model, rows: o1.rows + o2.rows },
                ),
                Err(e) => Err::<ChunkOutcome, CsvError>(e),
            },
            Err(e) => Err::<ChunkOutcome, CsvError>(e),
        }),
    decreases cs1.len(),
{
    let full = cs1 + cs2;
    if cs1.len() == 0 {
        assert(full =~= cs2);
        match spec_walk(m, cs2) {
            Ok(o2) => {
                assert(Seq::<Seq<Seq<char>>>::empty() + o2.rows =~= o2.rows);
            },
            Err(_) => {},
        }
    } else {
        assert(full[0] == cs1[0]);
        match spec_transition(m.state, Some(cs1[0]), m.config) {
            Err(_) => {},
            Ok(t) => {
                let stepped = apply_action(m, t.action);
                if t.new_state is EndOfRecord {
                    assert(t.action is CommitRow);
                    let m2 = ParserModel { state: CsvState::StartOfField, ..stepped.model };
                    assert(at_record_boundary(m2));
                    if cs1.len() >= 2 {
                        let skip: int = if is_terminator(cs1[1]) {
                            2
                        } else {
                            1
                        };
                        let cs1r = cs1.subrange(skip, cs1.len() as int);
                        assert(full.subrange(skip, full.len() as int) =~= cs1r + cs2);
                        lemma_walk_append(m2, cs1r, cs2);
                        match spec_walk(m2, cs1r) {
                            Ok(o1r) => {
                                match spec_walk(o1r.model, cs2) {
                                    Ok(o2) => {
                                        assert(stepped.rows + (o1r.rows + o2.rows)
                                            =~= (stepped.rows + o1r.rows) + o2.rows);
                                    },
                                    Err(_) => {},
                                }
                            },
                            Err(_) => {},
                        }
                    } else {
                        assert(cs1.subrange(1, 1) =~= Seq::<char>::empty());
                        assert(spec_walk(m, cs1) == Ok::<ChunkOutcome, CsvError>(
                            ChunkOutcome { model: m2, rows: stepped.rows + Seq::empty() },
                        ));
                        if cs2.len() > 0 && is_terminator(cs2[0]) {
                            let cs2r = cs2.subrange(1, cs2.len() as int);
                            assert(full.subrange(2, full.len() as int) =~= cs2r);
                            lemma_leading_terminator_absorbed(m2, cs2);
                            match spec_walk(m2, cs2r) {
                                Ok(o2) => {
                                    assert((stepped.rows + Seq::empty()) + o2.rows =~= stepped.rows
                                        + o2.rows);
                                },
                                Err(_) => {},
                            }
                        } else {
                            assert(full.subrange(1, full.len() as int) =~= cs2);
                            match spec_walk(m2, cs2) {
                                Ok(o2) => {
                                    assert((stepped.rows + Seq::empty()) + o2.rows =~= stepped.rows
                                        + o2.rows);
                                },
                                Err(_) => {},
                            }
                        }
                    }
                } else {
                    let m1 = ParserModel { state: t.new_state, ..stepped.model };
                    let cs1r = cs1.subrange(1, cs1.len() as int);
                    assert(full.subrange(1, full.len() as int) =~= cs1r + cs2);
                    lemma_walk_append(m1, cs1r, cs2);
                    match spec_walk(m1, cs1r) {
                        Ok(o1r) => {
                            match spec_walk(o1r.model, cs2) {
                                Ok(o2) => {
                                    assert(stepped.rows + (o1r.rows + o2.rows) =~= (stepped.rows
                                        + o1r.rows) + o2.rows);
                                },
                                Err(_) => {},
                            }
                        },
                        Err(_) => {},
                    }
                }
            },
        }
    }
}

/// Any number of consecutive record terminators collapse to zero rows: at
/// a record boundary, a run of terminators at the head of the input can
/// be dropped without changing the outcome of the walk at all.
pub proof fn lemma_terminator_run_collapses(m: ParserModel, cs: Seq<char>, k: int)
    requires
        at_record_boundary(m),
        !is_terminator(m.config.quote),
        !is_terminator(m.config.delimiter),
        0 <= k <= cs.len(),
        forall|j: int| 0 <= j < k ==> is_terminator(cs[j]),
    ensures
        spec_walk(m, cs) == spec_walk(m, cs.subrange(k, cs.len() as int)),
    decreases k,
{
    if k == 0 {
        assert(cs.subrange(0, cs.len() as int) =~= cs);
    } else {
        lemma_leading_terminator_absorbed(m, cs);
        let tail = cs.subrange(1, cs.len() as int);
        lemma_terminator_run_collapses(m, tail, k - 1);
        assert(tail.subrange(k - 1, tail.len() as int) =~= cs.subrange(k, cs.len() as int));
    }
}

/// Input that consists of record terminators alone produces no rows at
/// all and leaves the model exactly as it was.
pub proof fn lemma_terminators_only_no_rows(m: ParserModel, cs: Seq<char>)
    requires
        at_record_boundary(m),
        !is_terminator(m.config.quote),
        !is_terminator(m.config.delimiter),
        forall|j: int| 0 <= j < cs.len() ==> is_terminator(cs[j]),
    ensures
        spec_walk(m, cs) == Ok::<ChunkOutcome, CsvError>(
            ChunkOutcome { model: m, rows: Seq::empty() },
        ),
{
    lemma_terminator_run_collapses(m, cs, cs.len() as int);
    assert(cs.subrange(cs.len() as int, cs.len() as int) =~= Seq::<char>::empty());
}

/// Chunk invariance: splitting the input across a chunk boundary does
/// not change what is parsed, provided the boundary does not fall inside
/// an unquoted field or immediately after a closing quote (those states
/// are force-resolved at a chunk's end).  A boundary is safe when the
/// walk of the first part ends inside a quoted construct (the partial
/// states, whose accumulators are retained) or exactly at a record
/// boundary.  Processing the parts in two calls then yields the same
/// model and the same rows, in order, as processing the concatenation in
/// one call, and fails with the same error when the one-call parse fails.
pub proof fn lemma_chunk_invariance(m: ParserModel, cs1: Seq<char>, cs2: Seq<char>)
    requires
        !(m.state is EndOfRecord),
        !is_terminator(m.config.quote),
        !is_terminator(m.config.delimiter),
        cs1.len() > 0,
        cs2.len() > 0,
        (spec_walk(m, cs1) matches Ok(o1) && (partial_state(o1.model.state)
            || at_record_boundary(o1.model))),
    ensures
        ({
            &&& spec_walk(m, cs1) matches Ok(o1)
            &&& spec_process(m, cs1) == Ok::<ChunkOutcome, CsvError>(o1)
            &&& (match spec_process(o1.model, cs2) {
                Ok(p2) => spec_process(m, cs1 + cs2) == Ok::<ChunkOutcome, CsvError>(
                    ChunkOutcome { model: p2.model, rows: o1.rows + p2.rows },
                ),
                Err(e) => spec_process(m, cs1 + cs2) == Err::<ChunkOutcome, CsvError>(e),
            })
        }),
{
    let o1 = spec_walk(m, cs1)->Ok_0;
    if at_record_boundary(o1.model) {
        assert(o1.model.field =~= Seq::<char>::empty());
        assert(o1.model.row =~= Seq::<Seq<char>>::empty());
    }
    assert(o1.rows + Seq::<Seq<Seq<char>>>::empty() =~= o1.rows);
    assert(spec_process(m, cs1) == Ok::<ChunkOutcome, CsvError>(o1));
    lemma_walk_append(m, cs1, cs2);
    match spec_walk(o1.model, cs2) {
        Ok(o2) => {
            match spec_resolve(o2.model, false) {
                Ok(r) => {
                    assert((o1.rows + o2.rows) + r.rows =~= o1.rows + (o2.rows + r.rows));
                },
                Err(_) => {},
            }
        },
        Err(_) => {},
    }
}

/// Walking input can only fail through the transition table, whose only
/// error kinds are an unclosed quote and data after a closing quote.
proof fn lemma_walk_error_kinds(m: ParserModel, cs: Seq<char>)
    ensures
        (spec_walk(m, cs) matches Err(e) ==> (e is UnclosedQuote || e is DataAfterClosingQuote)),
    decreases cs.len(),
{
    if cs.len() > 0 {
        match spec_transition(m.state, Some(cs[0]), m.config) {
            Err(_) => {},
            Ok(t) => {
                let stepped = apply_action(m, t.action);
                let rest = if t.new_state is EndOfRecord {
                    if cs.len() >= 2 && is_terminator(cs[1]) {
                        cs.subrange(2, cs.len() as int)
                    } else {
                        cs.subrange(1, cs.len() as int)
                    }
                } else {
                    cs.subrange(1, cs.len() as int)
                };
                let next_state = if t.new_state is EndOfRecord {
                    CsvState::StartOfField
                } else {
                    t.new_state
                };
                lemma_walk_error_kinds(ParserModel { state: next_state, ..stepped.model }, rest);
            },
        }
    }
}

/// Processing a chunk fails only with `UnclosedQuote` or
/// `DataAfterClosingQuote`: the defensive text-validation error kind is
/// never produced by the character-level parse.
pub proof fn lemma_error_kinds(m: ParserModel, cs: Seq<char>)
    ensures
        (spec_process(m, cs) matches Err(e) ==> (e is UnclosedQuote
            || e is DataAfterClosingQuote)),
{
    lemma_walk_error_kinds(m, cs);
}

/// A row's fields joined by the delimiter.
pub open spec fn render_row(fields: Seq<Seq<char>>, delimiter: char) -> Seq<char>
    decreases fields.len(),
{
    if fields.len() == 0 {
        Seq::empty()
    } else if fields.len() == 1 {
        fields[0]
    } else {
        fields[0] + seq![delimiter] + render_row(fields.subrange(1, fields.len() as int), delimiter)
    }
}

/// Rows joined back into text: each row's fields joined by the
/// delimiter, each row closed by a line feed.
pub open spec fn render(rows: Seq<Seq<Seq<char>>>, delimiter: char) -> Seq<char>
    decreases rows.len(),
{
    if rows.len() == 0 {
        Seq::empty()
    } else {
        render_row(rows[0], delimiter) + seq!['\n'] + render(
            rows.subrange(1, rows.len() as int),
            delimiter,
        )
    }
}

/// Field text that needs no quoting under the given configuration: no
/// delimiter or terminator anywhere, and no quote as the first character
/// (a quote later in an unquoted field is ordinary data).
pub open spec fn plain_field(f: Seq<char>, config: CsvConfig) -> bool {
    &&& forall|k: int| 0 <= k < f.len() ==> #[trigger] f[k] != config.delimiter && !is_terminator(
        f[k],
    )
    &&& f.len() > 0 ==> f[0] != config.quote
}

/// A row whose every field is plain and which is not classified as a
/// blank line, so that it is neither misparsed nor filtered.
pub open spec fn plain_row(row: Seq<Seq<char>>, config: CsvConfig) -> bool {
    &&& !spec_is_empty_row(row)
    &&& forall|j: int| 0 <= j < row.len() ==> plain_field(#[trigger] row[j], config)
}

/// A configuration whose structural characters do not collide: neither
/// delimiter nor quote is a record terminator, and they differ from each
/// other.
pub open spec fn plain_config(config: CsvConfig) -> bool {
    &&& !is_terminator(config.delimiter)
    &&& !is_terminator(config.quote)
    &&& config.delimiter != config.quote
}

/// Inside an unquoted field, characters that are neither the delimiter
/// nor a terminator are appended verbatim and nothing else changes.
proof fn lemma_unquoted_chars(m: ParserModel, f: Seq<char>)
    requires
        m.state is InUnquotedField,
        forall|k: int| 0 <= k < f.len() ==> #[trigger] f[k] != m.config.delimiter
            && !is_terminator(f[k]),
    ensures
        spec_walk(m, f) == Ok::<ChunkOutcome, CsvError>(
            ChunkOutcome { model: ParserModel { field: m.field + f, ..m }, rows: Seq::empty() },
        ),
    decreases f.len(),
{
    if f.len() == 0 {
        assert(m.field + f =~= m.field);
    } else {
        let m1 = ParserModel { field: m.field.push(f[0]), ..m };
        let tail = f.subrange(1, f.len() as int);
        lemma_unquoted_chars(m1, tail);
        assert(m.field.push(f[0]) + tail =~= m.field + f);
        assert(Seq::<Seq<Seq<char>>>::empty() + Seq::<Seq<Seq<char>>>::empty()
            =~= Seq::<Seq<Seq<char>>>::empty());
    }
}

/// From the start of a field, a non-empty plain field is consumed into
/// the field accumulator and the state moves to `InUnquotedField`.
proof fn lemma_field_from_start(m: ParserModel, f: Seq<char>)
    requires
        m.state is StartOfField,
        m.field.len() == 0,
        plain_field(f, m.config),
        f.len() > 0,
    ensures
        spec_walk(m, f) == Ok::<ChunkOutcome, CsvError>(
            ChunkOutcome {
                model: ParserModel { state: CsvState::InUnquotedField, field: f, ..m },
                rows: Seq::empty(),
            },
        ),
{
    let m1 = ParserModel {
        state: CsvState::InUnquotedField,
        field: m.field.push(f[0]),
        ..m
    };
    let tail = f.subrange(1, f.len() as int);
    lemma_unquoted_chars(m1, tail);
    assert(m.field.push(f[0]) + tail =~= f);
    assert(Seq::<Seq<Seq<char>>>::empty() + Seq::<Seq<Seq<char>>>::empty()
        =~= Seq::<Seq<Seq<char>>>::empty());
}

/// Walking one rendered row and its closing line feed commits exactly
/// that row (prefixed by any fields already committed) and returns the
/// model to a record boundary.
proof fn lemma_row_with_newline(m: ParserModel, fields: Seq<Seq<char>>)
    requires
        m.state is StartOfField,
        m.field.len() == 0,
        plain_config(m.config),
        fields.len() > 0,
        forall|j: int| 0 <= j < fields.len() ==> plain_field(#[trigger] fields[j], m.config),
    ensures
        spec_walk(m, render_row(fields, m.config.delimiter) + seq!['\n'])
            == Ok::<ChunkOutcome, CsvError>(
            ChunkOutcome {
                model: ParserModel {
                    config: m.config,
                    state: CsvState::StartOfField,
                    field: Seq::empty(),
                    row: Seq::empty(),
                },
                rows: emit_row(m.row + fields),
            },
        ),
    decreases fields.len(),
{
    reveal_with_fuel(spec_walk, 3);
    let d = m.config.delimiter;
    let nl = seq!['\n'];
    if fields.len() == 1 {
        let f0 = fields[0];
        assert(m.row.push(f0) =~= m.row + fields);
        if f0.len() == 0 {
            let cs = render_row(fields, d) + nl;
            assert(cs =~= nl);
            assert(m.field =~= f0);
            assert(cs.subrange(1, 1) =~= Seq::<char>::empty());
            assert(emit_row(m.row.push(m.field)) + Seq::<Seq<Seq<char>>>::empty() =~= emit_row(
                m.row + fields,
            ));
        } else {
            assert(render_row(fields, d) == f0);
            lemma_field_from_start(m, f0);
            lemma_walk_append(m, f0, nl);
            let mu = ParserModel { state: CsvState::InUnquotedField, field: f0, ..m };
            assert(nl.subrange(1, 1) =~= Seq::<char>::empty());
            assert(emit_row(mu.row.push(mu.field)) + Seq::<Seq<Seq<char>>>::empty() =~= emit_row(
                m.row + fields,
            ));
            assert(Seq::<Seq<Seq<char>>>::empty() + emit_row(m.row + fields) =~= emit_row(
                m.row + fields,
            ));
        }
    } else {
        let f0 = fields[0];
        let rest = fields.subrange(1, fields.len() as int);
        let seg1 = f0 + seq![d];
        let seg2 = render_row(rest, d) + nl;
        assert(render_row(fields, d) + nl =~= seg1 + seg2);
        lemma_walk_append(m, seg1, seg2);
        let m_after = ParserModel {
            config: m.config,
            state: CsvState::StartOfField,
            field: Seq::empty(),
            row: m.row.push(f0),
        };
        if f0.len() == 0 {
            assert(seg1 =~= seq![d]);
            assert(m.field =~= f0);
            assert(seg1.subrange(1, 1) =~= Seq::<char>::empty());
            assert(spec_walk(m, seg1) == Ok::<ChunkOutcome, CsvError>(
                ChunkOutcome { model: m_after, rows: Seq::empty() + Seq::empty() },
            ));
        } else {
            lemma_field_from_start(m, f0);
            lemma_walk_append(m, f0, seq![d]);
            let mu = ParserModel { state: CsvState::InUnquotedField, field: f0, ..m };
            assert(seq![d].subrange(1, 1) =~= Seq::<char>::empty());
            assert(spec_walk(mu, seq![d]) == Ok::<ChunkOutcome, CsvError>(
                ChunkOutcome {
                    model: ParserModel {
                        state: CsvState::StartOfField,
                        field: Seq::empty(),
                        row: mu.row.push(mu.field),
                        config: m.config,
                    },
                    rows: Seq::empty() + Seq::empty(),
                },
            ));
        }
        assert(spec_walk(m, seg1) == Ok::<ChunkOutcome, CsvError>(
            ChunkOutcome { model: m_after, rows: Seq::empty() },
        ));
        assert(forall|j: int| 0 <= j < rest.len() ==> plain_field(#[trigger] rest[j], m.config));
        lemma_row_with_newline(m_after, rest);
        assert(m_after.row + rest =~= m.row + fields);
        assert(Seq::<Seq<Seq<char>>>::empty() + emit_row(m.row + fields) =~= emit_row(
            m.row + fields,
        ));
    }
}

/// Walking a rendered table from a record boundary emits exactly its
/// rows, in order, and returns the model unchanged.
proof fn lemma_rows_render_walk(m: ParserModel, rows: Seq<Seq<Seq<char>>>)
    requires
        at_record_boundary(m),
        plain_config(m.config),
        forall|idx: int| 0 <= idx < rows.len() ==> plain_row(#[trigger] rows[idx], m.config),
    ensures
        spec_walk(m, render(rows, m.config.delimiter)) == Ok::<ChunkOutcome, CsvError>(
            ChunkOutcome { model: m, rows },
        ),
    decreases rows.len(),
{
    let d = m.config.delimiter;
    assert(m.field =~= Seq::<char>::empty());
    assert(m.row =~= Seq::<Seq<char>>::empty());
    if rows.len() == 0 {
        assert(rows =~= Seq::<Seq<Seq<char>>>::empty());
    } else {
        let rest = rows.subrange(1, rows.len() as int);
        let seg1 = render_row(rows[0], d) + seq!['\n'];
        let seg2 = render(rest, d);
        assert(render(rows, d) =~= seg1 + seg2);
        lemma_walk_append(m, seg1, seg2);
        assert(rows[0].len() > 0);
        lemma_row_with_newline(m, rows[0]);
        assert(m.row + rows[0] =~= rows[0]);
        assert(!spec_is_empty_row(rows[0]));
        assert(emit_row(rows[0]) =~= seq![rows[0]]);
        assert(forall|idx: int| 0 <= idx < rest.len() ==> plain_row(#[trigger] rest[idx], m.config));
        lemma_rows_render_walk(m, rest);
        assert(seq![rows[0]] + rest =~= rows);
    }
}

/// Round trip: joining any table of plain rows with the configured
/// delimiter and a newline and feeding it to a fresh parser as one chunk
/// gives back exactly that table, and leaves the parser as fresh as it
/// started.
pub proof fn lemma_round_trip(config: CsvConfig, rows: Seq<Seq<Seq<char>>>)
    requires
        plain_config(config),
        rows.len() > 0,
        forall|idx: int| 0 <= idx < rows.len() ==> plain_row(#[trigger] rows[idx], config),
    ensures
        ({
            let fresh = ParserModel {
                config,
                state: CsvState::StartOfField,
                field: Seq::empty(),
                row: Seq::empty(),
            };
            spec_process(fresh, render(rows, config.delimiter)) == Ok::<ChunkOutcome, CsvError>(
                ChunkOutcome { model: fresh, rows },
            )
        }),
{
    let fresh = ParserModel {
        config,
        state: CsvState::StartOfField,
        field: Seq::empty(),
        row: Seq::empty(),
    };
    lemma_rows_render_walk(fresh, rows);
    assert(render(rows, config.delimiter).len() > 0);
    assert(rows + Seq::<Seq<Seq<char>>>::empty() =~= rows);
}

} // verus!
