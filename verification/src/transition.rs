use vstd::prelude::*;

use crate::config::CsvConfig;
use crate::errors::CsvError;

verus! {

/// The state of the tokenizer.  Exactly one state is active per parser
/// instance at any time, and it persists across chunk-processing calls.
/// `Finished` is terminal: once reached, all further characters are no-ops.
#[derive(Debug, PartialEq, Eq, Structural, Clone, Copy)]
pub enum CsvState {
    StartOfField,
    InUnquotedField,
    InQuotedField,
    QuoteSeen,
    CustomEscapeSeen,
    EndOfRecord,
    Finished,
}

/// The effect a transition prescribes on the accumulators.
#[derive(Debug, PartialEq, Clone, Copy)]
pub enum Action {
    /// Append this character to the field being built.
    AppendChar(char),
    /// Append the configured quote character to the field being built.
    AppendEscapedQuote,
    /// Finalize the current field into the row being built.
    CommitField,
    /// Finalize the current field and then the whole row.
    CommitRow,
    /// Do nothing.
    NoOp,
}

/// What one step of the state machine returns: the state to adopt and the
/// action to apply.
#[derive(Debug, Clone, Copy)]
pub struct StateTransition {
    pub new_state: CsvState,
    pub action: Action,
}

/// CR or LF: the characters that make up a record terminator.
pub open spec fn is_terminator(c: char) -> bool {
    c == '\n' || c == '\r'
}

/// The transition table: given the current state, the next character
/// (`None` standing for end of input) and the configuration, the next
/// state and the action to apply.  This is the single mathematical
/// definition of the tokenizer; the executable handlers below are each
/// proved equal to one row of it.
///
/// Character classes are tested in a fixed order (quote before delimiter
/// before terminator, where a state distinguishes them), so the table is
/// total and deterministic even when the configured characters coincide.
pub open spec fn spec_transition(
    state: CsvState,
    c: Option<char>,
    config: CsvConfig,
) -> Result<StateTransition, CsvError> {
    match state {
        CsvState::StartOfField => match c {
            Some(ch) => if ch == config.quote {
                Ok(StateTransition { new_state: CsvState::InQuotedField, action: Action::NoOp })
            } else if ch == config.delimiter {
                Ok(StateTransition { new_state: CsvState::StartOfField, action: Action::CommitField })
            } else if is_terminator(ch) {
                Ok(StateTransition { new_state: CsvState::EndOfRecord, action: Action::CommitRow })
            } else {
                Ok(StateTransition { new_state: CsvState::InUnquotedField, action: Action::AppendChar(ch) })
            },
            None => Ok(StateTransition { new_state: CsvState::Finished, action: Action::NoOp }),
        },
        CsvState::InUnquotedField => match c {
            Some(ch) => if ch == config.delimiter {
                Ok(StateTransition { new_state: CsvState::StartOfField, action: Action::CommitField })
            } else if is_terminator(ch) {
                Ok(StateTransition { new_state: CsvState::EndOfRecord, action: Action::CommitRow })
            } else {
                Ok(StateTransition { new_state: CsvState::InUnquotedField, action: Action::AppendChar(ch) })
            },
            None => Ok(StateTransition { new_state: CsvState::Finished, action: Action::CommitField }),
        },
        CsvState::InQuotedField => match c {
            Some(ch) => if ch == config.quote {
                Ok(StateTransition { new_state: CsvState::QuoteSeen, action: Action::NoOp })
            } else if ch == config.escape {
                Ok(StateTransition { new_state: CsvState::CustomEscapeSeen, action: Action::NoOp })
            } else {
                Ok(StateTransition { new_state: CsvState::InQuotedField, action: Action::AppendChar(ch) })
            },
            None => Err(CsvError::UnclosedQuote),
        },
        CsvState::QuoteSeen => match c {
            Some(ch) => if ch == config.escape {
                Ok(StateTransition { new_state: CsvState::InQuotedField, action: Action::AppendEscapedQuote })
            } else if ch == config.delimiter {
                Ok(StateTransition { new_state: CsvState::StartOfField, action: Action::CommitField })
            } else if is_terminator(ch) {
                Ok(StateTransition { new_state: CsvState::EndOfRecord, action: Action::CommitRow })
            } else {
                Err(CsvError::DataAfterClosingQuote(ch))
            },
            None => Ok(StateTransition { new_state: CsvState::Finished, action: Action::CommitRow }),
        },
        CsvState::CustomEscapeSeen => match c {
            Some(ch) => Ok(StateTransition { new_state: CsvState::InQuotedField, action: Action::AppendChar(ch) }),
            None => Err(CsvError::UnclosedQuote),
        },
        CsvState::EndOfRecord => match c {
            Some(ch) => if is_terminator(ch) {
                Ok(StateTransition { new_state: CsvState::EndOfRecord, action: Action::NoOp })
            } else {
                Ok(StateTransition { new_state: CsvState::StartOfField, action: Action::NoOp })
            },
            None => Ok(StateTransition { new_state: CsvState::Finished, action: Action::NoOp }),
        },
        CsvState::Finished => Ok(StateTransition { new_state: CsvState::Finished, action: Action::NoOp }),
    }
}

/// At the start of a field: a quote opens a quoted field, a delimiter
/// commits an empty field, a terminator commits the row, anything else
/// starts an unquoted field.
pub fn handle_start_of_field(c: Option<char>, config: &CsvConfig) -> (r: Result<
    StateTransition,
    CsvError,
>)
    ensures
        r == spec_transition(CsvState::StartOfField, c, *config),
{
    match c {
        Some(ch) => {
            if ch == config.quote {
                Ok(StateTransition { new_state: CsvState::InQuotedField, action: Action::NoOp })
            } else if ch == config.delimiter {
                Ok(StateTransition { new_state: CsvState::StartOfField, action: Action::CommitField })
            } else if ch == '\n' || ch == '\r' {
                Ok(StateTransition { new_state: CsvState::EndOfRecord, action: Action::CommitRow })
            } else {
                Ok(StateTransition { new_state: CsvState::InUnquotedField, action: Action::AppendChar(ch) })
            }
        },
        None => Ok(StateTransition { new_state: CsvState::Finished, action: Action::NoOp }),
    }
}

/// Inside an unquoted field: a delimiter commits the field, a terminator
/// commits the row, end of input commits the trailing field; everything
/// else is data.
pub fn handle_in_unquoted_field(c: Option<char>, config: &CsvConfig) -> (r: Result<
    StateTransition,
    CsvError,
>)
    ensures
        r == spec_transition(CsvState::InUnquotedField, c, *config),
{
    match c {
        Some(ch) => {
            if ch == config.delimiter {
                Ok(StateTransition { new_state: CsvState::StartOfField, action: Action::CommitField })
            } else if ch == '\n' || ch == '\r' {
                Ok(StateTransition { new_state: CsvState::EndOfRecord, action: Action::CommitRow })
            } else {
                Ok(StateTransition { new_state: CsvState::InUnquotedField, action: Action::AppendChar(ch) })
            }
        },
        None => Ok(StateTransition { new_state: CsvState::Finished, action: Action::CommitField }),
    }
}

/// Inside a quoted field: the quote character needs one character of
/// lookahead (`QuoteSeen`), the escape character (custom mode only)
/// suspends interpretation (`CustomEscapeSeen`), and end of input is an
/// unclosed quote.  Everything else, delimiters and terminators included,
/// is data.
pub fn handle_in_quoted_field(c: Option<char>, config: &CsvConfig) -> (r: Result<
    StateTransition,
    CsvError,
>)
    ensures
        r == spec_transition(CsvState::InQuotedField, c, *config),
{
    match c {
        Some(ch) => {
            if ch == config.quote {
                Ok(StateTransition { new_state: CsvState::QuoteSeen, action: Action::NoOp })
            } else if ch == config.escape {
                Ok(StateTransition { new_state: CsvState::CustomEscapeSeen, action: Action::NoOp })
            } else {
                Ok(StateTransition { new_state: CsvState::InQuotedField, action: Action::AppendChar(ch) })
            }
        },
        None => Err(CsvError::UnclosedQuote),
    }
}

/// Just after a quote inside a quoted field: the escape character makes it
/// an escaped quote (in RFC mode the escape character is the quote itself,
/// so this covers the doubled quote), a delimiter or terminator closes the
/// field or row, end of input commits the trailing row, and any other
/// character is an error.
pub fn handle_quote_seen(c: Option<char>, config: &CsvConfig) -> (r: Result<
    StateTransition,
    CsvError,
>)
    ensures
        r == spec_transition(CsvState::QuoteSeen, c, *config),
{
    match c {
        Some(ch) => {
            if ch == config.escape {
                Ok(StateTransition { new_state: CsvState::InQuotedField, action: Action::AppendEscapedQuote })
            } else if ch == config.delimiter {
                Ok(StateTransition { new_state: CsvState::StartOfField, action: Action::CommitField })
            } else if ch == '\n' || ch == '\r' {
                Ok(StateTransition { new_state: CsvState::EndOfRecord, action: Action::CommitRow })
            } else {
                Err(CsvError::DataAfterClosingQuote(ch))
            }
        },
        None => Ok(StateTransition { new_state: CsvState::Finished, action: Action::CommitRow }),
    }
}

/// Just after a custom escape character: the next character is always
/// literal data, never reinterpreted; end of input is an unclosed quote.
pub fn handle_custom_escape_seen(c: Option<char>, config: &CsvConfig) -> (r: Result<
    StateTransition,
    CsvError,
>)
    ensures
        r == spec_transition(CsvState::CustomEscapeSeen, c, *config),
{
    match c {
        Some(ch) => Ok(StateTransition { new_state: CsvState::InQuotedField, action: Action::AppendChar(ch) }),
        None => Err(CsvError::UnclosedQuote),
    }
}

/// Just after a record terminator: further terminators are absorbed (this
/// merges CR LF pairs and blank lines), anything else resumes scanning.
pub fn handle_end_of_record(c: Option<char>, config: &CsvConfig) -> (r: Result<
    StateTransition,
    CsvError,
>)
    ensures
        r == spec_transition(CsvState::EndOfRecord, c, *config),
{
    match c {
        Some(ch) => {
            if ch == '\n' || ch == '\r' {
                Ok(StateTransition { new_state: CsvState::EndOfRecord, action: Action::NoOp })
            } else {
                Ok(StateTransition { new_state: CsvState::StartOfField, action: Action::NoOp })
            }
        },
        None => Ok(StateTransition { new_state: CsvState::Finished, action: Action::NoOp }),
    }
}

/// Terminal state: every input is a no-op.
pub fn handle_finished(c: Option<char>, config: &CsvConfig) -> (r: Result<
    StateTransition,
    CsvError,
>)
    ensures
        r == spec_transition(CsvState::Finished, c, *config),
{
    Ok(StateTransition { new_state: CsvState::Finished, action: Action::NoOp })
}

/// The transition function: pure, no owned state.  Dispatches to one
/// handler per state and returns exactly what the transition table
/// [`spec_transition`] prescribes.
pub fn transition(current_state: CsvState, c: Option<char>, config: &CsvConfig) -> (r: Result<
    StateTransition,
    CsvError,
>)
    ensures
        r == spec_transition(current_state, c, *config),
{
    match current_state {
        CsvState::StartOfField => handle_start_of_field(c, config),
        CsvState::InUnquotedField => handle_in_unquoted_field(c, config),
        CsvState::InQuotedField => handle_in_quoted_field(c, config),
        CsvState::QuoteSeen => handle_quote_seen(c, config),
        CsvState::CustomEscapeSeen => handle_custom_escape_seen(c, config),
        CsvState::EndOfRecord => handle_end_of_record(c, config),
        CsvState::Finished => handle_finished(c, config),
    }
}

} // verus!
