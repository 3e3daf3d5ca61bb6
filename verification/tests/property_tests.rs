use csv_chunk_parser::{CsvChunkParser, CsvConfig, CsvError, CsvState};

fn parse_streaming_full(
    chunks: &[&str],
    config: CsvConfig,
) -> Result<Vec<Vec<String>>, CsvError> {
    let mut parser = CsvChunkParser::new(config);
    let mut all_rows = Vec::new();

    for chunk in chunks {
        let result = parser.process_chunk(chunk)?;
        all_rows.extend(result.complete_rows);
    }

    if parser.state() != CsvState::Finished {
        let final_result = parser.process_chunk("")?;
        all_rows.extend(final_result.complete_rows);
    }

    Ok(all_rows)
}

// Round trip: joining the parsed rows with the configured delimiter and a
// newline reproduces the input text.
#[test]
fn test_round_trip_single_chunk() -> Result<(), CsvError> {
    let config = CsvConfig::default();
    let input = "Alpha,Beta\nGamma,Delta\nEpsilon,Zeta\n";

    let mut parser = CsvChunkParser::new(config);
    let result = parser.process_chunk(input)?;

    let mut rejoined = String::new();
    for row in &result.complete_rows {
        rejoined.push_str(&row.join(","));
        rejoined.push('\n');
    }
    assert_eq!(rejoined, input);
    Ok(())
}

// Chunk invariance: splitting at a record boundary yields the same rows
// as parsing everything in one chunk.
#[test]
fn test_chunk_invariance_at_record_boundary() -> Result<(), CsvError> {
    let config = CsvConfig::default();
    let whole = parse_streaming_full(&["Row1,A\nRow2,B\n"], config)?;
    let split = parse_streaming_full(&["Row1,A\n", "Row2,B\n"], config)?;

    assert_eq!(whole, split);
    assert_eq!(whole.len(), 2);
    assert_eq!(whole[0], vec!["Row1", "A"]);
    assert_eq!(whole[1], vec!["Row2", "B"]);
    Ok(())
}

// Chunk invariance holds even when a CR LF pair is split across chunks.
#[test]
fn test_chunk_invariance_split_crlf() -> Result<(), CsvError> {
    let config = CsvConfig::default();
    let whole = parse_streaming_full(&["A\r\nB\r\n"], config)?;
    let split = parse_streaming_full(&["A\r", "\nB\r\n"], config)?;

    assert_eq!(whole, split);
    assert_eq!(whole.len(), 2);
    assert_eq!(whole[0], vec!["A"]);
    assert_eq!(whole[1], vec!["B"]);
    Ok(())
}

// Leading and repeated terminators collapse to zero rows.
#[test]
fn test_leading_terminators_collapse() -> Result<(), CsvError> {
    let config = CsvConfig::default();
    let rows = parse_streaming_full(&["\r\n\n\nRow\n"], config)?;

    assert_eq!(rows.len(), 1);
    assert_eq!(rows[0], vec!["Row"]);
    Ok(())
}

// A lone terminator is a blank line and produces nothing, but a row of
// two empty fields is a real record and is kept.
#[test]
fn test_blank_line_versus_two_empty_fields() -> Result<(), CsvError> {
    let config = CsvConfig::default();

    let blank = parse_streaming_full(&["\n"], config)?;
    assert_eq!(blank.len(), 0);

    let two_empty = parse_streaming_full(&[",\n"], config)?;
    assert_eq!(two_empty.len(), 1);
    assert_eq!(two_empty[0], vec!["", ""]);
    Ok(())
}

// The leftover suffix is empty whenever a chunk is fully walked, even
// when the parser stops mid-quote and carries state to the next call.
#[test]
fn test_leftover_empty_mid_quote() -> Result<(), CsvError> {
    let config = CsvConfig::default();
    let mut parser = CsvChunkParser::new(config);

    let result = parser.process_chunk("Start,\"half a field")?;
    assert_eq!(result.complete_rows.len(), 0);
    assert_eq!(result.leftover_data, "");
    assert_eq!(parser.state(), CsvState::InQuotedField);

    let result2 = parser.process_chunk(" done\",End\n")?;
    assert_eq!(result2.complete_rows.len(), 1);
    assert_eq!(result2.complete_rows[0], vec!["Start", "half a field done", "End"]);
    Ok(())
}

// Known edge case of the deliberate chunk-boundary policy: a non-empty
// chunk that ends inside an unquoted field force-commits that field,
// reaches the terminal state and discards the pending row, so trailing
// data without a final terminator is lost rather than flushed.
#[test]
fn test_boundary_policy_discards_trailing_unquoted_row() -> Result<(), CsvError> {
    let config = CsvConfig::default();

    let rows = parse_streaming_full(&["a,b"], config)?;
    assert_eq!(rows.len(), 0);

    // the same applies when the tail of a split field would have arrived
    // in the next chunk: the first part is committed and then dropped
    let split = parse_streaming_full(&["Row1\nRo", "w2\n"], config)?;
    assert_eq!(split, vec![vec!["Row1".to_string()]]);
    Ok(())
}

// The other half of the boundary policy: a chunk that ends just after a
// closing quote commits the whole trailing row, so it is emitted.
#[test]
fn test_boundary_policy_commits_trailing_quoted_row() -> Result<(), CsvError> {
    let config = CsvConfig::default();
    let mut parser = CsvChunkParser::new(config);

    let result = parser.process_chunk("x,\"q\"")?;
    assert_eq!(result.complete_rows.len(), 1);
    assert_eq!(result.complete_rows[0], vec!["x", "q"]);
    assert_eq!(parser.state(), CsvState::Finished);
    Ok(())
}

// An escaped quote in custom mode may sit at the very end of a chunk; the
// pending escape is carried over to the next call.
#[test]
fn test_custom_escape_split_across_chunks() -> Result<(), CsvError> {
    let config = CsvConfig { delimiter: ',', quote: '"', escape: '\\' };
    let rows = parse_streaming_full(&["\"left\\", "\"right\"\n"], config)?;

    assert_eq!(rows.len(), 1);
    assert_eq!(rows[0], vec!["left\"right"]);
    Ok(())
}

// End of input inside a pending custom escape is an unclosed quote.
#[test]
fn test_unclosed_escape_is_unclosed_quote() {
    let config = CsvConfig { delimiter: ',', quote: '"', escape: '\\' };
    let result = parse_streaming_full(&["\"left\\"], config);

    assert!(matches!(result, Err(CsvError::UnclosedQuote)));
}

// The offending character is reported exactly, even when multi-byte.
#[test]
fn test_data_after_closing_quote_reports_char() {
    let config = CsvConfig::default();
    let mut parser = CsvChunkParser::new(config);

    let result = parser.process_chunk("\"ok\"é,x\n");
    assert!(matches!(result, Err(CsvError::DataAfterClosingQuote('é'))));
}

// After the end-of-input signal the parser is finished and further
// chunks are no-ops.
#[test]
fn test_finished_state_absorbs_everything() -> Result<(), CsvError> {
    let config = CsvConfig::default();
    let mut parser = CsvChunkParser::new(config);

    parser.process_chunk("")?;
    assert_eq!(parser.state(), CsvState::Finished);

    let result = parser.process_chunk("a,b\n")?;
    assert_eq!(result.complete_rows.len(), 0);
    assert_eq!(result.leftover_data, "");
    assert_eq!(parser.state(), CsvState::Finished);
    Ok(())
}

// In RFC mode a quoted field may be empty, and doubling works at the
// field's very start.
#[test]
fn test_rfc_empty_and_leading_escaped_quote() -> Result<(), CsvError> {
    let config = CsvConfig::default();
    let rows = parse_streaming_full(&["\"\",\"\"\"lead\"\n"], config)?;

    assert_eq!(rows.len(), 1);
    assert_eq!(rows[0], vec!["", "\"lead"]);
    Ok(())
}
