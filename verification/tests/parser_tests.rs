use csv_chunk_parser::{ChunkResult, CsvChunkParser, CsvConfig, CsvError, CsvState};

// Helper to run a single chunk on a parser.
fn run_chunk(parser: &mut CsvChunkParser, chunk: &str) -> Result<ChunkResult, CsvError> {
    parser.process_chunk(chunk)
}

// Helper to stream a sequence of chunks through one parser and collect all
// completed rows, finishing with the empty-chunk end-of-input signal.
fn parse_streaming_full(
    chunks: &[&str],
    config: CsvConfig,
) -> Result<Vec<Vec<String>>, CsvError> {
    let mut parser = CsvChunkParser::new(config);
    let mut all_rows = Vec::new();

    for chunk in chunks {
        let result = parser.process_chunk(chunk)?;
        all_rows.extend(result.complete_rows);
    }

    if parser.state() != CsvState::Finished {
        let final_result = parser.process_chunk("")?;
        all_rows.extend(final_result.complete_rows);
    }

    Ok(all_rows)
}

#[test]
fn test_scenario_1_basic_completion() -> Result<(), CsvError> {
    let config = CsvConfig::default();
    let mut parser = CsvChunkParser::new(config);

    let chunk = "Value1,Value2\r\n";
    let result = run_chunk(&mut parser, chunk)?;

    assert_eq!(result.complete_rows.len(), 1);
    assert_eq!(result.complete_rows[0], vec!["Value1", "Value2"]);
    assert_eq!(result.leftover_data, "");
    Ok(())
}

#[test]
fn test_scenario_2_chunking_partial_row() -> Result<(), CsvError> {
    let config = CsvConfig::default();
    let chunks = vec![
        "Start,\"Field that ends mid-", // ends mid-field, state = InQuotedField
        "quote\",End\n",                // completes the field and row
    ];

    let rows = parse_streaming_full(&chunks, config)?;

    assert_eq!(rows.len(), 1);
    assert_eq!(rows[0], vec!["Start", "Field that ends mid-quote", "End"]);
    Ok(())
}

#[test]
fn test_scenario_3_empty_line_filtering() -> Result<(), CsvError> {
    let config = CsvConfig::default();
    let chunks = vec!["Row1\n\nRow2\r\n\r\nRow3\n"];
    let rows = parse_streaming_full(&chunks, config)?;

    assert_eq!(rows.len(), 3);
    assert_eq!(rows[0], vec!["Row1"]);
    assert_eq!(rows[1], vec!["Row2"]);
    assert_eq!(rows[2], vec!["Row3"]);
    Ok(())
}

#[test]
fn test_scenario_4_custom_delimiter() -> Result<(), CsvError> {
    let config = CsvConfig { delimiter: ';', quote: '"', escape: '"' };
    let chunks = vec!["Alpha;Beta;Gamma\n"];
    let rows = parse_streaming_full(&chunks, config)?;

    assert_eq!(rows.len(), 1);
    assert_eq!(rows[0], vec!["Alpha", "Beta", "Gamma"]);
    Ok(())
}

#[test]
fn test_scenario_5_expected_errors() {
    let config = CsvConfig::default();
    let mut parser = CsvChunkParser::new(config);

    let chunk_error = "\"bad\"data\n"; // data after closing quote ('d')

    let result = run_chunk(&mut parser, chunk_error);

    assert!(matches!(result, Err(CsvError::DataAfterClosingQuote('d'))));
}

#[test]
fn test_scenario_5b_unclosed_quote_error() {
    let config = CsvConfig::default();
    let chunks = vec!["Start,\"Unclosed field"];

    let result = parse_streaming_full(&chunks, config);

    assert!(matches!(result, Err(CsvError::UnclosedQuote)));
}

#[test]
fn test_scenario_6a_standard_escaping() -> Result<(), CsvError> {
    let config = CsvConfig::default();
    let chunks = vec!["Field1,\"Value with \"\"Escaped\"\" Quote\",Field3\n"];
    let rows = parse_streaming_full(&chunks, config)?;

    let expected_field2 = "Value with \"Escaped\" Quote".to_string();

    assert_eq!(rows.len(), 1);
    assert_eq!(rows[0], vec!["Field1", &expected_field2, "Field3"]);
    Ok(())
}

#[test]
fn test_scenario_6c_quoted_field_with_commas() -> Result<(), CsvError> {
    let config = CsvConfig::default();
    let chunks = vec!["\"CLIENT_0,000000,001\",SHOPIFY,SALE\n"];
    let rows = parse_streaming_full(&chunks, config)?;

    assert_eq!(rows.len(), 1);
    assert_eq!(rows[0], vec!["CLIENT_0,000000,001", "SHOPIFY", "SALE"]);
    Ok(())
}

#[test]
fn test_scenario_6b_custom_escaping() -> Result<(), CsvError> {
    // Config: quote='"', escape='\\'
    let config = CsvConfig { delimiter: ',', quote: '"', escape: '\\' };
    // The literal below represents: A,"Value with \"Escaped\" Quote",B
    let chunks = vec!["A,\"Value with \\\"Escaped\\\" Quote\",B\n"];
    let rows = parse_streaming_full(&chunks, config)?;

    let expected_field2 = "Value with \"Escaped\" Quote".to_string();

    assert_eq!(rows.len(), 1);
    assert_eq!(rows[0], vec!["A", &expected_field2, "B"]);
    Ok(())
}

#[test]
fn test_utf8_handling() -> Result<(), CsvError> {
    let config = CsvConfig::default();

    // Various multi-byte characters: emojis, accented chars, Cyrillic
    let chunks = vec![
        "Hello,🌟,café,ñoño,тест\n",
        "\"Field with 🌟 emoji\",normal,\"🎉🎊\"\n",
    ];

    let rows = parse_streaming_full(&chunks, config)?;

    assert_eq!(rows.len(), 2);
    assert_eq!(rows[0], vec!["Hello", "🌟", "café", "ñoño", "тест"]);
    assert_eq!(rows[1], vec!["Field with 🌟 emoji", "normal", "🎉🎊"]);

    Ok(())
}

#[test]
fn test_utf8_multibyte_chars() -> Result<(), CsvError> {
    let config = CsvConfig::default();

    // Characters that use 1, 2, 3, 4 and 4 encoded bytes
    let chunks = vec![
        "a,é,€,𝄞,🎵\n",
        "\"𝄞 G-clef\",\"🎵 music note\"\n",
    ];

    let rows = parse_streaming_full(&chunks, config)?;

    assert_eq!(rows.len(), 2);
    assert_eq!(rows[0], vec!["a", "é", "€", "𝄞", "🎵"]);
    assert_eq!(rows[1], vec!["𝄞 G-clef", "🎵 music note"]);

    Ok(())
}
