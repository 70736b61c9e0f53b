//! The event-stream decoder on captured search output: well-formed
//! records, escape forms, and the abort-on-first-malformed-line policy.

use terraphim_core::json_decode;
use terraphim_core::Data;
use terraphim_core::FileSnapshot;
use terraphim_core::LogseqIndexer;
use terraphim_core::Message;

#[test]
fn decodes_a_whole_pass() {
    let mut output = String::new();
    output.push_str("{\"type\":\"begin\",\"data\":{\"path\":{\"text\":\"a.md\"}}}\n");
    output.push_str("{\"type\":\"match\",\"data\":{\"path\":{\"text\":\"a.md\"},");
    output.push_str("\"lines\":{\"text\":\"synonyms:: foo, bar\\n\"},\"line_number\":1,");
    output.push_str("\"absolute_offset\":0,\"submatches\":[]}}\n");
    output.push_str("{\"type\":\"context\",\"data\":{\"path\":{\"text\":\"a.md\"},");
    output.push_str("\"lines\":{\"text\":\"more\\n\"},\"line_number\":2}}\n");
    output.push_str("{\"type\":\"end\",\"data\":{\"path\":{\"text\":\"a.md\"}}}\n");
    let output = output.as_str();
    let messages = json_decode(output).expect("well-formed output decodes");
    assert_eq!(messages.len(), 4);
    match &messages[0] {
        Message::Begin { path } => assert_eq!(path.as_deref(), Some("a.md")),
        _ => panic!("first record is a begin"),
    }
    match &messages[1] {
        Message::Match { path, lines } => {
            assert_eq!(path.as_deref(), Some("a.md"));
            match lines {
                Data::Text { text } => assert_eq!(text, "synonyms:: foo, bar\n"),
                Data::Bytes => panic!("textual payload expected"),
            }
        },
        _ => panic!("second record is a match"),
    }
    match &messages[2] {
        Message::Context { path, lines } => {
            assert_eq!(path.as_deref(), Some("a.md"));
            match lines {
                Data::Text { text } => assert_eq!(text, "more\n"),
                Data::Bytes => panic!("textual payload expected"),
            }
        },
        _ => panic!("third record is a context"),
    }
    assert!(matches!(messages[3], Message::End));
}

#[test]
fn decodes_escape_forms() {
    let output = "{\"type\":\"begin\",\"data\":{\"path\":{\"text\":\"dir\\\\a \\\"q\\\" \\t\\r\\n\"}}}";
    let messages = json_decode(output).expect("escapes decode");
    match &messages[0] {
        Message::Begin { path } => assert_eq!(path.as_deref(), Some("dir\\a \"q\" \t\r\n")),
        _ => panic!("a begin record"),
    }
}

#[test]
fn missing_path_decodes_to_none() {
    let output = "{\"type\":\"begin\",\"data\":{}}";
    let messages = json_decode(output).expect("a pathless begin decodes");
    assert!(matches!(&messages[0], Message::Begin { path: None }));
}

#[test]
fn non_textual_lines_decode_to_bytes() {
    let output = "{\"type\":\"match\",\"data\":{\"path\":{\"text\":\"a.md\"},\"lines\":{\"bytes\":\"3q2+7w==\"}}}";
    let messages = json_decode(output).expect("a binary match decodes");
    match &messages[0] {
        Message::Match { lines, .. } => assert!(matches!(lines, Data::Bytes)),
        _ => panic!("a match record"),
    }
}

#[test]
fn empty_output_decodes_to_no_events() {
    assert_eq!(json_decode("").expect("empty output").len(), 0);
}

#[test]
fn malformed_line_fails_the_whole_decode() {
    let mut output = String::new();
    output.push_str("{\"type\":\"begin\",\"data\":{\"path\":{\"text\":\"a.md\"}}}\n");
    output.push_str("not a record\n");
    output.push_str("{\"type\":\"end\"}\n");
    let output = output.as_str();
    let err = json_decode(output).expect_err("the bad line aborts the decode");
    assert_eq!(err.line, 1);
}

#[test]
fn unknown_escape_fails_the_decode() {
    let output = "{\"type\":\"begin\",\"data\":{\"path\":{\"text\":\"a\\u0041\"}}}";
    assert!(json_decode(output).is_err());
}

#[test]
fn unterminated_field_fails_the_decode() {
    let output = "{\"type\":\"begin\",\"data\":{\"path\":{\"text\":\"a.md";
    assert!(json_decode(output).is_err());
}

#[test]
fn indexer_runs_decode_and_aggregation_together() {
    let mut output = String::new();
    output.push_str("{\"type\":\"begin\",\"data\":{\"path\":{\"text\":\"a.md\"}}}\n");
    output.push_str("{\"type\":\"match\",\"data\":{\"path\":{\"text\":\"a.md\"},\"lines\":{\"text\":\"hit\"}}}\n");
    output.push_str("{\"type\":\"end\",\"data\":{}}\n");
    let output = output.as_str();
    let mut files = FileSnapshot::new();
    files.add("a.md".to_string(), "BODY".to_string());
    let indexer = LogseqIndexer::default();
    let index = indexer.index_output(output, &files).expect("pass succeeds");
    assert_eq!(index.len(), 1);
    let (_, article) = index.entry_at(0);
    assert_eq!(article.url, "a.md");
    assert_eq!(article.body, "BODY");
    assert_eq!(article.description.as_deref(), Some("hit"));
}
