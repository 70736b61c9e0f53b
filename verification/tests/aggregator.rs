//! The aggregation state machine, the deduplication policy, and the
//! memoization cache, exercised on concrete event sequences.

use terraphim_core::calculate_hash;
use terraphim_core::index_messages;
use terraphim_core::Data;
use terraphim_core::FileSnapshot;
use terraphim_core::Index;
use terraphim_core::IndexCache;
use terraphim_core::Message;

fn begin(path: &str) -> Message {
    Message::Begin { path: Some(path.to_string()) }
}

fn match_line(path: &str, text: &str) -> Message {
    Message::Match { path: Some(path.to_string()), lines: Data::Text { text: text.to_string() } }
}

fn context_line(path: &str, text: &str) -> Message {
    Message::Context { path: Some(path.to_string()), lines: Data::Text { text: text.to_string() } }
}

fn snapshot(files: &[(&str, &str)]) -> FileSnapshot {
    let mut s = FileSnapshot::new();
    for (path, content) in files {
        s.add(path.to_string(), content.to_string());
    }
    s
}

fn entry(index: &Index, i: usize) -> (String, String, String, String, Option<String>) {
    let (key, article) = index.entry_at(i);
    (
        key.clone(),
        article.title.clone(),
        article.url.clone(),
        article.body.clone(),
        article.description.clone(),
    )
}

#[test]
fn single_document_pass() {
    let events = vec![begin("a.md"), match_line("a.md", "alpha beta"), Message::End];
    let files = snapshot(&[("a.md", "FILEBODY")]);
    let index = index_messages(&events, &files);
    assert_eq!(index.len(), 1);
    let (key, title, url, body, description) = entry(&index, 0);
    assert_eq!(key, calculate_hash(&"a.md".to_string()));
    assert_eq!(title, "a.md");
    assert_eq!(url, "a.md");
    assert_eq!(body, "FILEBODY");
    assert_eq!(description.as_deref(), Some("alpha beta"));
}

#[test]
fn duplicate_begin_is_ignored() {
    let events = vec![begin("a.md"), begin("a.md"), match_line("a.md", "x"), Message::End];
    let files = snapshot(&[("a.md", "BODY")]);
    let index = index_messages(&events, &files);
    assert_eq!(index.len(), 1);
    let (_, _, url, body, description) = entry(&index, 0);
    assert_eq!(url, "a.md");
    assert_eq!(body, "BODY");
    assert_eq!(description.as_deref(), Some("x"));
}

#[test]
fn dedup_collapses_to_first_begin() {
    let events = vec![
        begin("a.md"),
        match_line("a.md", "one"),
        Message::End,
        begin("a.md"),
        match_line("a.md", "two"),
        Message::End,
    ];
    let files = snapshot(&[("a.md", "BODY")]);
    let index = index_messages(&events, &files);
    assert_eq!(index.len(), 1);
    let (_, _, url, _, description) = entry(&index, 0);
    assert_eq!(url, "a.md");
    // The second Begin is suppressed, so the still-open record for a.md
    // keeps accumulating and its End replaces the earlier entry in place.
    assert_eq!(description.as_deref(), Some("one two"));
}

#[test]
fn interleaved_documents_follow_the_machine() {
    let events = vec![
        begin("a.md"),
        match_line("a.md", "a1"),
        begin("b.md"),
        match_line("b.md", "b1"),
        Message::End,
        Message::End,
    ];
    let files = snapshot(&[("a.md", "A"), ("b.md", "B")]);
    let index = index_messages(&events, &files);
    // Opening b.md resets the working record before a.md ever saw its
    // End, so only b.md is finalized; the second End re-inserts it.
    assert_eq!(index.len(), 1);
    let (_, _, url, body, description) = entry(&index, 0);
    assert_eq!(url, "b.md");
    assert_eq!(body, "B");
    assert_eq!(description.as_deref(), Some("b1"));
}

#[test]
fn premature_end_produces_nothing() {
    let files = snapshot(&[("a.md", "A")]);
    let index = index_messages(&vec![Message::End], &files);
    assert_eq!(index.len(), 0);
    let events = vec![Message::Begin { path: None }, Message::End, Message::End];
    let index = index_messages(&events, &files);
    assert_eq!(index.len(), 0);
}

#[test]
fn context_for_other_document_is_dropped() {
    let events = vec![
        begin("a.md"),
        match_line("a.md", "m"),
        context_line("b.md", "c"),
        Message::End,
    ];
    let files = snapshot(&[("a.md", "A"), ("b.md", "B")]);
    let index = index_messages(&events, &files);
    assert_eq!(index.len(), 1);
    let (_, _, _, body, description) = entry(&index, 0);
    assert_eq!(body, "A");
    assert_eq!(description.as_deref(), Some("m"));
}

#[test]
fn context_for_own_document_extends_description() {
    let events = vec![
        begin("a.md"),
        match_line("a.md", "m"),
        context_line("a.md", "c"),
        Message::End,
    ];
    let files = snapshot(&[("a.md", "A")]);
    let index = index_messages(&events, &files);
    let (_, _, _, _, description) = entry(&index, 0);
    assert_eq!(description.as_deref(), Some("m c"));
}

#[test]
fn unreadable_file_skips_the_event() {
    let events = vec![begin("a.md"), match_line("a.md", "x"), Message::End];
    let files = snapshot(&[]);
    let index = index_messages(&events, &files);
    assert_eq!(index.len(), 1);
    let (_, _, _, body, description) = entry(&index, 0);
    assert_eq!(body, "");
    assert_eq!(description, None);
}

#[test]
fn non_textual_payload_keeps_description() {
    let events = vec![
        begin("a.md"),
        Message::Match { path: Some("a.md".to_string()), lines: Data::Bytes },
        Message::End,
    ];
    let files = snapshot(&[("a.md", "A")]);
    let index = index_messages(&events, &files);
    let (_, _, _, body, description) = entry(&index, 0);
    assert_eq!(body, "A");
    assert_eq!(description, None);
}

#[test]
fn aggregation_is_deterministic() {
    let events = vec![
        begin("a.md"),
        match_line("a.md", "one"),
        context_line("a.md", "ctx"),
        Message::End,
        begin("b.md"),
        match_line("b.md", "two"),
        Message::End,
    ];
    let files = snapshot(&[("a.md", "A"), ("b.md", "B")]);
    let first = index_messages(&events, &files);
    let second = index_messages(&events, &files);
    assert_eq!(first.len(), second.len());
    for i in 0..first.len() {
        assert_eq!(entry(&first, i), entry(&second, i));
    }
}

#[test]
fn cache_is_transparent() {
    let events = vec![
        begin("a.md"),
        match_line("a.md", "one"),
        Message::End,
        begin("b.md"),
        match_line("b.md", "two"),
        Message::End,
    ];
    let files = snapshot(&[("a.md", "A"), ("b.md", "B")]);
    let direct = index_messages(&events, &files);
    let mut cache = IndexCache::new();
    let miss = cache.index_cached(&events, &files);
    let hit = cache.index_cached(&events, &files);
    assert_eq!(direct.len(), miss.len());
    assert_eq!(direct.len(), hit.len());
    for i in 0..direct.len() {
        assert_eq!(entry(&direct, i), entry(&miss, i));
        assert_eq!(entry(&direct, i), entry(&hit, i));
    }
    let other = vec![begin("a.md"), match_line("a.md", "one"), Message::End];
    let other_cached = cache.index_cached(&other, &files);
    let other_direct = index_messages(&other, &files);
    assert_eq!(other_cached.len(), other_direct.len());
    assert_eq!(entry(&other_cached, 0), entry(&other_direct, 0));
}

#[test]
fn index_get_finds_by_identifier() {
    let events = vec![begin("a.md"), match_line("a.md", "m"), Message::End];
    let files = snapshot(&[("a.md", "A")]);
    let index = index_messages(&events, &files);
    let id = calculate_hash(&"a.md".to_string());
    let found = index.get(&id).expect("document under its identifier");
    assert_eq!(found.url, "a.md");
    assert!(index.get(&"no such id".to_string()).is_none());
}
