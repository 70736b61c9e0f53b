//! Role resolution, the scoring dispatch, the graph ranks, identifiers,
//! settings, and the shell-facing helper types.

use terraphim_core::calculate_hash;
use terraphim_core::count_occurrences;
use terraphim_core::decimal_string;
use terraphim_core::index_messages;
use terraphim_core::score_indexed_documents;
use terraphim_core::sort_documents;
use terraphim_core::Article;
use terraphim_core::Config;
use terraphim_core::ConfigState;
use terraphim_core::Data;
use terraphim_core::FileSnapshot;
use terraphim_core::IndexedDocument;
use terraphim_core::LogseqIndexer;
use terraphim_core::LogseqService;
use terraphim_core::Message;
use terraphim_core::Port;
use terraphim_core::RelevanceFunction;
use terraphim_core::Role;
use terraphim_core::SearchQuery;
use terraphim_core::ServiceError;
use terraphim_core::Settings;
use terraphim_core::TerraphimService;
use terraphim_core::Thesaurus;

fn title_role() -> Role {
    Role {
        relevance_function: RelevanceFunction::TitleScorer,
        haystacks: vec!["notes".to_string()],
        automata_url: String::new(),
    }
}

fn query(term: &str, role: Option<&str>) -> SearchQuery {
    SearchQuery {
        search_term: term.to_string(),
        role: role.map(|r| r.to_string()),
        skip: None,
        limit: None,
    }
}

fn service_with(roles: Vec<(String, Role)>, indexed: Vec<IndexedDocument>) -> TerraphimService {
    TerraphimService::new(ConfigState {
        config: Config { default_role: "Default".to_string(), roles },
        indexed,
    })
}

#[test]
fn unconfigured_role_is_a_configuration_error() {
    let service = service_with(vec![("Default".to_string(), title_role())], Vec::new());
    let result = service.get_search_role(&query("x", Some("System Operator")));
    match result {
        Err(ServiceError::Config(m)) => {
            assert_eq!(m, "Role System Operator not found in config");
        },
        _ => panic!("an unknown role is a configuration error"),
    }
}

#[test]
fn missing_role_falls_back_to_the_default() {
    let service = service_with(vec![("Default".to_string(), title_role())], Vec::new());
    let role = service.get_search_role(&query("x", None)).expect("default role exists");
    assert!(matches!(role.relevance_function, RelevanceFunction::TitleScorer));
    assert_eq!(role.haystacks, vec!["notes".to_string()]);
}

#[test]
fn search_orders_documents_by_title_relevance() {
    let paths = ["plain.md", "alpha.md", "alpha alpha.md"];
    let mut events: Vec<Message> = Vec::new();
    let mut files = FileSnapshot::new();
    let mut indexed: Vec<IndexedDocument> = Vec::new();
    for path in paths {
        events.push(Message::Begin { path: Some(path.to_string()) });
        events.push(Message::Match {
            path: Some(path.to_string()),
            lines: Data::Text { text: "line".to_string() },
        });
        events.push(Message::End);
        files.add(path.to_string(), "BODY".to_string());
        indexed.push(IndexedDocument {
            id: calculate_hash(&path.to_string()),
            matched_terms: vec!["alpha".to_string()],
            rank: 0,
        });
    }
    let index = index_messages(&events, &files);
    let service = service_with(vec![("Default".to_string(), title_role())], indexed);
    let q = query("alpha", None);
    let documents = service.search_documents(&q, &index).expect("search succeeds");
    let titles: Vec<&str> = documents.iter().map(|d| d.title.as_str()).collect();
    assert_eq!(titles, vec!["alpha alpha.md", "alpha.md", "plain.md"]);
}

#[test]
fn search_with_unknown_role_reports_before_scoring() {
    let service = service_with(vec![("Default".to_string(), title_role())], Vec::new());
    let events: Vec<Message> = Vec::new();
    let index = index_messages(&events, &FileSnapshot::new());
    let result = service.search_documents(&query("x", Some("nobody")), &index);
    assert!(matches!(result, Err(ServiceError::Config(_))));
}

#[test]
fn persisted_records_filter_by_term() {
    let a = IndexedDocument {
        id: "1".to_string(),
        matched_terms: vec!["alpha".to_string()],
        rank: 0,
    };
    let b = IndexedDocument {
        id: "2".to_string(),
        matched_terms: vec!["beta".to_string()],
        rank: 0,
    };
    let service = service_with(vec![("Default".to_string(), title_role())], vec![a, b]);
    let records = service.search_indexed_documents(&query("alpha", None));
    assert_eq!(records.len(), 1);
    assert_eq!(records[0].id, "1");
}

#[test]
fn occurrence_counts_are_exact() {
    let chars = |s: &str| s.chars().collect::<Vec<char>>();
    assert_eq!(count_occurrences(&chars("banana"), &chars("an")), 2);
    assert_eq!(count_occurrences(&chars("aaaa"), &chars("aa")), 3);
    assert_eq!(count_occurrences(&chars("abc"), &chars("d")), 0);
    assert_eq!(count_occurrences(&chars(""), &chars("a")), 0);
    assert_eq!(count_occurrences(&chars("abc"), &chars("")), 0);
}

#[test]
fn sorting_is_a_descending_permutation() {
    let doc = |title: &str| Article {
        id: None,
        title: title.to_string(),
        url: title.to_string(),
        body: String::new(),
        description: None,
    };
    let docs = vec![doc("x"), doc("a a"), doc("a")];
    let sorted = sort_documents(&query("a", None), docs);
    let titles: Vec<&str> = sorted.iter().map(|d| d.title.as_str()).collect();
    assert_eq!(titles, vec!["a a", "a", "x"]);
}

#[test]
fn graph_ranks_count_matched_concepts() {
    let mut thesaurus = Thesaurus::new();
    thesaurus.add("foo".to_string(), "concept one".to_string());
    thesaurus.add("bar".to_string(), "concept one".to_string());
    thesaurus.add("baz".to_string(), "concept two".to_string());
    let record = IndexedDocument {
        id: "1".to_string(),
        matched_terms: vec!["bar".to_string(), "baz".to_string(), "foo".to_string()],
        rank: 0,
    };
    let ranks = score_indexed_documents(&thesaurus, &query("foo", None), &vec![record]);
    assert_eq!(ranks, vec![2]);
    let unknown = IndexedDocument {
        id: "2".to_string(),
        matched_terms: vec!["bar".to_string()],
        rank: 0,
    };
    let ranks = score_indexed_documents(&thesaurus, &query("quux", None), &vec![unknown]);
    assert_eq!(ranks, vec![0]);
}

#[test]
fn thesaurus_lookups_are_first_match() {
    let mut thesaurus = Thesaurus::new();
    thesaurus.add("term".to_string(), "first".to_string());
    thesaurus.add("term".to_string(), "second".to_string());
    assert_eq!(thesaurus.concept_of(&"term".to_string()).as_deref(), Some("first"));
    assert!(thesaurus.concept_of(&"other".to_string()).is_none());
}

#[test]
fn identifiers_are_deterministic_and_decimal() {
    let a = calculate_hash(&"a.md".to_string());
    assert_eq!(a, calculate_hash(&"a.md".to_string()));
    assert_ne!(a, calculate_hash(&"b.md".to_string()));
    assert!(a.chars().all(|c| c.is_ascii_digit()));
    assert_eq!(decimal_string(0), "0");
    assert_eq!(decimal_string(7), "7");
    assert_eq!(decimal_string(1234), "1234");
    assert_eq!(decimal_string(u64::MAX), "18446744073709551615");
}

#[test]
fn config_updates_replace_and_report() {
    let mut service = service_with(vec![("Default".to_string(), title_role())], Vec::new());
    let fetched = service.fetch_config();
    assert_eq!(fetched.default_role, "Default");
    let new_config = Config { default_role: "Engineer".to_string(), roles: Vec::new() };
    let reported = service.update_config(new_config);
    assert_eq!(reported.default_role, "Engineer");
    assert_eq!(service.fetch_config().default_role, "Engineer");
}

#[test]
fn created_documents_are_persisted_as_records() {
    let mut service = service_with(vec![("Default".to_string(), title_role())], Vec::new());
    let article = Article {
        id: None,
        title: "a.md".to_string(),
        url: "a.md".to_string(),
        body: "BODY".to_string(),
        description: None,
    };
    let returned = service.create_document(article).expect("creation succeeds");
    assert_eq!(returned.url, "a.md");
    let records = service.config_state.indexed;
    assert_eq!(records.len(), 1);
    assert_eq!(records[0].id, calculate_hash(&"a.md".to_string()));
}

#[test]
fn ripgrep_invocation_is_fixed() {
    let service = LogseqService::default();
    assert_eq!(service.command, "rg");
    let args = service.command_args(&"::".to_string(), &"notes".to_string());
    assert_eq!(args, vec!["::", "notes", "--json", "--trim", "--ignore-case"]);
    let indexer = LogseqIndexer::default();
    assert_eq!(indexer.service.command, "rg");
}

#[test]
fn stock_settings_and_profiles() {
    let settings = Settings::default();
    assert_eq!(settings.server_hostname, "http://127.0.0.1:80");
    assert_eq!(settings.api_endpoint, "http://127.0.0.1:8080");
    assert!(settings.profiles.is_empty());
    let with_profile = Settings {
        profiles: vec![(
            "s3".to_string(),
            vec![("region".to_string(), "us-west-1".to_string())],
        )],
        ..Settings::default()
    };
    let profile = with_profile.get_profile(&"s3".to_string()).expect("profile exists");
    assert_eq!(profile[0], ("region".to_string(), "us-west-1".to_string()));
    assert!(with_profile.get_profile(&"gcs".to_string()).is_none());
}

#[test]
fn port_renders_in_decimal() {
    assert_eq!(Port(8080).text(), "8080");
    assert_eq!(Port(0).text(), "0");
}

#[test]
fn roles_require_a_thesaurus_only_for_the_graph() {
    let flat = title_role();
    assert!(!flat.requires_thesaurus());
    let graph = Role {
        relevance_function: RelevanceFunction::TerraphimGraph,
        haystacks: Vec::new(),
        automata_url: "file://automata".to_string(),
    };
    assert!(graph.requires_thesaurus());
}
