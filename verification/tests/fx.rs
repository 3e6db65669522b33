use ccusage::cost::Cost;
use ccusage::fx::lines::{generation_lines, session_lines};
use ccusage::fx::loader::{has_data, load_entries, load_entries_from_paths};
use ccusage::fx::parser::{
    attribute_generation, calculate_cost_from_tokens_raw, entry_id, generations,
    inquiry, load_session_index, loaded_entry, read_data_dir,
};
use ccusage::fx::paths::{paths, FX_DIRECTORY, FX_HOME_ENV};
use ccusage::fx::records::{
    CostMode, FxEventLine, FxGeneration, FxLine, FxSession, FxSessionStarted, Inquiry, Ledger,
    LoadedEntry, Quote, QuotedGeneration, SessionLog, TokenUsageRaw, UsageEntry, UsageMessage,
};
use ccusage::paths::{
    candidate_paths, existing_paths, is_same_path, join_path, name_of_path, NoHome,
};
use serde_json::Value;

fn dollars(value: f64) -> Cost {
    Cost { bits: value.to_bits() }
}

fn text_field(value: &Value, name: &str) -> Option<String> {
    value
        .get(name)
        .and_then(Value::as_str)
        .filter(|text| !text.is_empty())
        .map(str::to_string)
}

fn count_field(value: &Value, name: &str) -> u64 {
    value.get(name).and_then(Value::as_u64).unwrap_or(0)
}

fn record(line: &[u8]) -> Option<FxLine> {
    let value: Value = serde_json::from_slice(line).ok()?;
    let fact = value.get("fact").map(|fact| FxGeneration {
        id: text_field(fact, "id"),
        created_at_ms: count_field(fact, "created_at_ms"),
        model: text_field(fact, "model"),
        input_tokens: count_field(fact, "input_tokens"),
        output_tokens: count_field(fact, "output_tokens"),
        cache_read_tokens: count_field(fact, "cache_read_tokens"),
        cache_write_tokens: count_field(fact, "cache_write_tokens"),
        total_cost: fact.get("total_cost").and_then(Value::as_f64).map(dollars),
    });
    Some(FxLine { kind: text_field(&value, "kind"), fact })
}

fn event(line: &[u8]) -> Option<FxEventLine> {
    let value: Value = serde_json::from_slice(line).ok()?;
    Some(FxEventLine {
        kind: text_field(&value, "kind"),
        payload: value.get("payload").map(|payload| FxSessionStarted {
            id: text_field(payload, "id"),
            created_at_ms: count_field(payload, "created_at_ms"),
            workspace_root: text_field(payload, "workspace_root"),
        }),
    })
}

fn quote(inquiry: &Inquiry) -> Quote {
    Quote {
        priced: None,
        missing_pricing_model: inquiry.model.clone(),
        date: "2026-08-20".to_string(),
        timestamp_text: format!("@{}", inquiry.timestamp),
    }
}

fn ledger(directory: &str, usage: &str, logs: &[(&str, &str)]) -> Ledger {
    let records = generation_lines(&usage.as_bytes().to_vec())
        .iter()
        .filter_map(|line| record(line))
        .collect();
    Ledger {
        directory: directory.to_string(),
        generations: generations(records)
            .into_iter()
            .map(|fact| {
                let quote = quote(&inquiry(&fact));
                QuotedGeneration { fact, quote }
            })
            .collect(),
        sessions: logs
            .iter()
            .map(|(name, content)| SessionLog {
                directory: name.to_string(),
                events: session_lines(&content.as_bytes().to_vec())
                    .iter()
                    .filter_map(|line| event(line))
                    .collect(),
            })
            .collect(),
    }
}

fn fact(id: Option<&str>, created_at_ms: u64) -> FxGeneration {
    FxGeneration {
        id: id.map(str::to_string),
        created_at_ms,
        model: Some("m".to_string()),
        input_tokens: 1,
        output_tokens: 1,
        cache_read_tokens: 0,
        cache_write_tokens: 0,
        total_cost: Some(dollars(0.0)),
    }
}

fn session(id: &str, started_at_ms: u64, project: Option<&str>) -> FxSession {
    FxSession { id: id.to_string(), project: project.map(str::to_string), started_at_ms }
}

fn names(list: &[&str]) -> Vec<String> {
    list.iter().map(|name| name.to_string()).collect()
}

#[test]
fn loads_generations_with_session_and_workspace_attribution() {
    let usage = [
        r#"{"schema_version":1,"kind":"coverage","started_at_ms":1787166151090}"#,
        r#"{"schema_version":1,"kind":"generation","fact":{"id":"gen_1","created_at_ms":1787166200000,"model":"zai/glm-5.2","input_tokens":100,"output_tokens":10,"cache_read_tokens":5,"cache_write_tokens":0,"reasoning_tokens":0,"billable_web_search_calls":0,"total_cost":0.01}}"#,
        r#"{"schema_version":1,"kind":"generation","fact":{"id":"gen_2","created_at_ms":1787166300000,"model":"zai/glm-5.2-fast","input_tokens":200,"output_tokens":20,"cache_read_tokens":0,"cache_write_tokens":2,"reasoning_tokens":0,"billable_web_search_calls":0,"total_cost":0}}"#,
        r#"{"schema_version":1,"kind":"incident","occurred_at_ms":1787166520804,"completeness":"incomplete"}"#,
    ]
    .join("\n");
    let events = [
        r#"{"schema_version":1,"seq":1,"event_id":"e1","timestamp_ms":1787166124307,"kind":"session_started","payload":{"id":"1787166124307-abc","created_at_ms":1787166124307,"origin_workspace_root":"/Users/me/Projects/alpha","workspace_root":"/Users/me/Projects/alpha"}}"#,
    ]
    .join("\n");
    let found = paths(None, None, Some("/home/me"), &names(&["/home/me/.fx"])).unwrap();
    assert_eq!(found, names(&["/home/me/.fx"]));
    let ledgers = found
        .iter()
        .map(|directory| {
            Some(ledger(directory, &usage, &[("1787166124307-abc", &events)]))
        })
        .collect();

    let entries = load_entries(Ok(ledgers), CostMode::Auto).expect("load fx entries");

    assert_eq!(entries.len(), 2);
    let first = &entries[0];
    assert_eq!(first.data.message.id.as_deref(), Some("gen_1"));
    assert_eq!(first.session_id, "1787166124307-abc");
    assert_eq!(first.project, "/Users/me/Projects/alpha");
    assert_eq!(first.model.as_deref(), Some("[fx] zai/glm-5.2"));
    assert_eq!(
        first.data.cost_usd,
        Some(dollars(0.01)),
        "embedded display cost must survive"
    );
    let second = &entries[1];
    assert_eq!(
        second.data.message.usage.cache_creation_input_tokens,
        2,
        "cache write tokens map from cache_write_tokens"
    );
}

#[test]
fn generation_before_any_session_falls_back_to_data_dir_name() {
    let usage = r#"{"schema_version":1,"kind":"generation","fact":{"id":"gen_early","created_at_ms":1000,"model":"m","input_tokens":3,"output_tokens":4,"cache_read_tokens":0,"cache_write_tokens":0,"total_cost":0}}"#;
    let ledgers = vec![Some(ledger("/home/me/.fx", usage, &[]))];

    let entries = load_entries(Ok(ledgers), CostMode::Auto).unwrap();

    assert_eq!(entries.len(), 1);
    assert_eq!(entries[0].session_id, "(no session)");
    assert_eq!(entries[0].project, ".fx");
}

#[test]
fn zero_token_generations_are_skipped() {
    let usage = r#"{"schema_version":1,"kind":"generation","fact":{"id":"gen_zero","created_at_ms":1787166150000,"model":"zai/glm-5.2","input_tokens":0,"output_tokens":0,"cache_read_tokens":0,"cache_write_tokens":0,"total_cost":0}}"#;
    let ledgers = vec![Some(ledger("/home/me/.fx", usage, &[]))];

    let entries = load_entries(Ok(ledgers), CostMode::Auto).unwrap();

    assert!(entries.is_empty());
}

#[test]
fn duplicate_directories_dedupe_by_generation_id() {
    let usage = r#"{"schema_version":1,"kind":"generation","fact":{"id":"gen_dup","created_at_ms":1787166150000,"model":"m","input_tokens":1,"output_tokens":1,"cache_read_tokens":0,"cache_write_tokens":0,"total_cost":0}}"#;
    let one = "/tmp/one".to_string();
    let two = "/tmp/two".to_string();
    let combined = format!("{one},{two}");
    let found = paths(Some(&combined), None, None, &vec![one.clone(), two.clone()]).unwrap();
    assert_eq!(found, vec![one, two]);
    let ledgers = found
        .iter()
        .map(|directory| Some(ledger(directory, usage, &[])))
        .collect();

    let entries = load_entries(Ok(ledgers), CostMode::Auto).unwrap();

    assert_eq!(entries.len(), 1, "same generation id across dirs dedupes");
    assert_eq!(entries[0].project, "one");
}

#[test]
fn has_data_detects_usage_jsonl() {
    let directories = names(&["/home/me/.fx"]);
    let files = names(&["/home/me/.fx/usage.jsonl"]);
    assert!(has_data(None, Some("/home/me"), &directories, &files));
}

#[test]
fn has_data_is_false_without_usage_jsonl() {
    let files = names(&["/home/me/sessions/abc/events.jsonl"]);
    assert!(!has_data(None, Some("/home/me"), &vec![], &files));
    assert!(!has_data(None, Some("/home/me"), &names(&["/home/me/.fx"]), &files));
    assert!(!has_data(None, None, &vec![], &files));
    assert!(has_data(
        Some("/a, /b"),
        None,
        &names(&["/a", "/b"]),
        &names(&["/b/usage.jsonl"])
    ));
}

#[test]
fn paths_defaults_to_dotfx_under_home() {
    let directories = names(&["/home/me/.fx"]);

    let paths = paths(None, None, Some("/home/me"), &directories).unwrap();

    assert_eq!(paths.len(), 1);
    assert!(paths[0].ends_with(".fx"));
    assert_eq!(paths[0], "/home/me/.fx");
    assert_eq!(FX_DIRECTORY, ".fx");
}

#[test]
fn fx_home_env_overrides_default() {
    let custom = "/home/me/custom-fx".to_string();
    let directories = vec![custom.clone(), "/home/me/.fx".to_string()];

    let paths = paths(None, Some(&custom), Some("/home/me"), &directories).unwrap();

    assert_eq!(paths, vec![custom]);
    assert_eq!(FX_HOME_ENV, "FX_HOME");
}

#[test]
fn custom_path_arg_overrides_env() {
    let arg_dir = "/home/me/arg-fx".to_string();
    let directories = vec![arg_dir.clone(), "/home/me/env-fx".to_string()];

    let paths = paths(Some(&arg_dir), Some("/home/me/env-fx"), None, &directories).unwrap();

    assert_eq!(paths, vec![arg_dir]);
}

#[test]
fn missing_dir_yields_empty() {
    let paths = paths(None, None, Some("/home/me"), &vec![]).unwrap();

    assert!(paths.is_empty());
}

#[test]
fn without_home_there_is_no_usual_place() {
    let error = paths(None, None, None, &vec![]).unwrap_err();
    assert_eq!(error, NoHome);
    assert_eq!(error.message(), "home directory is not set");
    assert_eq!(load_entries(Err(error), CostMode::Auto).unwrap_err(), NoHome);
}

#[test]
fn blank_settings_are_passed_over() {
    let directories = names(&["/home/me/.fx", "/env"]);
    assert_eq!(
        paths(Some("  "), Some("/env"), Some("/home/me"), &directories).unwrap(),
        names(&["/env"])
    );
    assert_eq!(
        paths(Some(" \t"), Some(""), Some("/home/me"), &directories).unwrap(),
        names(&["/home/me/.fx"])
    );
    assert_eq!(paths(Some(","), Some("/env"), Some("/home/me"), &directories).unwrap(), names(&[]));
}

#[test]
fn candidates_come_out_of_lists() {
    assert_eq!(
        candidate_paths(Some(" /a ,, /b,/c/ "), Some("/env"), None, ".fx").unwrap(),
        names(&["/a", "/b", "/c/"])
    );
    assert_eq!(
        candidate_paths(None, None, Some("/home/me/"), ".fx").unwrap(),
        names(&["/home/me/.fx"])
    );
}

#[test]
fn one_path_under_several_texts_is_found_once() {
    let list = names(&["/a/b", "/a//b/", "/a/./b", "a/b", "./a/b", "/x", "/a/c"]);
    let directories = names(&["/a/b", "/a//b/", "/a/./b", "a/b", "./a/b", "/a/c"]);
    assert_eq!(existing_paths(&list, &directories), names(&["/a/b", "a/b", "./a/b", "/a/c"]));
    let again = names(&["/a/b", "/a/c", "/a/b"]);
    assert_eq!(existing_paths(&again, &directories), names(&["/a/b", "/a/c"]));
}

#[test]
fn paths_compare_as_std_paths_do() {
    let list = [
        "", "/", "//", ".", "..", "./", "a", "./a", "a/", "a/.", "/a", "//a", "/./a", "a/b", "a//b",
        "a/./b", "a/../b", "/a/b/", "..//a", "../a", ". a", "a.", "/.", "./.", "a/b/..",
    ];
    for a in list {
        for b in list {
            let expected = std::path::Path::new(a) == std::path::Path::new(b);
            assert_eq!(is_same_path(a, b), expected, "{a:?} {b:?}");
        }
        let expected = std::path::Path::new(a).file_name().and_then(|name| name.to_str());
        assert_eq!(name_of_path(a).as_deref(), expected, "{a:?}");
    }
    for directory in ["", "/", "/home/me", "/home/me/", "a"] {
        let expected = std::path::Path::new(directory).join("x/y");
        assert_eq!(join_path(directory, "x/y"), expected.to_str().unwrap());
    }
}

#[test]
fn only_lines_with_every_mark_are_kept() {
    let content = "{\"kind\":\"generation\",\"fact\":1}\n\n{\"generation\"}\n{\"fact\":\"generation\"}";
    assert_eq!(
        generation_lines(&content.as_bytes().to_vec()),
        vec![
            b"{\"kind\":\"generation\",\"fact\":1}".to_vec(),
            b"{\"fact\":\"generation\"}".to_vec(),
        ]
    );
    assert!(generation_lines(&vec![]).is_empty());
    let events = b"\"session_started\"\nsession_started\n\xff\"session_started\"\n".to_vec();
    assert_eq!(
        session_lines(&events),
        vec![b"\"session_started\"".to_vec(), b"\xff\"session_started\"".to_vec()]
    );
}

#[test]
fn records_of_other_kinds_are_passed_over() {
    let generation = || Some("generation".to_string());
    let kept = generations(vec![
        FxLine { kind: generation(), fact: Some(fact(Some("a"), 5)) },
        FxLine { kind: None, fact: Some(fact(Some("b"), 5)) },
        FxLine { kind: Some("coverage".to_string()), fact: Some(fact(Some("c"), 5)) },
        FxLine { kind: generation(), fact: None },
        FxLine { kind: generation(), fact: Some(fact(Some("d"), 0)) },
        FxLine { kind: generation(), fact: Some(fact(Some("e"), 1)) },
    ]);
    let ids: Vec<&str> = kept.iter().filter_map(|fact| fact.id.as_deref()).collect();
    assert_eq!(ids, ["a", "e"]);
}

#[test]
fn latest_start_wins_when_sessions_overlap() {
    let sessions = vec![
        session("early", 10, Some("/early")),
        session("late", 20, None),
        session("twin", 20, Some("/twin")),
        session("future", 100, Some("/future")),
    ];
    let at = |time: u64| attribute_generation(&fact(None, time), &sessions, "fallback");
    let pair = |a: &str, b: &str| (a.to_string(), b.to_string());
    assert_eq!(at(9), pair("(no session)", "fallback"));
    assert_eq!(at(10), pair("early", "/early"));
    assert_eq!(at(19), pair("early", "/early"));
    assert_eq!(at(20), pair("late", "fallback"));
    assert_eq!(at(99), pair("late", "fallback"));
    assert_eq!(at(100), pair("future", "/future"));
    let reordered = vec![session("late", 20, None), session("early", 10, Some("/early"))];
    assert_eq!(
        attribute_generation(&fact(None, 15), &reordered, "fallback"),
        pair("early", "/early")
    );
}

#[test]
fn sessions_are_indexed_by_start() {
    let start = |id: Option<&str>, created_at_ms: u64, root: Option<&str>| FxEventLine {
        kind: Some("session_started".to_string()),
        payload: Some(FxSessionStarted {
            id: id.map(str::to_string),
            created_at_ms,
            workspace_root: root.map(str::to_string),
        }),
    };
    let index = load_session_index(vec![
        SessionLog {
            directory: "b".to_string(),
            events: vec![start(Some("b1"), 7, None), start(Some("b2"), 3, Some("/b"))],
        },
        SessionLog {
            directory: "a".to_string(),
            events: vec![
                start(Some("a1"), 7, Some("/a")),
                start(None, 1, None),
                start(Some("a2"), 0, None),
                FxEventLine { kind: Some("session_started".to_string()), payload: None },
            ],
        },
    ]);
    let ids: Vec<&str> = index.iter().map(|session| session.id.as_str()).collect();
    assert_eq!(ids, ["b2", "a1", "b1"]);
    assert_eq!(index[0].project.as_deref(), Some("/b"));
    assert_eq!(index[1].started_at_ms, 7);
}

#[test]
fn only_start_events_start_sessions() {
    let log = |line: &str| SessionLog {
        directory: "a".to_string(),
        events: session_lines(&line.as_bytes().to_vec()).iter().filter_map(|line| event(line)).collect(),
    };
    let message = r#"{"kind":"message","payload":{"id":"x","created_at_ms":5,"text":"session_started"}}"#;
    let log_of_message = log(message);
    assert_eq!(log_of_message.events.len(), 1);
    assert!(load_session_index(vec![log_of_message]).is_empty());
    let unknown = r#"{"payload":{"id":"x","created_at_ms":5,"text":"session_started"}}"#;
    assert!(load_session_index(vec![log(unknown)]).is_empty());
    let start = r#"{"kind":"session_started","payload":{"id":"x","created_at_ms":5}}"#;
    assert_eq!(load_session_index(vec![log(start)])[0].id, "x");
}

#[test]
fn a_recorded_cost_of_zero_is_kept() {
    for mode in [CostMode::Auto, CostMode::Display] {
        let quote = Quote {
            priced: Some(dollars(2.0)),
            missing_pricing_model: Some("m".to_string()),
            date: "d".to_string(),
            timestamp_text: "t".to_string(),
        };
        let entry =
            loaded_entry(fact(Some("g"), 1000), "s".to_string(), "p".to_string(), mode, quote).unwrap();
        assert_eq!(entry.data.cost_usd, Some(dollars(0.0)));
        assert_eq!(entry.cost, dollars(0.0));
        assert_eq!(entry.missing_pricing_model.as_deref(), Some("m"));
        assert_eq!(entry.timestamp, 1000);
    }
}

#[test]
fn costs_follow_the_mode() {
    let recorded = Some(dollars(0.5));
    let zero = Some(dollars(0.0));
    let priced = Some(dollars(2.0));

    let model = Some("m".to_string());
    assert_eq!(calculate_cost_from_tokens_raw(&model, CostMode::Auto, priced), dollars(2.0));
    assert_eq!(calculate_cost_from_tokens_raw(&model, CostMode::Calculate, None), dollars(0.0));
    assert_eq!(calculate_cost_from_tokens_raw(&model, CostMode::Display, priced), dollars(0.0));
    assert_eq!(calculate_cost_from_tokens_raw(&None, CostMode::Calculate, priced), dollars(0.0));

    let cost = |mode: CostMode, total_cost: Option<Cost>, model: Option<&str>| {
        let fact = FxGeneration { total_cost, model: model.map(str::to_string), ..fact(None, 5) };
        let quote = Quote {
            priced,
            missing_pricing_model: None,
            date: String::new(),
            timestamp_text: String::new(),
        };
        loaded_entry(fact, "s".to_string(), "p".to_string(), mode, quote).unwrap().cost
    };
    assert_eq!(cost(CostMode::Auto, recorded, Some("m")), dollars(0.5));
    assert_eq!(cost(CostMode::Auto, zero, Some("m")), dollars(0.0));
    assert_eq!(cost(CostMode::Auto, None, Some("m")), dollars(2.0));
    assert_eq!(cost(CostMode::Auto, None, None), dollars(0.0));
    assert_eq!(cost(CostMode::Display, recorded, Some("m")), dollars(0.5));
    assert_eq!(cost(CostMode::Display, None, Some("m")), dollars(0.0));
    assert_eq!(cost(CostMode::Calculate, recorded, Some("m")), dollars(2.0));
}

#[test]
fn price_lists_are_asked_about_the_raw_model() {
    let fact = FxGeneration {
        total_cost: Some(dollars(0.0)),
        cache_write_tokens: 3,
        cache_read_tokens: 4,
        ..fact(Some("g"), u64::MAX)
    };
    let asked = inquiry(&fact);
    assert_eq!(asked.model.as_deref(), Some("m"));
    assert_eq!(asked.display_cost, Some(dollars(0.0)));
    assert_eq!(asked.timestamp, -1);
    assert_eq!(
        asked.usage,
        TokenUsageRaw {
            input_tokens: 1,
            output_tokens: 1,
            cache_creation_input_tokens: 3,
            cache_read_input_tokens: 4,
        }
    );
}

fn entry(id: Option<&str>, timestamp: i64, project: &str) -> LoadedEntry {
    LoadedEntry {
        data: UsageEntry {
            session_id: Some("s".to_string()),
            timestamp: "t".to_string(),
            message: UsageMessage {
                usage: TokenUsageRaw {
                    input_tokens: 1,
                    output_tokens: 20,
                    cache_creation_input_tokens: 300,
                    cache_read_input_tokens: 0,
                },
                model: None,
                id: id.map(str::to_string),
            },
            cost_usd: None,
        },
        timestamp,
        date: "d".to_string(),
        project: project.to_string(),
        session_id: "s".to_string(),
        project_path: project.to_string(),
        cost: dollars(0.0),
        model: None,
        missing_pricing_model: None,
    }
}

#[test]
fn identities_are_ids_or_everything_known() {
    assert_eq!(entry_id(&entry(Some("gen_1"), 0, "p")), "fx:gen_1");
    assert_eq!(entry_id(&entry(Some("gen_1"), 5, "q")), "fx:gen_1");
    assert_eq!(entry_id(&entry(None, 0, "p")), "fx::p:s:t:1:20:300:0");
    assert_eq!(entry_id(&entry(Some(""), 0, "p")), "fx::p:s:t:1:20:300:0");
}

#[test]
fn loaded_entries_stand_in_the_order_of_their_times() {
    let ledger = |directory: &str, facts: Vec<FxGeneration>| {
        Some(Ledger {
            directory: directory.to_string(),
            generations: facts
                .into_iter()
                .map(|fact| {
                    let quote = quote(&inquiry(&fact));
                    QuotedGeneration { fact, quote }
                })
                .collect(),
            sessions: vec![],
        })
    };
    let one = || ledger("/one", vec![fact(Some("c"), 30), fact(Some("a"), 10)]);
    let two = || ledger("/two", vec![fact(Some("b"), 20), fact(Some("a"), 10), fact(Some("d"), 10)]);
    let loaded = |entries: Vec<LoadedEntry>| -> Vec<(String, String)> {
        entries
            .into_iter()
            .map(|entry| (entry.data.message.id.unwrap(), entry.project))
            .collect()
    };
    let expected: Vec<(String, String)> =
        [("a", "one"), ("d", "two"), ("b", "two"), ("c", "one")]
            .iter()
            .map(|(id, project)| (id.to_string(), project.to_string()))
            .collect();
    assert_eq!(loaded(load_entries_from_paths(vec![one(), None, two()], CostMode::Auto)), expected);
    let again = vec![one(), two(), one(), two()];
    assert_eq!(loaded(load_entries_from_paths(again, CostMode::Auto)), expected);
    assert_eq!(load_entries_from_paths(vec![None, None], CostMode::Auto).len(), 0);
    assert_eq!(read_data_dir(two().unwrap(), CostMode::Auto).len(), 3);
}

#[test]
fn a_data_directory_without_a_name_is_fx() {
    for directory in ["/", "..", "."] {
        let usage = r#"{"kind":"generation","fact":{"created_at_ms":1000,"input_tokens":3}}"#;
        let entries = read_data_dir(ledger(directory, usage, &[]), CostMode::Auto);
        assert_eq!(entries[0].project, "fx");
        assert_eq!(entries[0].project_path, "fx");
        assert_eq!(entries[0].model, None);
    }
}
