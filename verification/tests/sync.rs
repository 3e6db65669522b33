use ccusage::all::rows::SyncUsageRow;
use ccusage::cost::Cost;
use ccusage::json::Json;
use ccusage::sync::merge::{
    collapse_machines, merged_rows_fit, merged_rows_from_snapshots, rows_to_show, snapshots_fit,
    sort_merged, ShownRows,
};
use ccusage::sync::publish::{
    commit_and_push, ensure_repo, gather_snapshots, is_unchanged, machine_names, new_snapshot,
    publication, push_command, push_step, refresh_command, run_git, same_apart_from_time, GitEvent,
    Publication, PushState,
};
use ccusage::sync::repo::{
    choose_repo, default_machine_name, is_other_snapshot, machine_label, repo_url, sanitize,
    sanitize_machine, sanitize_repo_name, snapshot_file, sync_work_dir, SyncError,
};
use ccusage::sync::report::{
    sums_of_report_fit, sync_json, sync_table, sync_title, totals_value,
};
use ccusage::sync::snapshot::{
    agent_of_key, cell_at, cell_key, day_map_from_rows, rows_fit, Day, MachineSnapshot, MergedRow,
};
use ccusage::table::{Align, Content, Line, Paint};
use ccusage::tally::CellTotals;

fn dollars(value: f64) -> Cost {
    Cost { bits: value.to_bits() }
}

fn snapshot(machine: &str, days: Vec<Day<Cost>>) -> MachineSnapshot {
    MachineSnapshot {
        version: 1,
        machine: machine.to_string(),
        generated_at: "2026-08-22T00:00:00.000Z".to_string(),
        days,
    }
}

fn cell(input: u64, output: u64) -> CellTotals<Cost> {
    CellTotals {
        input_tokens: input,
        output_tokens: output,
        cache_creation_tokens: 0,
        cache_read_tokens: 0,
        cost: dollars(0.0),
    }
}

fn day(date: &str, cells: Vec<(String, CellTotals<Cost>)>) -> Day<Cost> {
    Day { date: date.to_string(), cells }
}

fn row(date: &str, machine: &str, agent: &str, input: u64, cost: f64) -> MergedRow<Cost> {
    MergedRow {
        date: date.to_string(),
        machine: machine.to_string(),
        agent: agent.to_string(),
        input_tokens: input,
        output_tokens: 2,
        cache_creation_tokens: 3,
        cache_read_tokens: 4,
        cost: dollars(cost),
    }
}

fn usage(date: &str, agent: &str, model: &str, input: u64, cost: f64) -> SyncUsageRow {
    SyncUsageRow {
        date: date.to_string(),
        agent: agent.to_string(),
        model: model.to_string(),
        input_tokens: input,
        output_tokens: 8,
        cache_creation_tokens: 9,
        cache_read_tokens: 10,
        cost: dollars(cost),
    }
}

#[test]
fn repo_shorthand_expands_to_github_https() {
    assert_eq!(
        repo_url("me/ccusage-sync"),
        "https://github.com/me/ccusage-sync.git"
    );
    assert_eq!(
        repo_url("git@github.com:me/ccusage-sync.git"),
        "git@github.com:me/ccusage-sync.git"
    );
    assert_eq!(
        repo_url("https://example.com/repo.git"),
        "https://example.com/repo.git"
    );
}

#[test]
fn merged_rows_add_across_machines_and_collapse_models_per_agent() {
    let first_day = vec![
        (cell_key("pi", "[pi] muse"), cell(50, 5)),
        (cell_key("pi", "ox-alpha-free"), cell(100, 10)),
    ];
    // Same agent on a second model collapses into one row per machine.
    let second_day = vec![(cell_key("fx", "zai/glm-5.2"), cell(200, 20))];

    let snapshots = vec![
        snapshot("laptop", vec![day("2026-08-20", first_day)]),
        snapshot("desktop", vec![day("2026-08-20", second_day)]),
    ];
    assert!(snapshots_fit(&snapshots));
    let rows = merged_rows_from_snapshots(&snapshots);

    assert_eq!(rows.len(), 2);
    let pi = rows
        .iter()
        .find(|row| row.agent == "pi")
        .expect("pi row present");
    assert_eq!(pi.machine, "laptop");
    assert_eq!(pi.input_tokens, 150, "models of one agent sum together");
    assert_eq!(rows[0].date, "2026-08-20");
    assert_eq!(rows[0].machine, "desktop");
    assert_eq!(pi.cost.len(), 2);
}

#[test]
fn day_map_round_trips_through_cell_keys() {
    let row = SyncUsageRow {
        date: "2026-08-21".to_string(),
        agent: "prime".to_string(),
        model: "muse-spark-1.2-contributor".to_string(),
        input_tokens: 7,
        output_tokens: 8,
        cache_creation_tokens: 9,
        cache_read_tokens: 10,
        cost: dollars(0.25),
    };
    let days = day_map_from_rows(&vec![row]);
    let stored =
        cell_at(&days, "2026-08-21", &cell_key("prime", "muse-spark-1.2-contributor")).unwrap();
    assert_eq!(stored.input_tokens, 7);
    assert_eq!(stored.cost, vec![dollars(0.25)]);
}

#[test]
fn day_maps_add_up_and_stand_in_order() {
    let rows = vec![
        usage("2026-08-22", "pi", "b", 1, 0.5),
        usage("2026-08-21", "pi", "a", 2, 0.25),
        usage("2026-08-22", "fx", "z", 4, 1.0),
        usage("2026-08-22", "pi", "b", 8, 0.125),
    ];
    assert!(rows_fit(&rows));
    let days = day_map_from_rows(&rows);
    let dates: Vec<&str> = days.iter().map(|day| day.date.as_str()).collect();
    assert_eq!(dates, ["2026-08-21", "2026-08-22"]);
    assert_eq!(days[1].cells[0].0, cell_key("fx", "z"));
    let sum = &days[1].cells[1].1;
    assert_eq!((sum.input_tokens, sum.output_tokens), (9, 16));
    assert_eq!(sum.cost, vec![dollars(0.5), dollars(0.125)]);
    assert!(cell_at(&days, "2026-08-21", &cell_key("fx", "z")).is_none());
    assert!(day_map_from_rows(&vec![]).is_empty());
    assert!(!rows_fit(&vec![usage("d", "a", "m", u64::MAX, 0.0), usage("d", "a", "m", 1, 0.0)]));
    assert!(rows_fit(&vec![usage("d", "a", "m", u64::MAX, 0.0), usage("d", "a", "n", 1, 0.0)]));
}

#[test]
fn cells_collect_amounts_in_order() {
    let mut totals = CellTotals::nothing();
    totals.add_row(&usage("d", "pi", "m", 7, 0.5));
    totals.add_cell(&cell(1, 2));
    assert!(totals.has_room_for(&cell(u64::MAX - 8, 0)));
    assert!(!totals.has_room_for(&cell(u64::MAX - 7, 0)));
    assert_eq!((totals.input_tokens, totals.output_tokens), (8, 10));
    assert_eq!((totals.cache_creation_tokens, totals.cache_read_tokens), (9, 10));
    assert_eq!(totals.cost, vec![dollars(0.5), dollars(0.0)]);
    assert_eq!(totals.settle(dollars(0.5)).cost, dollars(0.5));
}

#[test]
fn keys_split_at_the_first_separator() {
    assert_eq!(cell_key("pi", "m"), "pi\u{1}m");
    assert_eq!(agent_of_key("pi\u{1}m"), "pi");
    assert_eq!(agent_of_key("pi\u{1}m\u{1}n"), "pi");
    assert_eq!(agent_of_key("pi"), "pi");
    assert_eq!(agent_of_key("\u{1}m"), "");
}

#[test]
fn empty_cells_are_left_out_of_the_merge() {
    let cells = vec![(cell_key("fx", "a"), cell(0, 0)), (cell_key("pi", "a"), cell(0, 1))];
    let rows = merged_rows_from_snapshots(&vec![snapshot("m", vec![day("d", cells)])]);
    assert_eq!(rows.len(), 1);
    assert_eq!(rows[0].agent, "pi");
    let free = CellTotals { cost: dollars(-0.0), ..cell(0, 0) };
    assert!(free.is_empty());
    let paid = CellTotals { cost: dollars(0.5), ..cell(0, 0) };
    assert!(!paid.is_empty());
    let rows = merged_rows_from_snapshots(&vec![snapshot(
        "m",
        vec![day("d", vec![(cell_key("fx", "a"), paid)])],
    )]);
    assert_eq!(rows.len(), 1);
}

#[test]
fn merging_is_the_same_in_any_file_order() {
    let laptop = || snapshot("laptop", vec![day("d", vec![(cell_key("fx", "a"), cell(1, 2))])]);
    let desktop = || snapshot("desktop", vec![day("d", vec![(cell_key("fx", "a"), cell(3, 4))])]);
    let names = |rows: &Vec<MergedRow<Vec<Cost>>>| -> Vec<(String, u64)> {
        rows.iter().map(|row| (row.machine.clone(), row.input_tokens)).collect()
    };
    let forth = merged_rows_from_snapshots(&vec![laptop(), desktop()]);
    let back = merged_rows_from_snapshots(&vec![desktop(), laptop()]);
    assert_eq!(names(&forth), names(&back));
    assert_eq!(names(&forth), [("desktop".to_string(), 3), ("laptop".to_string(), 1)]);
}

#[test]
fn publishing_changes_the_rows_of_one_machine() {
    let desktop = || snapshot("desktop", vec![day("d", vec![(cell_key("fx", "a"), cell(3, 4))])]);
    let laptop = |input| snapshot("laptop", vec![day("d", vec![(cell_key("fx", "a"), cell(input, 0))])]);
    let before = merged_rows_from_snapshots(&vec![desktop(), laptop(1)]);
    let after = merged_rows_from_snapshots(&vec![desktop(), laptop(9)]);
    assert_eq!(before[0].input_tokens, after[0].input_tokens);
    assert_eq!((before[1].input_tokens, after[1].input_tokens), (1, 9));
}

#[test]
fn machines_collapse_in_the_order_of_their_first_rows() {
    let rows = vec![
        row("d1", "a", "pi", 1, 0.5),
        row("d1", "b", "fx", 2, 0.25),
        row("d1", "b", "pi", 4, 1.0),
        row("d2", "a", "pi", 8, 2.0),
    ];
    assert!(merged_rows_fit(&rows));
    let out = collapse_machines(rows);
    let shown: Vec<(&str, &str, u64)> = out
        .iter()
        .map(|row| (row.date.as_str(), row.agent.as_str(), row.input_tokens))
        .collect();
    assert_eq!(shown, [("d1", "pi", 5), ("d1", "fx", 2), ("d2", "pi", 8)]);
    assert_eq!(out[0].cost, vec![dollars(0.5), dollars(1.0)]);
    assert_eq!(out[0].machine, "a");
    assert!(!merged_rows_fit(&vec![
        row("d", "a", "pi", u64::MAX, 0.0),
        row("d", "b", "pi", 1, 0.0)
    ]));
    let total: u64 = out.iter().map(|row| row.input_tokens).sum();
    assert_eq!(total, 15);
}

#[test]
fn rows_sort_by_date_machine_and_agent() {
    let sorted = sort_merged(vec![
        row("d2", "a", "a", 1, 0.0),
        row("d1", "b", "b", 2, 0.0),
        row("d1", "b", "a", 3, 0.0),
        row("d1", "a", "z", 4, 0.0),
    ]);
    let order: Vec<u64> = sorted.iter().map(|row| row.input_tokens).collect();
    assert_eq!(order, [4, 3, 2, 1]);
}

#[test]
fn tables_show_machines_only_where_asked() {
    let rows = || vec![row("d1", "b", "pi", 1, 0.5), row("d1", "a", "pi", 2, 0.25)];
    match rows_to_show(rows(), true) {
        ShownRows::ByMachine(shown) => {
            let machines: Vec<&str> = shown.iter().map(|row| row.machine.as_str()).collect();
            assert_eq!(machines, ["a", "b"]);
        }
        ShownRows::Collapsed(_) => panic!("machines were asked for"),
    }
    match rows_to_show(rows(), false) {
        ShownRows::Collapsed(shown) => {
            assert_eq!(shown.len(), 1);
            assert_eq!(shown[0].input_tokens, 3);
            assert_eq!(shown[0].cost, vec![dollars(0.5), dollars(0.25)]);
        }
        ShownRows::ByMachine(_) => panic!("machines were not asked for"),
    }
}

#[test]
fn a_fresh_time_alone_changes_nothing() {
    let old = r#"{"version":1,"generated_at":"a","days":{"d":{"k":{"i":1}}}}"#;
    let new = r#"{"version":1,"generated_at":"b","days":{"d":{"k":{"i":1}}}}"#;
    let other = r#"{"version":1,"generated_at":"b","days":{"d":{"k":{"i":2}}}}"#;
    let timeless = r#"{"days":{"d":{"k":{"i":1}}},"version":1}"#;
    assert!(is_unchanged(Some(old), old));
    assert!(is_unchanged(Some(old), new));
    assert!(is_unchanged(Some(timeless), new));
    assert!(!is_unchanged(Some(old), other));
    assert!(!is_unchanged(Some("not json"), new));
    assert!(!is_unchanged(Some(old), "not json"));
    assert!(!is_unchanged(Some("not json"), "not json"));
    assert!(!is_unchanged(None, new));
    assert!(is_unchanged(Some("[1]"), "[1]"));
    assert!(!is_unchanged(Some("[1]"), "[2]"));
    assert!(!is_unchanged(Some("{}"), "[]"));
}

#[test]
fn documents_compare_without_their_time() {
    let parse = |text: &str| -> serde_json::Value { serde_json::from_str(text).unwrap() };
    assert!(same_apart_from_time(
        parse(r#"{"generated_at":1,"a":[1,2]}"#),
        parse(r#"{"a":[1,2]}"#)
    ));
    assert!(!same_apart_from_time(parse(r#"{"a":1}"#), parse(r#"{"a":1,"b":2}"#)));
    assert!(!same_apart_from_time(parse(r#"{"a":{"generated_at":1}}"#), parse(r#"{"a":{}}"#)));
}

#[test]
fn unchanged_data_is_not_published() {
    assert_eq!(publication(true, false), Publication::Nothing);
    assert_eq!(publication(true, true), Publication::Nothing);
    assert_eq!(publication(false, true), Publication::Write);
    assert_eq!(publication(false, false), Publication::WriteAndPush);
}

#[test]
fn snapshots_are_gathered_by_machine() {
    let own = new_snapshot("m".to_string(), "now".to_string(), vec![]);
    assert_eq!(own.version, 1);
    let all = gather_snapshots(own, vec![snapshot("z", vec![]), snapshot("a", vec![])]);
    assert_eq!(machine_names(&all), ["a", "m", "z"]);
}

#[test]
fn a_repository_has_to_be_configured() {
    let text = |value: &str| Some(value.to_string());
    assert_eq!(choose_repo(text("me/a"), text("me/b")).unwrap(), "me/a");
    assert_eq!(choose_repo(None, text("me/b")).unwrap(), "me/b");
    for (argument, environment) in [(None, None), (text("  "), text("me/b")), (None, text(""))] {
        let error = choose_repo(argument, environment).unwrap_err();
        assert!(matches!(error, SyncError::NoRepository));
        assert_eq!(
            error.message(),
            "No sync repository configured. Pass --repo owner/name (or any git URL), or set \
             CCUSAGE_SYNC_REPO.\nSetup:\n  gh repo create ccusage-sync --private\n  ccusage \
             sync --repo <you>/ccusage-sync"
        );
    }
}

#[test]
fn other_addresses_stay_as_they_are() {
    for address in ["/srv/repo", "./repo", "../repo", "name", "/", "a/", "ssh://h/x", "git@h:x"] {
        assert_eq!(repo_url(&format!("  {address}\n")), address);
    }
    assert_eq!(repo_url("a/b/c"), "https://github.com/a/b/c.git");
    assert_eq!(repo_url(&repo_url("me/x")), repo_url("me/x"));
}

#[test]
fn file_names_are_safe() {
    assert_eq!(sanitize(" me/ccusage sync.git "), "me-ccusage-sync");
    assert_eq!(sanitize("a.git.git"), "a");
    assert_eq!(sanitize("Zo\u{eb}_1-2.x"), "Zo-_1-2.x");
    assert_eq!(sanitize_repo_name("me/x"), "me-x");
    assert_eq!(sanitize_machine("my laptop"), "my-laptop");
    assert_eq!(snapshot_file("my laptop"), "my-laptop.json");
    assert_eq!(sanitize(&sanitize("a/b.git")), sanitize("a/b.git"));
}

#[test]
fn other_snapshots_are_the_other_json_files() {
    assert!(is_other_snapshot("b.json", "a.json"));
    assert!(!is_other_snapshot("a.json", "a.json"));
    for name in ["b.txt", "json", ".json", "b.json.bak", "b.JSON"] {
        assert!(!is_other_snapshot(name, "a.json"), "{name}");
    }
}

#[test]
fn working_copies_are_kept_under_home() {
    assert_eq!(
        sync_work_dir(Some("/home/me"), "me/x").unwrap(),
        "/home/me/.local/share/ccusage/sync/me-x"
    );
    let error = sync_work_dir(None, "me/x").unwrap_err();
    assert!(matches!(error, SyncError::NoHome));
    assert_eq!(error.message(), "home directory is not set");
}

#[test]
fn machines_have_names() {
    let text = |value: &str| Some(value.to_string());
    assert_eq!(default_machine_name(text(" host \n"), text("x")), "host");
    assert_eq!(default_machine_name(text("  "), text("printed\n")), "printed");
    assert_eq!(default_machine_name(None, text(" ")), "unknown-machine");
    assert_eq!(default_machine_name(None, None), "unknown-machine");
}

fn machines(list: &[&str]) -> Vec<String> {
    list.iter().map(|name| name.to_string()).collect()
}

#[test]
fn long_machine_lists_are_cut() {
    assert_eq!(machine_label(&machines(&[])), "");
    assert_eq!(machine_label(&machines(&["a", "b", "c"])), "a, b, c");
    assert_eq!(machine_label(&machines(&["a", "b", "c", "d", "e"])), "a, b, c, +2 more");
    assert_eq!(sync_title(&machines(&["a"])), "GitHub Sync Report - a - 1 machine");
    assert_eq!(sync_title(&machines(&["a", "b"])), "GitHub Sync Report - a, b - 2 machines");
}

fn ended(success: bool, stderr: &str) -> GitEvent {
    GitEvent::Ended { success, stdout: "out".to_string(), stderr: stderr.to_string() }
}

fn not_started() -> GitEvent {
    GitEvent::NotStarted { error: "gone".to_string() }
}

#[test]
fn git_results_become_texts_or_errors() {
    assert_eq!(run_git(ended(true, "")).unwrap(), "out");
    assert_eq!(run_git(ended(false, " bad \n")).unwrap_err().message(), "git failed: bad");
    assert_eq!(
        run_git(not_started()).unwrap_err().message(),
        "failed to run git (gone). Install git to use ccusage sync."
    );
}

#[test]
fn a_missing_working_copy_is_cloned() {
    assert_eq!(
        ensure_repo(false, "/w", "me/x").unwrap(),
        ["clone", "https://github.com/me/x.git", "/w"]
    );
    assert!(ensure_repo(true, "/w", "me/x").is_none());
    assert_eq!(refresh_command(), ["pull", "--ff-only"]);
}

fn publish(results: &[bool]) -> (Vec<String>, PushState) {
    let mut state = commit_and_push();
    let mut commands = Vec::new();
    for success in results {
        commands.push(push_command(&state, "host").unwrap().join(" "));
        state = push_step(state, ended(*success, "")).unwrap();
    }
    (commands, state)
}

#[test]
fn changes_are_committed_and_pushed() {
    let (commands, state) = publish(&[true, false, true, true]);
    assert_eq!(
        commands,
        [
            "add -A",
            "diff --cached --quiet",
            "-c user.name=ccusage -c user.email=ccusage@localhost commit -m sync: host",
            "push origin HEAD",
        ]
    );
    assert_eq!(state, PushState::Done);
    assert!(push_command(&state, "host").is_none());
}

#[test]
fn a_rejected_push_is_tried_again_after_a_rebase() {
    let (commands, state) = publish(&[true, true, false, true, true]);
    assert_eq!(
        commands,
        [
            "add -A",
            "diff --cached --quiet",
            "push origin HEAD",
            "pull --rebase",
            "push origin HEAD",
        ]
    );
    assert_eq!(state, PushState::Done);
}

#[test]
fn publishing_fails_with_git() {
    for state in [PushState::Stage, PushState::Commit, PushState::Rebase, PushState::PushAgain] {
        let error = push_step(state, ended(false, " no ")).unwrap_err();
        assert_eq!(error.message(), "git failed: no");
        assert!(matches!(
            push_step(state, not_started()).unwrap_err(),
            SyncError::GitMissing { .. }
        ));
    }
    for state in [PushState::LookForChanges, PushState::Push] {
        let error = push_step(state, not_started()).unwrap_err();
        assert!(matches!(error, SyncError::GitNotStarted { .. }));
        assert_eq!(error.message(), "failed to run git (gone)");
    }
    assert_eq!(push_step(PushState::Done, not_started()).unwrap(), PushState::Done);
}

fn field<'a>(json: &'a Json, name: &str) -> &'a Json {
    match json {
        Json::Object(fields) => {
            &fields.iter().find(|(field, _)| field == name).expect("field present").1
        }
        _ => panic!("not an object"),
    }
}

fn count(json: &Json) -> u64 {
    match json {
        Json::Number(n) => *n,
        _ => panic!("not a count"),
    }
}

#[test]
fn totals_add_up_every_column() {
    let rows = vec![row("d1", "a", "pi", 1, 0.5), row("d2", "a", "pi", 10, 0.25)];
    assert!(sums_of_report_fit(&rows));
    let totals = totals_value(&rows);
    assert_eq!(count(field(&totals, "inputTokens")), 11);
    assert_eq!(count(field(&totals, "outputTokens")), 4);
    assert_eq!(count(field(&totals, "cacheCreationTokens")), 6);
    assert_eq!(count(field(&totals, "cacheReadTokens")), 8);
    assert_eq!(count(field(&totals, "totalTokens")), 29);
    match field(&totals, "totalCost") {
        Json::MoneySum(costs) => assert_eq!(*costs, vec![dollars(0.5), dollars(0.25)]),
        _ => panic!("not a sum"),
    }
    assert!(!sums_of_report_fit(&vec![row("d", "a", "pi", u64::MAX, 0.0)]));
}

#[test]
fn sync_documents_group_rows_by_date() {
    let empty = MergedRow {
        input_tokens: 0,
        output_tokens: 0,
        cache_creation_tokens: 0,
        cache_read_tokens: 0,
        ..row("d0", "a", "pi", 0, 0.0)
    };
    let rows = vec![row("d2", "a", "pi", 1, 0.5), empty, row("d1", "b", "fx", 2, 0.0), row("d2", "b", "fx", 3, 0.0)];
    let document = sync_json(&rows, &machines(&["a", "b"]));
    match field(&document, "machines") {
        Json::Array(list) => assert_eq!(list.len(), 2),
        _ => panic!("not a list"),
    }
    let days = match field(&document, "days") {
        Json::Object(days) => days,
        _ => panic!("not an object"),
    };
    let dates: Vec<&str> = days.iter().map(|(date, _)| date.as_str()).collect();
    assert_eq!(dates, ["d1", "d2"]);
    match &days[1].1 {
        Json::Array(list) => {
            assert_eq!(list.len(), 2);
            assert_eq!(count(field(&list[0], "inputTokens")), 1);
            assert_eq!(count(field(&list[1], "inputTokens")), 3);
        }
        _ => panic!("not a list"),
    }
    assert_eq!(count(field(field(&document, "totals"), "inputTokens")), 6);
}

#[test]
fn sync_tables_name_each_date_once() {
    let rows = vec![row("d1", "a", "pi", 1, 0.5), row("d1", "b", "fx", 2, 0.0), row("d2", "b", "fx", 3, 0.0)];
    for by_machine in [false, true] {
        let table = sync_table(&rows, by_machine);
        let columns = if by_machine { 7 } else { 6 };
        assert_eq!(table.headers.len(), columns);
        assert_eq!(table.aligns.len(), columns);
        assert_eq!(table.aligns[columns - 5], Align::Left);
        assert_eq!(table.aligns[columns - 4], Align::Right);
        let mut dates = Vec::new();
        for line in &table.lines {
            if let Line::Cells(cells) = line {
                assert_eq!(cells.len(), columns);
                if let Content::Text(date) = &cells[0].content {
                    dates.push(date.as_str());
                }
            }
        }
        assert_eq!(dates, ["d1", "", "d2", "Total"]);
        assert!(matches!(table.lines[3], Line::Separator));
        if let Line::Cells(cells) = &table.lines[4] {
            assert_eq!(cells[0].paint, Paint::Yellow);
            assert_eq!(cells[1].paint, Paint::Plain);
            assert!(matches!(cells[columns - 4].content, Content::Number(6)));
        }
    }
    assert_eq!(sync_table(&rows, true).headers[1], "Machine");
}
