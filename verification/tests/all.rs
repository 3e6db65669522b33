use ccusage::all::document::{add_up, report_json_with_agents, row_json, sections_report_json, totals_json};
use ccusage::all::labels::{
    agent_label, all_report_title, all_table_columns, detected_agent_labels, first_column, rows_key,
    strip_store_prefix,
};
use ccusage::all::period::humanize_period;
use ccusage::all::plan::{plan, Output, Request, NO_USAGE};
use ccusage::all::report_table::{
    all_rows_as_usage_summaries, all_table_row, report_table, sums_of_table_fit, table_to_show,
    table_total_tokens, TableStyle,
};
use ccusage::all::rows::{
    collect_sync_rows, requested_sections, sort_rows, AgentReportKind, AllRow, ModelBreakdown,
    SortOrder,
};
use ccusage::all::summary::{
    cache_segment, line_style, summary_body_lines, summary_grid, summary_tokens, LineStyle,
    SummaryAgent, SummaryDay, SummaryModel,
};
use ccusage::all::summary_days::{days_to_show, summary_days, visible_models};
use ccusage::cost::Cost;
use ccusage::json::Json;
use ccusage::table::{Content, Line};

fn dollars(value: f64) -> Cost {
    Cost { bits: value.to_bits() }
}

fn model(name: &str, input: u64, output: u64, cache_read: u64, cache_write: u64, cost: f64) -> SummaryModel<String> {
    SummaryModel { name: name.to_string(), input, output, cache_read, cache_write, cost: format!("${cost:.2}") }
}

fn agent(name: &str, cost: f64, models: Vec<SummaryModel<String>>) -> SummaryAgent<String> {
    SummaryAgent { name: name.to_string(), total_cost: format!("${cost:.2}"), models }
}

fn sample_days() -> Vec<SummaryDay<String>> {
    vec![
        SummaryDay {
            label: "Aug 21".into(),
            total_cost: "$87.56".into(),
            agents: vec![
                agent(
                    "codex",
                    54.52,
                    vec![
                        model("opus-5", 668, 197_000, 61_750_000, 918_000, 44.99),
                        model("sonnet-5", 506, 190_000, 16_240_000, 1_750_000, 9.53),
                    ],
                ),
                agent("fx", 31.84, vec![model("zai/glm-5.2", 15_620_000, 223_000, 12_300_000, 0, 25.40)]),
                agent("pi", 0.0, vec![model("ox-alpha-free", 5_940_000, 590_000, 193_520_000, 0, 0.0)]),
            ],
        },
        SummaryDay {
            label: "Aug 22".into(),
            total_cost: "$1234.56".into(),
            agents: vec![agent(
                "prime",
                1.21,
                vec![model("muse-spark-1.2-contributor", 10_300_000, 169_000, 71_600_000, 0, 1.21)],
            )],
        },
    ]
}

const GRAND: &str = "$1322.12";

/// Character column of the first occurrence of `needle`, the way a terminal counts columns.
fn col_of(line: &str, needle: char) -> usize {
    line.chars().position(|ch| ch == needle).expect("needle present")
}

#[test]
fn money_sits_flush_on_the_rail() {
    let lines = summary_body_lines(&sample_days(), GRAND, 104);
    let money_lines: Vec<&String> = lines.iter().filter(|line| line.contains('$')).collect();
    assert!(money_lines.len() >= 9);
    for line in &money_lines {
        assert!(!line.ends_with(' '), "trailing padding breaks the money rail: {line:?}");
        let dollars = line.chars().filter(|ch| *ch == '$').count();
        assert_eq!(dollars, 1, "stray second money figure: {line:?}");
    }
}

#[test]
fn token_columns_align_across_all_model_rows() {
    let lines = summary_body_lines(&sample_days(), GRAND, 104);
    let model_rows: Vec<&String> =
        lines.iter().filter(|line| line.contains('↑') && line.contains('↓')).collect();
    assert!(model_rows.len() >= 4, "expected model rows");
    let out_cols: Vec<usize> = model_rows.iter().map(|line| col_of(line, '↓')).collect();
    assert!(out_cols.iter().all(|col| *col == out_cols[0]), "↓ cols: {out_cols:?}");
    let widths: Vec<usize> = lines
        .iter()
        .filter(|line| !line.is_empty())
        .map(|line| line.chars().count())
        .collect();
    assert!(widths.iter().all(|w| *w == 104), "line widths vary: {widths:?}");
}

#[test]
fn summaries_have_exact_lines() {
    let days = vec![SummaryDay {
        label: "Aug 21".to_string(),
        total_cost: "$1.50".to_string(),
        agents: vec![agent("fx", 1.5, vec![model("m", 1_500_000, 20, 3_000, 7, 1.5)])],
    }];
    let lines = summary_body_lines(&days, "$1.50", 10);
    let rule = |n: usize| "─".repeat(n);
    assert_eq!(
        lines,
        vec![
            format!(" Aug 21{}    $1.50", rule(56)),
            format!("   fx{}    $1.50", "·".repeat(58)),
            format!("      m        ↑1.5M   ↓20 {}cached +7 / 3k    $1.50", " ".repeat(22)),
            String::new(),
            format!("  TOTAL  1 days · 1.5M tokens {}    $1.50", rule(33)),
        ]
    );
}

#[test]
fn grids_stay_within_their_bounds() {
    let none = summary_grid(&vec![], "$0.00", 0);
    assert_eq!((none.width, none.name, none.input, none.output, none.money), (72, 6, 4, 4, 8));
    assert_eq!(none.cache, 72 - 10 - 6 - 4 - 4 - 8);
    let long = SummaryDay {
        label: "d".to_string(),
        total_cost: "$1".to_string(),
        agents: vec![agent("a", 0.0, vec![model(&"n".repeat(40), u64::MAX / 2, 1, 0, 0, 0.0)])],
    };
    let wide = summary_grid(&vec![long], "$123456789012345", 500);
    assert_eq!((wide.width, wide.name, wide.input, wide.output, wide.money), (104, 28, 9, 4, 13));
}

#[test]
fn summary_tokens_are_added_or_refused() {
    let days = |n: u64| {
        vec![SummaryDay {
            label: String::new(),
            total_cost: String::new(),
            agents: vec![agent("a", 0.0, vec![model("m", n, 1, 1, 1, 0.0)])],
        }]
    };
    assert_eq!(summary_tokens(&days(5)), Some(8));
    assert_eq!(summary_tokens(&days(u64::MAX)), None);
    assert_eq!(summary_tokens(&vec![]), Some(0));
}

#[test]
fn cache_writes_show_only_where_there_are_some() {
    assert_eq!(cache_segment(1_000, 0), "cached 1k");
    assert_eq!(cache_segment(0, 0), "cached 0");
    assert_eq!(cache_segment(61_750_000, 918_000), "cached +918k / 61.75M");
}

#[test]
fn headers_are_dim_and_the_total_is_bold() {
    let lines = summary_body_lines(&sample_days(), GRAND, 104);
    assert_eq!(line_style(&lines[0]), LineStyle::Dim);
    assert_eq!(line_style(&lines[1]), LineStyle::Plain);
    assert_eq!(line_style(&lines[2]), LineStyle::Plain);
    assert_eq!(line_style(lines.last().unwrap()), LineStyle::Bold);
    assert_eq!(line_style(""), LineStyle::Plain);
    assert_eq!(line_style("x ── y"), LineStyle::Bold);
    assert_eq!(line_style("x ─ y"), LineStyle::Plain);
    assert_eq!(line_style(" ↑ ──"), LineStyle::Plain);
}

#[test]
fn periods_get_short_labels() {
    assert_eq!(humanize_period("2026-08-22"), "Aug 22");
    assert_eq!(humanize_period("2026-01-05"), "Jan 05");
    assert_eq!(humanize_period("2026-12-31"), "Dec 31");
    assert_eq!(humanize_period("2026-+8-22"), "Aug 22");
    for period in ["2026-W33", "2026-08", "2026-13-01", "2026-00-01", "2026_08-22", "", "2026-ab-01", "2026--8-01"] {
        assert_eq!(humanize_period(period), period);
    }
    assert_eq!(humanize_period("2026-08-é"), "Aug é");
    assert_eq!(humanize_period("2026-08é1"), "Aug ");
    assert_eq!(humanize_period("20é-08-22"), "Aug 22");
}

fn breakdown(name: &str, input: u64) -> ModelBreakdown {
    ModelBreakdown {
        model_name: name.to_string(),
        input_tokens: input,
        output_tokens: 0,
        cache_creation_tokens: 0,
        cache_read_tokens: 0,
        extra_total_tokens: 0,
        cost: dollars(0.5),
    }
}

fn all_row(period: &str, agent: &str, input: u64, cost: f64) -> AllRow {
    AllRow {
        period: period.to_string(),
        agent: agent.to_string(),
        models_used: vec!["m".to_string()],
        input_tokens: input,
        output_tokens: 2,
        cache_creation_tokens: 3,
        cache_read_tokens: 4,
        total_tokens: input + 9,
        total_cost: dollars(cost),
        metadata_agents: None,
        metadata: None,
        model_breakdowns: vec![breakdown("m", input)],
        agent_breakdowns: None,
    }
}

fn day_row() -> AllRow {
    AllRow {
        agent_breakdowns: Some(vec![
            AllRow {
                model_breakdowns: vec![breakdown("[pi] a", 5), breakdown("b", 0)],
                ..all_row("2026-08-22", "pi", 5, 1.0)
            },
            AllRow { models_used: vec![], ..all_row("2026-08-22", "fx", 0, 0.0) },
        ]),
        ..all_row("2026-08-22", "all", 5, 1.0)
    }
}

#[test]
fn reports_without_rows_show_only_a_message() {
    let style = TableStyle { compact: false, no_cost: false, breakdown: false };
    assert!(table_to_show(&vec![], AgentReportKind::Daily, style).is_none());
    assert!(days_to_show(&vec![]).is_none());
    let table = table_to_show(&vec![day_row()], AgentReportKind::Daily, style).unwrap();
    let same = report_table(&vec![day_row()], AgentReportKind::Daily, style);
    assert_eq!(table.lines.len(), same.lines.len());
    assert_eq!(days_to_show(&vec![day_row()]).unwrap().len(), 1);
    assert_eq!(NO_USAGE, "No usage data found.");
}

#[test]
fn summaries_show_agents_with_usage() {
    let days = summary_days(&vec![day_row(), all_row("2026-W33", "pi", 1, 0.0)]);
    assert_eq!(days.len(), 2);
    assert_eq!(days[0].label, "Aug 22");
    assert_eq!(days[0].agents.len(), 1);
    assert_eq!(days[0].agents[0].name, "pi");
    assert_eq!(days[0].agents[0].models.len(), 1);
    assert_eq!(days[0].agents[0].models[0].name, "a");
    assert_eq!(days[1].label, "2026-W33");
    assert!(days[1].agents.is_empty());
    assert!(visible_models(&AllRow { model_breakdowns: vec![breakdown("x", 0)], ..day_row() }).is_empty());
}

#[test]
fn flat_rows_leave_out_models_without_tokens() {
    let extra = ModelBreakdown { extra_total_tokens: 1, ..breakdown("c", 0) };
    let mut row = day_row();
    row.agent_breakdowns.as_mut().unwrap()[1].model_breakdowns = vec![extra];
    let rows = collect_sync_rows(&vec![row, all_row("2026-08-23", "pi", 9, 1.0)]);
    let shown: Vec<(&str, &str, &str, u64)> = rows
        .iter()
        .map(|row| (row.date.as_str(), row.agent.as_str(), row.model.as_str(), row.input_tokens))
        .collect();
    assert_eq!(shown, [("2026-08-22", "pi", "[pi] a", 5), ("2026-08-22", "fx", "c", 0)]);
    assert_eq!(rows[0].cost, dollars(0.5));
}

#[test]
fn sections_start_with_the_command_and_appear_once() {
    let daily = AgentReportKind::Daily;
    let weekly = AgentReportKind::Weekly;
    let monthly = AgentReportKind::Monthly;
    let session = AgentReportKind::Session;
    assert_eq!(requested_sections(weekly, vec![session, daily, weekly, daily]), [weekly, daily, session]);
    assert_eq!(requested_sections(daily, vec![]), [daily]);
    assert_eq!(requested_sections(session, vec![monthly]), [session, monthly]);
}

#[test]
fn rows_sort_in_both_directions() {
    let order = |order: SortOrder| -> Vec<u64> {
        let mut rows = vec![
            all_row("b", "x", 1, 0.0),
            all_row("a", "z", 2, 0.0),
            all_row("a", "y", 3, 0.0),
            all_row("c", "x", 4, 0.0),
        ];
        sort_rows(&mut rows, &order);
        rows.iter().map(|row| row.input_tokens).collect()
    };
    assert_eq!(order(SortOrder::Asc), [3, 2, 1, 4]);
    assert_eq!(order(SortOrder::Desc), [4, 1, 2, 3]);
}

#[test]
fn reports_take_the_form_that_was_asked_for() {
    let request = Request { kind: AgentReportKind::Daily, sections: false, json: false, breakdown: false, terminal: true };
    assert_eq!(plan(&request), Output::Summary);
    assert_eq!(plan(&Request { breakdown: true, ..request }), Output::Table);
    assert_eq!(plan(&Request { terminal: false, ..request }), Output::Table);
    assert_eq!(plan(&Request { kind: AgentReportKind::Weekly, ..request }), Output::Table);
    assert_eq!(plan(&Request { json: true, ..request }), Output::Document);
    assert_eq!(plan(&Request { sections: true, ..request }), Output::SectionTables);
    assert_eq!(plan(&Request { sections: true, json: true, ..request }), Output::SectionsDocument);
}

#[test]
fn names_have_labels() {
    assert_eq!(agent_label("all"), "All");
    assert_eq!(agent_label("opencode"), "OpenCode");
    assert_eq!(agent_label("pi"), "pi-agent");
    assert_eq!(agent_label("copilot"), "GitHub Copilot CLI");
    assert_eq!(agent_label("gemini"), "Gemini CLI");
    assert_eq!(agent_label("fx"), "fx");
    assert_eq!(rows_key(AgentReportKind::Monthly), "monthly");
    assert_eq!(first_column(AgentReportKind::Weekly), "Week");
    assert_eq!(strip_store_prefix("[pi] muse"), "muse");
    assert_eq!(strip_store_prefix("muse"), "muse");
}

#[test]
fn titles_list_the_detected_agents() {
    let detected: Vec<String> = ["pi", "amp", "pi"].iter().map(|name| name.to_string()).collect();
    assert_eq!(detected_agent_labels(&vec![], &detected), "Amp, pi-agent");
    assert_eq!(detected_agent_labels(&vec![], &vec![]), "None");
    let title = all_report_title(AgentReportKind::Daily, &vec![], &detected);
    assert!(title.ends_with("\nDetected: Amp, pi-agent"), "{title}");
}

fn field<'a>(json: &'a Json, name: &str) -> Option<&'a Json> {
    match json {
        Json::Object(fields) => fields.iter().find(|(field, _)| field == name).map(|(_, value)| value),
        _ => None,
    }
}

#[test]
fn documents_hold_rows_and_totals() {
    let rows = vec![day_row(), all_row("2026-08-23", "pi", 10, 0.25)];
    let totals = totals_json(&rows);
    assert!(matches!(field(&totals, "inputTokens"), Some(Json::Number(15))));
    assert!(matches!(field(&totals, "totalTokens"), Some(Json::Number(33))));
    match field(&totals, "totalCost") {
        Some(Json::MoneySum(costs)) => assert_eq!(*costs, vec![dollars(1.0), dollars(0.25)]),
        _ => panic!("not a sum"),
    }
    let report = report_json_with_agents(&rows, AgentReportKind::Daily, true);
    match field(&report, "daily") {
        Some(Json::Array(list)) => {
            assert!(matches!(field(&list[0], "agents"), Some(Json::Array(agents)) if agents.len() == 2));
            assert!(field(&list[1], "agents").is_none());
        }
        _ => panic!("not a list"),
    }
    assert!(field(&row_json(&rows[0], false), "agents").is_none());
    assert!(matches!(field(&row_json(&rows[0], false), "period"), Some(Json::Text(p)) if p == "2026-08-22"));
    assert!(add_up(&vec![all_row("a", "b", u64::MAX - 9, 0.0), all_row("a", "b", 1, 0.0)]).is_none());
}

#[test]
fn metadata_comes_from_the_row() {
    let named = AllRow { metadata_agents: Some(vec!["pi".to_string()]), ..all_row("d", "all", 1, 0.0) };
    assert!(matches!(field(&row_json(&named, false), "metadata"), Some(Json::Object(_))));
    let written = AllRow { metadata: Some("{\"x\":1}".to_string()), ..named };
    assert!(matches!(field(&row_json(&written, false), "metadata"), Some(Json::Written(text)) if text == "{\"x\":1}"));
    assert!(field(&row_json(&all_row("d", "all", 1, 0.0), false), "metadata").is_none());
}

#[test]
fn section_totals_are_those_of_the_command() {
    let sections = vec![
        (AgentReportKind::Weekly, vec![all_row("w", "pi", 1, 0.0)]),
        (AgentReportKind::Daily, vec![all_row("d", "pi", 2, 0.0)]),
    ];
    let report = sections_report_json(&sections, AgentReportKind::Daily, false);
    let keys: Vec<&str> = report.fields.iter().map(|(key, _)| key.as_str()).collect();
    assert_eq!(keys, ["weekly", "daily", "totals"]);
    let totals = report.get("totals").unwrap();
    assert!(matches!(field(totals, "inputTokens"), Some(Json::Number(2))));
    assert!(report.get("monthly").is_none());
    let missing = sections_report_json(&sections, AgentReportKind::Monthly, false);
    assert!(matches!(field(missing.get("totals").unwrap(), "inputTokens"), Some(Json::Number(0))));
}

#[test]
fn tables_fill_their_columns() {
    let rows = vec![day_row(), all_row("2026-08-23", "pi", 10, 0.0)];
    for compact in [false, true] {
        for no_cost in [false, true] {
            for breakdown in [false, true] {
                let style = TableStyle { compact, no_cost, breakdown };
                assert!(sums_of_table_fit(&rows, style));
                let (headers, aligns) = all_table_columns(AgentReportKind::Daily, compact, no_cost);
                assert_eq!(headers.len(), aligns.len());
                let table = report_table(&rows, AgentReportKind::Daily, style);
                assert_eq!(table.headers, headers);
                for line in &table.lines {
                    if let Line::Cells(cells) = line {
                        assert_eq!(cells.len(), headers.len());
                    }
                }
                assert_eq!(all_table_row(&rows[1], compact, false, no_cost).len(), headers.len());
            }
        }
    }
    assert!(matches!(&all_table_row(&rows[1], false, true, false)[1], Content::Text(name) if name == "- pi-agent"));
    assert!(table_total_tokens(&rows[1]) > 0);
    assert_eq!(all_rows_as_usage_summaries(&rows).len(), 2);
}
