use cctop::data::{ContextBreakdown, Costs, CtxPoint, ModelBreakdown, SessionData, Tokens, ToolDetail};
use cctop::figures::{compact_tokens, compact_usd, meter, percent_of, to_nearest, to_nearest_even, with_places};
use cctop::model::{ContextUsage, Plan, Process, Provider, Session, Subagent, SubagentStatus, Surface};
use cctop::panels::agents::{sort_subagents, subagents, SubagentSort};
use cctop::panels::conf::{file_section, mcp_from_json, mcp_from_toml};
use cctop::panels::context::{apportion, context, context_timeline, thrash_note};
use cctop::panels::cost::{cost, Calendar};
use cctop::panels::info::{info, wall_duration_ms};
use cctop::panels::log::{fmt_millis, tool_activity, tool_tabs, wrap, LogView};
use cctop::panels::procs::processes;
use cctop::styled::Text;

/// The agent's command, as its provider is spelled.
fn command() -> String {
    format!("{:?}", Provider::Claude).to_lowercase()
}

fn words(t: &Text) -> Vec<String> {
    t.lines.iter().map(|l| l.words()).collect()
}

fn all(t: &Text) -> String {
    words(t).join("")
}

fn series(windows: &[u64]) -> SessionData {
    let mut data = SessionData::new();
    data.context_series = windows
        .iter()
        .enumerate()
        .map(|(i, w)| CtxPoint {
            ts: format!("2026-08-05T10:{i:02}:00+00:00"),
            window: *w,
            after_compaction: false,
        })
        .collect();
    data
}

fn calendar() -> Calendar {
    Calendar {
        hour: "2026-01-01T10".to_string(),
        today: "2026-01-01".to_string(),
        week: "2025-12-26".to_string(),
        month: "2025-12-03".to_string(),
    }
}

/// Two points are a straight line between two numbers the header already prints.
#[test]
fn the_context_chart_needs_more_than_a_pair_of_points() {
    let session = Session::new(Provider::Claude, command(), "x".to_string());
    assert!(context_timeline(&session, &series(&[10, 20]), 80, Text::new()).lines.is_empty());
    assert!(!context_timeline(&session, &series(&[10, 20, 30]), 80, Text::new()).lines.is_empty());
}

/// A narrow panel has no room for a chart.
#[test]
fn the_context_chart_stays_off_a_narrow_panel() {
    let session = Session::new(Provider::Claude, command(), "x".to_string());
    assert!(context_timeline(&session, &series(&[10, 20, 30, 40]), 12, Text::new()).lines.is_empty());
}

/// The header counts the compactions, by the session's own count.
#[test]
fn the_context_chart_counts_the_compactions_it_drew() {
    let session = Session::new(Provider::Claude, command(), "x".to_string());
    let mut data = series(&[10, 90, 20, 40]);
    data.context_series[2].after_compaction = true;
    data.compactions = 1;
    let text = all(&context_timeline(&session, &data, 80, Text::new()));
    assert!(text.contains("1 compaction"), "got {text:?}");
    assert!(text.contains("4 requests"), "got {text:?}");

    data.compactions = 3;
    data.context_series[2].after_compaction = false;
    let text = all(&context_timeline(&session, &data, 80, Text::new()));
    assert!(text.contains("3 compactions"), "got {text:?}");
}

/// The cadence is spelled out once there is one.
#[test]
fn a_thrashing_session_is_told_how_often_it_is_rebuilding() {
    let mut session = Session::new(Provider::Claude, command(), "x".to_string());
    session.started_at = "2026-08-11T10:00:00Z".to_string();
    session.last_active = "2026-08-11T11:00:00Z".to_string();

    assert!(thrash_note(&session, 2).lines.is_empty(), "two is not a cadence");
    let text = all(&thrash_note(&session, 4));
    assert!(text.contains("every 15m"), "got {text:?}");

    session.last_active = session.started_at.clone();
    assert!(thrash_note(&session, 4).lines.is_empty());
}

fn detail(d: &str, ts: &str, failed: bool) -> ToolDetail {
    ToolDetail {
        id: None,
        ts: ts.to_string(),
        clock: "10:00".to_string(),
        d: d.to_string(),
        full: None,
        failed,
        origin: None,
        delta: None,
        dur_ms: None,
        tokens_in: 0,
        tokens_out: 0,
        shared: 0,
    }
}

fn view(live_since: Option<&'static str>, width: usize) -> LogView<'static> {
    LogView { live_since, show_diff: false, expanded: None, width, home: "/home/x" }
}

/// A failed call is marked by the wash and by a glyph.
#[test]
fn failed_tool_calls_are_marked_in_the_activity_rows() {
    let mut data = SessionData::new();
    data.metrics.tool_details = vec![(
        "Bash".to_string(),
        vec![
            detail("true", "2026-08-05T10:00:00+00:00", false),
            detail("exit 1", "2026-08-05T10:00:00+00:00", true),
        ],
    )];
    data.metrics.tool_count = 2;

    let (text, _) = tool_activity(&data, 0, &view(None, 120));
    let row_of = |needle: &str| {
        text.lines
            .iter()
            .find(|l| l.spans.iter().any(|s| s.text.contains(needle)))
            .unwrap_or_else(|| panic!("no row for {needle}"))
    };

    let ok = row_of("true");
    assert!(!ok.failed, "a successful call keeps the normal row");
    assert!(!ok.spans.iter().any(|s| s.text.contains('✗')));

    let bad = row_of("exit 1");
    assert!(bad.failed);
    assert!(
        bad.spans.iter().any(|s| s.text.contains('✗')),
        "the failure must not be conveyed by colour alone"
    );
}

fn subagent(id: &str, cost: u64, purged: bool) -> Subagent {
    Subagent {
        agent_id: id.to_string(),
        agent_type: "Explore".to_string(),
        description: "look around".to_string(),
        model: format!("{}-haiku-4-5-20251001", command()),
        started_at: Some("2026-01-01T00:00:00Z".to_string()),
        last_active: Some("2026-01-01T00:01:00Z".to_string()),
        duration_ms: 60_000,
        status: SubagentStatus::Done,
        cost,
        tool_count: 3,
        context: Some(ContextUsage { used: 1000, max: 200_000, compact_at: 160_000, compacted: false }),
        purged,
    }
}

#[test]
fn subagent_sort_respects_direction() {
    let mut list = vec![subagent("a", 1_000_000_000, false), subagent("b", 5_000_000_000, false)];
    sort_subagents(&mut list, SubagentSort::Cost, true);
    assert_eq!(list[0].agent_id, "a");
    sort_subagents(&mut list, SubagentSort::Cost, false);
    assert_eq!(list[0].agent_id, "b");
}

#[test]
fn ghost_subagents_show_unknown_not_zero() {
    let mut data = SessionData::new();
    data.subagents = vec![subagent("g", 0, true)];
    let lines = subagents(Some(&data), SubagentSort::Last, false, &command(), 120, 0);
    let row = lines.lines[1].words();
    assert!(row.contains('◌'), "a purged one needs its own marker: {row}");
    assert!(!row.contains("$0.00"), "purged transcript must not report $0.00 as if measured: {row}");
    assert!(row.contains('—'));
}

#[test]
fn tool_tabs_are_ordered_by_use_with_all_first() {
    let mut data = SessionData::new();
    data.metrics.tools = vec![("Read".to_string(), 3), ("Bash".to_string(), 9)];
    data.metrics.tool_count = 12;
    let tabs = tool_tabs(&data);
    assert_eq!(tabs[0].0, "All");
    assert_eq!(tabs[0].1, 12);
    assert_eq!(tabs[1].0, "Bash");
    assert_eq!(tabs[2].0, "Read");
}

#[test]
fn tool_activity_live_filter_excludes_older_entries() {
    let mut data = SessionData::new();
    data.metrics.tool_count = 2;
    data.metrics.tools = vec![("Bash".to_string(), 2)];
    data.metrics.tool_details = vec![(
        "Bash".to_string(),
        vec![detail("old", "2026-01-01T00:00:00Z", false), detail("new", "2026-06-01T00:00:00Z", false)],
    )];
    let (text, _) = tool_activity(&data, 0, &view(Some("2026-03-01T00:00:00Z"), 80));
    let text = all(&text);
    assert!(text.contains("new"));
    assert!(!text.contains("old"));
}

#[test]
fn info_reports_extraction_errors_instead_of_blank() {
    let s = Session::new(Provider::Claude, command(), "x".to_string());
    let mut data = SessionData::new();
    data.error = Some("boom".to_string());
    let text = all(&info(&s, Some(&data), Plan::Retail, &None, "/home/x", &None, "", 0));
    assert!(text.contains("boom"));
}

#[test]
fn wall_time_advances_for_live_sessions_and_freezes_when_stopped() {
    // 2026-01-01T00:02:00Z.
    let now = 1_767_225_720_000i64;
    let mut session = Session::new(Provider::Claude, command(), "x".to_string());
    session.started_at = "2026-01-01T00:00:00Z".to_string();
    session.last_active = "2026-01-01T00:00:49Z".to_string();

    assert_eq!(wall_duration_ms(&session, now), Some(49_000));

    session.process =
        Some(Process { pid: 0, command: String::new(), cpu: 0, memory: 0, pids: 0, list: Vec::new() });
    assert_eq!(wall_duration_ms(&session, now), Some(120_000));
}

#[test]
fn bundled_plan_cost_panel_still_shows_retail_equivalent() {
    let s = Session::new(Provider::Claude, command(), "x".to_string());
    let mut data = SessionData::new();
    data.costs.total = 4_250_000_000;
    let text = all(&cost(&s, Some(&data), Plan::Max, &calendar()));
    assert!(text.contains("included in plan"));
    assert!(text.contains("$4.25"));
}

#[test]
fn cost_panel_labels_free_model_usage() {
    let mut s = Session::new(Provider::OpenCode, "opencode".to_string(), "x".to_string());
    s.cost_is_free = true;
    let mut data = SessionData::new();
    let mut tokens = Tokens::none();
    tokens.input = 100;
    tokens.output = 20;
    tokens.cache_read = 50;
    tokens.reasoning_output = 10;
    data.model_breakdown = vec![ModelBreakdown {
        model: "deepseek-v4-flash-free".to_string(),
        tokens,
        costs: Costs::none(),
        total: 0,
    }];
    let text = all(&cost(&s, Some(&data), Plan::Retail, &calendar()));
    assert!(text.contains("deepseek-v4-flash-free  FREE"));
    assert!(!text.contains("$0.00"));
    assert!(text.matches("FREE").count() >= 8, "{text}");
}

fn no_breakdown() -> ContextBreakdown {
    ContextBreakdown {
        total: 0,
        startup: 0,
        tool_output: 0,
        tool_input: 0,
        attachments: 0,
        user_text: 0,
        assistant_text: 0,
        after_compaction: false,
        superseded: false,
    }
}

fn rendered(session: &Session, data: &SessionData, width: u16) -> Vec<String> {
    words(&context(session, Some(data), &format!("{}.md", command().to_uppercase()), width, Text::new()))
}

/// The legend's entries in reading order, however many share a line.
fn legend_entries(lines: &[String]) -> Vec<String> {
    lines
        .iter()
        .filter(|l| l.starts_with("█ ") || l.starts_with("░ "))
        .flat_map(|l| l.split(['█', '░']))
        .map(|e| e.trim().to_string())
        .filter(|e| e.ends_with('%'))
        .collect()
}

/// The trailing `NN%` of a legend entry.
fn share_of(entry: &str) -> Option<i64> {
    entry.trim_end_matches('%').rsplit(' ').next()?.parse().ok()
}

/// The part that cannot be explained is as visible as the parts that can.
#[test]
fn context_panel_shows_the_gap_rather_than_hiding_it() {
    let s = Session::new(Provider::Claude, command(), "x".to_string());
    let mut data = SessionData::new();
    data.context_breakdown = Some(ContextBreakdown {
        total: 100_000,
        startup: 20_000,
        tool_output: 30_000,
        tool_input: 5_000,
        ..no_breakdown()
    });
    let lines = rendered(&s, &data, 100);
    let text = lines.join("\n");
    let entries = legend_entries(&lines);

    let gap = entries.last().expect("the legend must have entries");
    assert!(gap.starts_with("Unaccounted"), "{entries:?}");
    assert!(gap.contains("45%"), "{gap}");
    let shares: i64 = entries.iter().filter_map(|e| share_of(e)).sum();
    assert!((99..=101).contains(&shares), "shares summed to {shares}");
    assert!(text.contains("Estimated"), "the estimate must say so: {text}");
}

/// When the estimate overshoots, that is said.
#[test]
fn context_panel_admits_when_the_estimate_exceeds_the_window() {
    let s = Session::new(Provider::Claude, command(), "x".to_string());
    let mut data = SessionData::new();
    data.context_breakdown =
        Some(ContextBreakdown { total: 50_000, startup: 20_000, tool_output: 60_000, ..no_breakdown() });
    let text = rendered(&s, &data, 100).join("\n");
    assert!(!text.contains("Unaccounted"), "there is no gap to report");
    assert!(text.contains("overshoot"), "{text}");
    assert!(text.contains("75%"), "60k of 80k: {text}");
}

/// Once a compaction has replaced the window, no headroom in it is claimed.
#[test]
fn a_superseded_window_is_shown_as_past_rather_than_as_headroom() {
    let mut s = Session::new(Provider::Claude, command(), "x".to_string());
    s.context = Some(ContextUsage { used: 100_000, max: 200_000, compact_at: 160_000, compacted: true });
    let mut data = SessionData::new();
    data.context_breakdown = Some(ContextBreakdown {
        total: 100_000,
        startup: 20_000,
        tool_output: 30_000,
        superseded: true,
        ..no_breakdown()
    });
    let text = rendered(&s, &data, 100).join("\n");
    assert!(text.contains("before the last compaction"), "{text}");
    assert!(!text.contains("left"), "no headroom claim: {text}");
    assert!(!text.contains('┊'), "no threshold marker: {text}");

    s.inferred_running = true;
    let text = rendered(&s, &data, 100).join("\n");
    assert!(text.contains("compacting…"), "{text}");
}

#[test]
fn processes_panel_explains_cowork_absence() {
    let mut s = Session::new(Provider::Claude, command(), "x".to_string());
    s.surface = Surface::DesktopCowork;
    let text = processes(&s, 80, "/home/x").lines[0].words();
    assert!(text.contains("cloud VM"));
}

/// A stacked bar lands exactly on the panel's width whatever the shares round to.
#[test]
fn apportioning_a_bar_always_spends_every_cell() {
    for weights in [vec![1u64, 1, 1], vec![999_999, 1], vec![7, 11, 13, 17, 19], vec![0, 0, 5], vec![0, 0]] {
        for cells in [10usize, 37, 96] {
            let parts = apportion(&weights, cells);
            assert_eq!(parts.iter().sum::<usize>(), cells, "{weights:?} over {cells} cells");
        }
    }
    assert_eq!(apportion(&vec![0, 0, 0], 7), [3, 2, 2]);
    assert!(apportion(&vec![], 7).is_empty());
}

/// The header carries how full the window is and how much room is left, and the
/// bar under it spans the panel exactly.
#[test]
fn the_context_panel_leads_with_headroom_and_a_full_width_bar() {
    let mut s = Session::new(Provider::Claude, command(), "x".to_string());
    s.context = Some(ContextUsage { used: 118_200, max: 200_000, compact_at: 160_000, compacted: false });
    let mut data = SessionData::new();
    data.context_breakdown = Some(ContextBreakdown {
        total: 118_200,
        startup: 45_200,
        tool_output: 32_100,
        tool_input: 18_000,
        attachments: 2_100,
        user_text: 8_100,
        assistant_text: 6_900,
        after_compaction: false,
        superseded: false,
    });

    let lines = rendered(&s, &data, 100);
    assert!(lines[0].contains("118.2K of 200.0K"), "{}", lines[0]);
    assert!(lines[0].contains("to compaction"), "{}", lines[0]);
    assert!(lines[0].contains("left"), "{}", lines[0]);
    assert_eq!(lines[2].chars().count(), 100, "the stacked bar must fill the panel: {}", lines[2]);
    assert_eq!(lines[2].chars().filter(|c| *c == '█').count(), 59);
    assert!(lines[2].ends_with('░'), "free space must trail the bar: {}", lines[2]);
    assert_eq!(lines[2].chars().filter(|c| *c == '┊').count(), 1, "{}", lines[2]);

    let entries = legend_entries(&lines);
    let free = entries.last().expect("the legend must have entries");
    assert!(free.starts_with("Free"), "{entries:?}");
    assert!(free.contains("81.8K"), "{free}");
}

/// Text is wrapped on the last blank that fits, and cut where there is none.
#[test]
fn text_is_wrapped_on_blanks() {
    assert_eq!(wrap("the quick brown fox", 10), ["the quick", "brown fox"]);
    assert_eq!(wrap("abcdefghij", 4), ["abcd", "efgh", "ij"]);
    assert_eq!(wrap("a\n\nb", 4), ["a", "", "b"]);
    // In no columns only empty lines can be laid out.
    assert_eq!(wrap("\n\n", 0), ["", ""]);
    let text = "one  twothreefour five";
    let parts = wrap(text, 5);
    assert!(parts.iter().all(|l| l.chars().count() <= 5), "{parts:?}");
    let left: String = parts.concat().split_whitespace().collect();
    assert_eq!(left, text.split_whitespace().collect::<String>());
}

#[test]
fn a_duration_is_written_in_the_unit_it_needs() {
    assert_eq!(fmt_millis(900), "900ms");
    assert_eq!(fmt_millis(1_500), "1.5s");
    assert_eq!(fmt_millis(-5), "-5ms");
    assert_eq!(fmt_millis(61_000), "1m");
    // A half goes to the even digit, and what a double holds is what is rounded.
    assert_eq!(fmt_millis(1_250), "1.2s");
    assert_eq!(fmt_millis(1_150), "1.1s");
    for ms in 1_000..60_000i64 {
        assert_eq!(fmt_millis(ms), format!("{:.1}s", ms as f64 / 1000.0));
    }
}

/// Quotients and shares are rounded as doubles are.
#[test]
fn figures_are_rounded_as_doubles_are() {
    for whole in 1..400u128 {
        for part in 0..=whole {
            let share = part as f64 / whole as f64 * 100.0;
            assert_eq!(percent_of(part, whole), share.round() as u128, "{part} of {whole}");
            assert_eq!(to_nearest_even(part, whole, 100).to_string(), format!("{share:.0}"), "{part} of {whole}");
            let cells = (part as f64 / whole as f64 * 37.0).round() as u128;
            assert_eq!(to_nearest(part, whole, 37), cells, "{part} of {whole} in 37 cells");
        }
    }
    for (n, unit) in [(1u128, u64::MAX as u128), (u64::MAX as u128, 3), (1 << 60, 7), (0, 9), (9_007_199_254_740_993, 1)] {
        assert_eq!(with_places(n, unit, 1000, 3), format!("{:.3}", n as f64 / unit as f64), "{n} over {unit}");
    }
    assert_eq!(compact_tokens(1_250), "1.2K");
    assert_eq!(compact_usd(1_005_000_000), "$1.00");
    assert_eq!(meter(1, 2, 8), "━━━━────");
}

/// A call made by a subagent is tagged with the first six bytes of its id, as far
/// as they are whole characters.
#[test]
fn a_subagents_call_is_tagged_with_its_id() {
    let mut data = SessionData::new();
    let mut call = detail("true", "2026-08-05T10:00:00+00:00", false);
    call.origin = Some("agent-abcdefgh".to_string());
    let mut other = detail("false", "2026-08-05T10:00:00+00:00", false);
    other.origin = Some("ééééé".to_string());
    data.metrics.tool_details = vec![("Bash".to_string(), vec![call, other])];
    data.metrics.tool_count = 2;
    let (text, _) = tool_activity(&data, 0, &view(None, 120));
    let tags: Vec<&str> = text
        .lines
        .iter()
        .flat_map(|l| l.spans.iter())
        .filter(|s| s.text.starts_with('↳'))
        .map(|s| s.text.trim_end())
        .collect();
    assert_eq!(tags.len(), 2);
    assert!(tags.contains(&"↳abcdef") && tags.contains(&"↳ééé"), "{tags:?}");
}

/// Sorted downwards is sorted upwards in reverse, whatever the order before, and
/// sorting again changes nothing.
#[test]
fn sorting_downwards_is_sorting_upwards_in_reverse() {
    let ids = |v: &Vec<Subagent>| v.iter().map(|a| a.agent_id.clone()).collect::<Vec<_>>();
    for sort in [SubagentSort::Cost, SubagentSort::Type, SubagentSort::Last, SubagentSort::Context] {
        let mut up = vec![subagent("a", 2, false), subagent("b", 1, false), subagent("c", 2, false)];
        let mut down = vec![subagent("c", 2, false), subagent("a", 2, false), subagent("b", 1, false)];
        sort_subagents(&mut up, sort, true);
        sort_subagents(&mut down, sort, false);
        let mut back = ids(&down);
        back.reverse();
        assert_eq!(ids(&up), back);
        let once = ids(&up);
        sort_subagents(&mut up, sort, true);
        assert_eq!(ids(&up), once);
    }
}

/// The servers of a JSON file, by name; and what is said where there are none.
#[test]
fn servers_are_read_out_of_a_json_file() {
    let text = all(&mcp_from_json("{\"mcpServers\": {\"files\": {\"command\": \"npx\"}}}", "user"));
    assert!(text.contains("files"), "{text}");
    let none = all(&mcp_from_json("not json", "user"));
    assert!(!none.contains("files"), "{none}");
}

/// The servers of a TOML file, by their tables.
#[test]
fn servers_are_read_out_of_a_toml_file() {
    assert_eq!(all(&mcp_from_toml(Some("[mcp_servers.docs]\ncommand = \"x\"\n[other]\n"))), "docs");
    assert_eq!(all(&mcp_from_toml(Some("[other]\n"))), "No MCP servers in config.toml");
}

#[test]
fn the_head_of_a_file_is_shown() {
    let text = words(&file_section("one\ntwo\nthree\nfour\n", "~/AGENTS.md", 2));
    assert!(text.iter().any(|l| l.contains("one")));
    assert!(!text.iter().any(|l| l.contains("four")));
}

/// When a session was started, and when a call was made, is said where it can be
/// read.
#[test]
fn a_time_is_said_where_it_can_be_read() {
    let mut s = Session::new(Provider::Claude, command(), "x".to_string());
    let data = SessionData::new();
    let says = |s: &Session| all(&info(s, Some(&data), Plan::Retail, &None, "/home/x", &None, "2026-08-11 12:00:00", 0));
    s.started_at = "2026-08-11T10:00:00Z".to_string();
    assert!(says(&s).contains("2026-08-11 12:00:00"));
    s.started_at = "yesterday".to_string();
    assert!(!says(&s).contains("2026-08-11 12:00:00") && !says(&s).contains("Started"));

    let mut data = SessionData::new();
    data.metrics.tool_details = vec![(
        "Bash".to_string(),
        vec![detail("true", "2026-08-05T10:00:00+00:00", false), detail("false", "whenever", false)],
    )];
    data.metrics.tool_count = 2;
    let (text, _) = tool_activity(&data, 0, &view(None, 120));
    let times: Vec<&str> = text.lines.iter().map(|l| l.spans[0].text.as_str()).collect();
    assert!(times.contains(&"10:00") && times.contains(&"     "), "{times:?}");
}

/// A line whose only blank is its first character is cut by bytes, as far as they are
/// whole characters.
#[test]
fn a_line_that_begins_with_a_blank_is_cut_by_bytes() {
    assert_eq!(wrap(" éab", 3), [" é", "ab"]);
    assert_eq!(wrap(" éab", 2), [" ", "éa", "b"]);
    assert_eq!(wrap("éabc", 3), ["éab", "c"]);
}
