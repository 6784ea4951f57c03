use boxtop::sessions::{analyze_sessions, entry_from_raw, extract_project_path, format_compact,
    format_number, format_relative_time, format_time, normalize_model_name, truncate_path,
    truncate_prompt, Pricing, RawParts, SessionDashboard, UsageData, UsageEntry};

fn raw(entry_type: &str, ts: &str) -> RawParts {
    RawParts {
        timestamp: Some(ts.to_string()),
        cwd: Some("/home/u/proj".to_string()),
        session_id: Some("sess-1".to_string()),
        entry_type: Some(entry_type.to_string()),
        model: Some("sonnet-4-20250514".to_string()),
        usage: Some(UsageData {
            input_tokens: 10,
            output_tokens: 20,
            cache_creation_input_tokens: 5,
            cache_read_input_tokens: 2,
        }),
        prompt_text: None,
    }
}

fn entry(session_id: &str, ts: i64, cwd: &str) -> UsageEntry {
    UsageEntry {
        timestamp_ms: ts,
        session_id: session_id.to_string(),
        input_tokens: 10,
        output_tokens: 5,
        cache_creation_tokens: 0,
        cache_read_tokens: 0,
        cost_picodollars: 100,
        model: "sonnet".to_string(),
        cwd: cwd.to_string(),
        project_path: String::new(),
        user_prompt: None,
    }
}

#[test]
fn assistant_entry_is_admitted_with_real_timestamp() {
    // 2024-01-01T00:00:00Z is 1704067200 seconds since the epoch; the
    // timestamp must come from actually parsing the string.
    let e = entry_from_raw(raw("assistant", "2024-01-01T00:00:00Z"), 0, "proj").unwrap();
    assert_eq!(e.timestamp_ms, 1704067200000);
    assert_eq!(e.input_tokens, 10);
    assert_eq!(e.output_tokens, 20);
    assert_eq!(e.project_path, "proj");
    assert!(e.user_prompt.is_none());
    // sonnet pricing, picodollars: 10 * 3e6 + 20 * 15e6 + 5 * 3.75e6 +
    // 2 * 0.3e6.
    assert_eq!(e.cost_picodollars, 10 * 3_000_000 + 20 * 15_000_000 + 5 * 3_750_000 + 2 * 300_000);
}

#[test]
fn entries_before_cutoff_are_skipped() {
    let cutoff = 1704067200000 + 1;
    assert!(entry_from_raw(raw("assistant", "2024-01-01T00:00:00Z"), cutoff, "p").is_none());
}

#[test]
fn malformed_timestamp_is_skipped() {
    assert!(entry_from_raw(raw("assistant", "yesterday at noon"), 0, "p").is_none());
}

#[test]
fn user_entry_needs_a_prompt() {
    let mut r = raw("user", "2024-01-01T00:00:00Z");
    assert!(entry_from_raw(r, 0, "p").is_none());
    r = raw("user", "2024-01-01T00:00:00Z");
    r.prompt_text = Some("hello".to_string());
    let e = entry_from_raw(r, 0, "p").unwrap();
    assert_eq!(e.user_prompt.as_deref(), Some("hello"));
    assert_eq!(e.input_tokens, 0);
    assert_eq!(e.cost_picodollars, 0);
}

#[test]
fn assistant_entry_without_tokens_is_skipped() {
    let mut r = raw("assistant", "2024-01-01T00:00:00Z");
    r.usage = Some(UsageData {
        input_tokens: 0,
        output_tokens: 0,
        cache_creation_input_tokens: 9,
        cache_read_input_tokens: 9,
    });
    assert!(entry_from_raw(r, 0, "p").is_none());
    let mut r2 = raw("assistant", "2024-01-01T00:00:00Z");
    r2.usage = None;
    assert!(entry_from_raw(r2, 0, "p").is_none());
}

#[test]
fn other_entry_types_are_skipped() {
    assert!(entry_from_raw(raw("summary", "2024-01-01T00:00:00Z"), 0, "p").is_none());
}

#[test]
fn pricing_tiers() {
    // One input token per tier, in picodollars.
    assert_eq!(Pricing::calculate_cost("big-opus-4", 1, 0, 0, 0), 15_000_000);
    assert_eq!(Pricing::calculate_cost("small-haiku-3", 1, 0, 0, 0), 250_000);
    assert_eq!(Pricing::calculate_cost("anything-else", 1, 0, 0, 0), 3_000_000);
    // Cache writes cost 1.25x input; cache reads a tenth of input.
    assert_eq!(Pricing::calculate_cost("big-opus-4", 0, 0, 1, 0), 18_750_000);
    assert_eq!(Pricing::calculate_cost("big-opus-4", 0, 0, 0, 1), 1_500_000);
}

#[test]
fn model_names_normalise() {
    assert_eq!(normalize_model_name("opus-4-20250514"), "opus-4");
    assert_eq!(normalize_model_name("big-opus-4.5"), "opus-4.5");
    assert_eq!(normalize_model_name("3-opus"), "opus-3");
    assert_eq!(normalize_model_name("sonnet-4-x"), "sonnet-4");
    assert_eq!(normalize_model_name("a-3.5-sonnet"), "sonnet-3.5");
    assert_eq!(normalize_model_name("a-3-5-haiku"), "haiku-3.5");
    assert_eq!(normalize_model_name("HAIKU-3"), "haiku-3");
    assert_eq!(normalize_model_name("mystery-model"), "mystery-model");
}

#[test]
fn sessions_sorted_and_deduped_by_path() {
    // Two sessions in the same directory: only the most recent survives.
    // A third session elsewhere stays.
    let entries = vec![
        entry("old", 1000, "/home/u/a"),
        entry("new", 5000, "/home/u/a"),
        entry("other", 3000, "/home/u/b"),
    ];
    let blocks = analyze_sessions(entries, 10000);
    assert_eq!(blocks.len(), 2);
    assert_eq!(blocks[0].session_id, "new");
    assert_eq!(blocks[1].session_id, "other");
    assert!(blocks[0].start_time_ms >= blocks[1].start_time_ms);
}

#[test]
fn session_activity_threshold() {
    let entries = vec![entry("live", 1000, "/a"), entry("idle", 0, "/b")];
    // now = 1000 + 179_999: "live" is within the three-minute threshold.
    let blocks = analyze_sessions(entries, 1000 + 179_999);
    let live = blocks.iter().find(|b| b.session_id == "live").unwrap();
    let idle = blocks.iter().find(|b| b.session_id == "idle").unwrap();
    assert!(live.is_active);
    assert!(!idle.is_active);
}

#[test]
fn session_block_aggregates_group() {
    let mut a = entry("s", 60_000, "/a");
    a.user_prompt = Some("do the thing".to_string());
    a.input_tokens = 0;
    a.output_tokens = 0;
    let b = entry("s", 180_000, "/a");
    let blocks = analyze_sessions(vec![a, b], 10_000_000);
    assert_eq!(blocks.len(), 1);
    let s = &blocks[0];
    assert_eq!(s.start_time_ms, 60_000);
    assert_eq!(s.end_time_ms, 180_000);
    assert_eq!(s.message_count, 1);
    assert_eq!(s.total_tokens, 15);
    assert_eq!(s.last_prompt.as_deref(), Some("do the thing"));
    assert_eq!(s.duration_minutes(), 2);
    assert_eq!(s.burn_rate(), 7);
}

#[test]
fn empty_entries_yield_no_sessions() {
    assert!(analyze_sessions(Vec::new(), 0).is_empty());
}

#[test]
fn dashboard_selection_is_stable_across_refreshes() {
    let mut d = SessionDashboard::new();
    let blocks = analyze_sessions(
        vec![entry("a", 1000, "/a"), entry("b", 2000, "/b")],
        1_000_000,
    );
    d.update_sessions(blocks);
    // Most recent first: "b" at index 0. Select "a".
    assert_eq!(d.sessions[0].session_id, "b");
    d.select_next();
    assert_eq!(d.selected_session().unwrap().session_id, "a");
    // A refresh that adds a newer session shifts the rows; the selection
    // follows the id.
    let blocks2 = analyze_sessions(
        vec![entry("a", 1000, "/a"), entry("b", 2000, "/b"), entry("c", 3000, "/c")],
        1_000_000,
    );
    d.update_sessions(blocks2);
    assert_eq!(d.selected_session().unwrap().session_id, "a");
    d.select_prev();
    assert_eq!(d.selected_session().unwrap().session_id, "b");
}

#[test]
fn project_path_unmangling() {
    assert_eq!(extract_project_path("-home-u-Desktop"), "/home/u/Desktop");
    assert_eq!(extract_project_path("plain"), "plain");
}

#[test]
fn prompt_truncation() {
    let long = "x".repeat(300);
    let t = truncate_prompt(&long);
    assert_eq!(t.chars().count(), 203);
    assert!(t.ends_with("..."));
    assert_eq!(truncate_prompt("short"), "short");
}

#[test]
fn number_formatting() {
    assert_eq!(format_number(0), "0");
    assert_eq!(format_number(999), "999");
    assert_eq!(format_number(1234567), "1,234,567");
    assert_eq!(format_compact(999), "999");
    assert_eq!(format_compact(12_345), "12k");
    assert_eq!(format_compact(1_500_000), "1.5M");
    // Rounding to one decimal: 1.449M rounds down, 1.45M rounds up.
    assert_eq!(format_compact(1_449_999), "1.4M");
    assert_eq!(format_compact(1_450_000), "1.5M");
}

#[test]
fn time_formatting() {
    assert_eq!(format_relative_time(0), "now");
    assert_eq!(format_relative_time(5), "5m ago");
    assert_eq!(format_relative_time(120), "2h ago");
    assert_eq!(format_relative_time(3000), "2d ago");
    assert_eq!(format_time(45), "45m");
    assert_eq!(format_time(125), "2h 5m");
}

#[test]
fn path_truncation_keeps_tail() {
    assert_eq!(truncate_path("/short", 60), "/short");
    assert_eq!(truncate_path("abcdefghij", 8), "...fghij");
}

#[test]
fn short_name_takes_last_component() {
    let blocks = analyze_sessions(vec![entry("s", 0, "/home/u/myproject")], 1);
    assert_eq!(blocks[0].short_name(16), "myproject");
    assert_eq!(blocks[0].short_name(5), "mypr\u{2026}");
}
