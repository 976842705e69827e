use miami::registry::{now_ms, Agent, State};
use miami::ui::{
    ctx_label, detail_rows, footer, header, highlighted, listening_line, row, table, thousands,
    ticket_width, truncate, Chrome, Footer,
};

fn agent(pid: u32, state: State) -> Agent {
    Agent {
        pid,
        state,
        cwd: None,
        session_file: None,
        session_id: None,
        name: None,
        model: None,
        model_id: None,
        thinking_level: None,
        task: None,
        activity: None,
        ticket: None,
        terminal: None,
        context_tokens: None,
        context_percent: None,
        updated: now_ms(),
    }
}

fn detail_value(a: &Agent, key: &str) -> String {
    detail_rows(a, a.updated)
        .into_iter()
        .find(|(k, _)| k == key)
        .map(|(_, v)| v)
        .unwrap()
}

#[test]
fn thousands_groups_digits() {
    assert_eq!(thousands(0), "0");
    assert_eq!(thousands(999), "999");
    assert_eq!(thousands(1_000), "1,000");
    assert_eq!(thousands(48_213), "48,213");
    assert_eq!(thousands(1_000_000), "1,000,000");
}

#[test]
fn thousands_handles_the_largest_value() {
    assert_eq!(thousands(u64::MAX), "18,446,744,073,709,551,615");
    assert_eq!(thousands(100_000), "100,000");
}

#[test]
fn truncate_is_char_aware() {
    assert_eq!(truncate("short", 10), "short");
    assert_eq!(truncate("exactly-10", 10), "exactly-10");
    assert_eq!(truncate("abcdefghijk", 10), "abcdefghi…");
    assert_eq!(truncate("ünïcödé-string-here", 8), "ünïcödé…");
}

#[test]
fn truncate_to_zero_or_one_keeps_only_the_ellipsis() {
    assert_eq!(truncate("abc", 0), "…");
    assert_eq!(truncate("abc", 1), "…");
    assert_eq!(truncate("", 0), "");
}

#[test]
fn ctx_label_covers_missing_values() {
    let mut a = agent(1, State::Idle);
    assert_eq!(ctx_label(&a), "-", "no context yet");

    a.context_tokens = Some(48_213);
    assert_eq!(ctx_label(&a), "48,213 tok", "percent absent after compaction");

    // the agent holds the percent as the whole number it is shown as
    a.context_percent = Some(24);
    assert_eq!(ctx_label(&a), "48,213 tok (24%)", "percent is rounded");

    a.context_tokens = None;
    assert_eq!(ctx_label(&a), "-", "percent alone is not enough");
}

#[test]
fn empty_state_shows_socket_hint() {
    assert!(header(&[]).contains("0 agents"), "header pluralises zero");
    assert!(listening_line("/tmp/miami.sock").contains("/tmp/miami.sock"), "shows where it listens");
    assert_eq!(listening_line("/tmp/miami.sock"), "  listening on /tmp/miami.sock");
}

#[test]
fn header_pluralises_and_counts_running() {
    let one = header(&[agent(1, State::Idle)]);
    assert!(one.contains("1 agent "), "singular for one agent");
    assert!(one.contains("0 running"));

    let many = header(&[agent(1, State::Running), agent(2, State::Running), agent(3, State::Idle)]);
    assert!(many.contains("3 agents"));
    assert!(many.contains("2 running"), "only Running counts");
    assert_eq!(many, "  3 agents  ·  2 running");
}

#[test]
fn rows_render_label_state_and_model() {
    let mut a = agent(42, State::Running);
    a.name = Some("auth refactor".into());
    a.model = Some("lego-lyra/opus-5".into());
    a.context_tokens = Some(48_213);
    a.context_percent = Some(24);

    let r = row(&a, 0, 80);
    assert!(r.label.contains("auth refactor"));
    assert!(r.state.contains("running"));
    assert!(r.model.contains("lego-lyra/opus-5"));
    assert_eq!(r.context, "48,213 tok (24%)");
    assert_eq!(r.label.chars().count(), 24);
    assert_eq!(r.state, "running  ");
    assert_eq!(r.dot, " ● ");
}

#[test]
fn ticket_shows_on_the_row_and_in_detail() {
    let mut a = agent(1, State::Running);
    a.name = Some("auth refactor".into());
    a.ticket = Some("COIN-1234".into());
    a.task = Some("/buck ticket COIN-1234".into());
    let w = ticket_width(std::slice::from_ref(&a));
    let r = row(&a, w, 80);
    assert_eq!(r.ticket.as_deref(), Some("COIN-1234  "), "ticket on the row");
    assert!(r.state.contains("running"), "state still on the row");
    assert_eq!(detail_value(&a, "label"), "auth refactor   COIN-1234", "ticket in detail");
}

#[test]
fn ticketless_agents_reserve_no_ticket_column() {
    let mut a = agent(1, State::Running);
    a.name = Some("auth refactor".into());
    assert_eq!(ticket_width(std::slice::from_ref(&a)), 0);
    assert!(row(&a, 0, 80).ticket.is_none());

    a.ticket = Some("COIN-1234".into());
    assert_eq!(ticket_width(std::slice::from_ref(&a)), 10, "state shifts right only once a ticket exists");
}

#[test]
fn ticket_column_does_not_overflow_the_width() {
    let mut a = agent(1, State::Running);
    a.name = Some("a".repeat(40));
    a.ticket = Some("VERYLONGPROJECT-123456".into());
    a.task = Some("x".repeat(200));
    let w = ticket_width(std::slice::from_ref(&a));
    assert_eq!(w, 16);
    let r = row(&a, w, 93);
    assert_eq!(r.ticket.as_deref().map(|t| t.chars().count()), Some(17));
    assert_eq!(r.label.chars().count(), 24);
    assert!(r.task.chars().count() <= 97);
}

#[test]
fn detail_pane_shows_selected_agent() {
    let mut second = agent(2, State::Running);
    second.name = Some("beta".into());
    second.cwd = Some("/Users/x/dev/beta".into());
    second.session_id = Some("sess-xyz".into());
    second.model = Some("opus".into());
    second.thinking_level = Some("high".into());

    assert_eq!(detail_value(&second, "session"), "sess-xyz", "detail follows selection");
    assert_eq!(detail_value(&second, "cwd"), "/Users/x/dev/beta");
    assert_eq!(detail_value(&second, "model"), "opus  thinking:high");
    assert_eq!(detail_value(&second, "label"), "beta");
}

#[test]
fn footer_shows_ghostty_keys_and_status() {
    let hints = footer(&Chrome { sock: "/tmp/miami.sock", status: None, ghostty: true });
    match hints {
        Footer::Hints(h) => {
            assert!(h.contains("enter focus pane"), "{h}");
            assert!(h.contains("n new pi tab"));
        }
        Footer::Status(_) => panic!("hints expected"),
    }

    let bare = footer(&Chrome { sock: "/tmp/miami.sock", status: None, ghostty: false });
    match bare {
        Footer::Hints(h) => {
            assert!(!h.contains("enter focus pane"), "{h}");
            assert!(h.contains("d hide dead"), "other keys still listed");
        }
        Footer::Status(_) => panic!("hints expected"),
    }

    let msg = footer(&Chrome { sock: "/tmp/miami.sock", status: Some("focused alpha"), ghostty: true });
    match msg {
        Footer::Status(m) => assert_eq!(m, " focused alpha"),
        Footer::Hints(_) => panic!("status expected"),
    }
}

#[test]
fn detail_shows_pane_id_beside_pid() {
    let mut a = agent(42, State::Idle);
    a.terminal = Some("2B846B1E-24D2-42D9".into());
    assert_eq!(detail_value(&a, "pid"), "42   pane 2B846B1E-24D2-42D9");

    a.terminal = None;
    assert!(detail_value(&a, "pid").contains("cannot focus"));
}

#[test]
fn missing_detail_fields_render_as_dashes() {
    let a = agent(7, State::Starting);
    assert!(detail_value(&a, "state").starts_with("starting"));
    assert_eq!(detail_value(&a, "label"), "pid 7", "falls back to pid label");
    for key in ["cwd", "model", "session"] {
        assert!(detail_value(&a, key).contains('-'), "{key} row should show a dash");
    }
    assert_eq!(detail_value(&a, "model id"), "-");
    assert_eq!(detail_value(&a, "context"), "-");
    assert_eq!(detail_value(&a, "doing"), "-");
}

#[test]
fn detail_rows_come_in_a_fixed_order() {
    let mut a = agent(1, State::Idle);
    a.updated = 1_000;
    let keys: Vec<String> = detail_rows(&a, 62_500).into_iter().map(|(k, _)| k).collect();
    assert_eq!(
        keys,
        vec!["label", "state", "pid", "cwd", "model", "model id", "context", "task", "doing", "session"]
    );
    assert_eq!(detail_rows(&a, 62_500)[1].1, "idle (61s ago)");
    assert_eq!(detail_rows(&a, 0)[1].1, "idle (0s ago)", "a clock behind the report reads as now");
}

#[test]
fn out_of_range_selection_does_not_panic() {
    assert_eq!(highlighted(99, 1), 0);
    assert_eq!(highlighted(0, 0), 0);
    assert_eq!(highlighted(2, 5), 2);
}

#[test]
fn task_line_renders_under_the_row() {
    let mut a = agent(1, State::Running);
    a.name = Some("auth refactor".into());
    a.task = Some("add a task summary to the dashboard".into());
    let r = row(&a, 0, 80);
    assert!(r.label.contains("auth refactor"), "label present");
    assert_eq!(r.task, "    add a task summary to the dashboard");
    assert!(!r.label.contains("add a task summary"), "task not on header row");
}

#[test]
fn missing_task_renders_a_dash() {
    let a = agent(1, State::Idle);
    assert!(row(&a, 0, 80).task.contains('\u{2014}'), "placeholder for absent task");
    assert_eq!(detail_value(&a, "task"), "-", "detail pane has a task row");
}

#[test]
fn long_task_is_truncated_to_width() {
    let mut a = agent(1, State::Idle);
    a.task = Some("x".repeat(400));
    let r = row(&a, 0, 93);
    assert_eq!(r.task.chars().count(), 97);
    assert!(r.task.contains('\u{2026}'), "ellipsised");
}

#[test]
fn task_and_activity_show_together_while_running() {
    let mut a = agent(1, State::Running);
    a.name = Some("auth refactor".into());
    a.task = Some("add the tool call line".into());
    a.activity = Some("bash: cargo test".into());
    let r = row(&a, 0, 80);
    assert_eq!(r.task, "    add the tool call line");
    assert_eq!(r.activity.as_deref(), Some("bash: cargo test"));
}

#[test]
fn idle_agent_reserves_a_blank_activity_line() {
    let mut a = agent(1, State::Idle);
    a.task = Some("waiting for input".into());
    assert!(row(&a, 0, 80).activity.is_none());
}

#[test]
fn activity_is_cut_two_narrower_than_the_task() {
    let mut a = agent(1, State::Running);
    a.activity = Some("abcdefghij".into());
    assert_eq!(row(&a, 0, 8).activity.as_deref(), Some("abcde…"));
}

#[test]
fn table_lists_columns_task_and_activity() {
    let mut a = agent(7, State::Running);
    a.name = Some("alpha".into());
    a.model = Some("opus".into());
    a.context_tokens = Some(48213);
    a.context_percent = Some(24);
    a.task = Some("do it".into());
    a.activity = Some("bash: ls".into());
    let b = agent(8, State::Idle);
    let t = table(&[a, b]);
    let lines: Vec<&str> = t.lines().collect();
    assert_eq!(
        lines[0],
        "7       alpha                running  opus                    48213 tok (24%)"
    );
    assert_eq!(lines[1], "        do it");
    assert_eq!(lines[2], "        ↳ bash: ls");
    assert_eq!(
        lines[3],
        "8       pid 8                idle     -                                     -"
    );
    assert_eq!(lines[4], "        —");
    assert_eq!(lines.len(), 5);
}
