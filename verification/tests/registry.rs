use miami::registry::{
    find_ticket, find_worktree_ticket, prettify_model_id, Agent, Registry, Report, State,
};

/// Minimal report; every optional field absent unless overridden.
fn report(pid: u32, kind: &str, state: Option<&str>) -> Report {
    Report {
        pid,
        kind: kind.into(),
        state: state.map(Into::into),
        cwd: None,
        session_file: None,
        session_id: None,
        name: None,
        model: None,
        model_id: None,
        thinking_level: None,
        task: None,
        activity: None,
        ticket: None,
        terminal: None,
        context_tokens: None,
        context_percent: None,
        ts: None,
    }
}

fn by_pid(reg: &Registry, pid: u32) -> Agent {
    reg.sorted().into_iter().find(|a| a.pid == pid).unwrap()
}

#[test]
fn terminal_id_is_sticky() {
    let mut reg = Registry::default();
    let mut r = report(1, "status", Some("idle"));
    r.terminal = Some("2B846B1E-24D2".into());
    reg.apply(r);
    assert_eq!(reg.sorted()[0].terminal.as_deref(), Some("2B846B1E-24D2"));

    // a later heartbeat without it
    reg.apply(report(1, "status", Some("running")));
    assert_eq!(
        reg.sorted()[0].terminal.as_deref(),
        Some("2B846B1E-24D2"),
        "surface id must not be cleared by omission"
    );
}

#[test]
fn find_ticket_matches_jira_keys() {
    assert_eq!(find_ticket("/buck ticket COIN-1234").as_deref(), Some("COIN-1234"));
    assert_eq!(find_ticket("fix the thing for PAY-77 please").as_deref(), Some("PAY-77"));
    assert_eq!(find_ticket("/Users/x/dev/wt/COIN-9/api").as_deref(), Some("COIN-9"));
    assert_eq!(find_ticket("A1B-12").as_deref(), Some("A1B-12"));
    assert_eq!(find_ticket("COIN-1 then COIN-2").as_deref(), Some("COIN-1"));
}

#[test]
fn find_ticket_rejects_non_tickets() {
    assert_eq!(find_ticket(""), None);
    assert_eq!(find_ticket("no ticket here"), None);
    assert_eq!(find_ticket("A-1"), None);
    assert_eq!(find_ticket("coin-1234"), None);
    assert_eq!(find_ticket("lego-lyra/opus-5"), None);
    assert_eq!(find_ticket("utf-8"), None);
    assert_eq!(find_ticket("/Users/x/dev/lego/brickbank"), None);
    assert_eq!(find_ticket("COIN-abc"), None);
    assert_eq!(find_ticket("COIN-"), None);
    assert_eq!(find_ticket("gpt-5.6-sol-2026-07-09"), None);
    assert_eq!(find_ticket("xCOIN-1"), None);
    assert_eq!(find_ticket("FOO_COIN-1"), None);
    assert_eq!(find_ticket("COIN-12x"), None);
}

#[test]
fn find_ticket_respects_unicode_word_boundaries() {
    // a non-ASCII letter is part of a word, so no key starts right after it
    assert_eq!(find_ticket("éCOIN-1"), None);
    // punctuation and spaces are boundaries
    assert_eq!(find_ticket("(COIN-1)").as_deref(), Some("COIN-1"));
    assert_eq!(find_ticket("x COIN-1é"), None);
    // a failed run is skipped whole, and the next one still matches
    assert_eq!(find_ticket("ABC-x DEF-2").as_deref(), Some("DEF-2"));
}

#[test]
fn find_worktree_ticket_reads_buck_worktrees() {
    assert_eq!(
        find_worktree_ticket("/Users/g/dev/lego/brickbank/.worktrees/buck-coin-2695-pin-actions")
            .as_deref(),
        Some("COIN-2695")
    );
    assert_eq!(find_worktree_ticket("/x/buck-coin-2695").as_deref(), Some("COIN-2695"));
    assert_eq!(find_worktree_ticket("/Users/g/dev/lego/brickbank"), None);
    assert_eq!(find_worktree_ticket("/x/some-other-2695-thing"), None);
    assert_eq!(find_worktree_ticket("/x/buck-notanum-abc"), None);
    assert_eq!(find_worktree_ticket("/x/buck-c-1"), None);
}

#[test]
fn find_worktree_ticket_takes_the_first_matching_segment() {
    assert_eq!(
        find_worktree_ticket("buck-ab-1/buck-cd-2").as_deref(),
        Some("AB-1")
    );
    assert_eq!(find_worktree_ticket("/x/buck-Coin-1"), None);
    assert_eq!(find_worktree_ticket("/x/buck-coin-"), None);
    assert_eq!(find_worktree_ticket(""), None);
}

#[test]
fn reported_ticket_is_authoritative() {
    let mut reg = Registry::default();
    let mut r = report(1, "status", Some("running"));
    r.ticket = Some("COIN-2695".into());
    r.task = Some("compare against COIN-1111".into());
    r.cwd = Some("/x/.worktrees/buck-coin-9999-old".into());
    reg.apply(r);
    assert_eq!(reg.sorted()[0].ticket.as_deref(), Some("COIN-2695"));

    // An empty reported ticket falls through to sniffing.
    let mut r = report(2, "status", Some("running"));
    r.ticket = Some(String::new());
    r.cwd = Some("/x/.worktrees/buck-coin-4242-thing".into());
    reg.apply(r);
    let a = by_pid(&reg, 2);
    assert_eq!(a.ticket.as_deref(), Some("COIN-4242"));
}

#[test]
fn buck_pane_without_reported_ticket_has_nothing_to_sniff() {
    let mut reg = Registry::default();
    let mut r = report(1, "status", Some("running"));
    r.task = Some("implement".into());
    r.cwd = Some("/Users/g/dev/lego/brickbank".into());
    reg.apply(r);
    assert!(reg.sorted()[0].ticket.is_none());
}

#[test]
fn ticket_is_sniffed_from_task_name_and_cwd() {
    let mut reg = Registry::default();

    let mut r = report(1, "status", Some("running"));
    r.task = Some("/buck ticket COIN-1234".into());
    reg.apply(r);
    assert_eq!(reg.sorted()[0].ticket.as_deref(), Some("COIN-1234"));

    let mut r = report(2, "status", Some("idle"));
    r.cwd = Some("/Users/x/dev/wt/PAY-42".into());
    r.task = Some("look at the tests".into());
    reg.apply(r);
    assert_eq!(by_pid(&reg, 2).ticket.as_deref(), Some("PAY-42"));

    let mut r = report(4, "status", Some("running"));
    r.task = Some("implement".into());
    r.cwd = Some("/x/brickbank/.worktrees/buck-coin-2695-pin-actions".into());
    reg.apply(r);
    assert_eq!(by_pid(&reg, 4).ticket.as_deref(), Some("COIN-2695"));

    let mut r = report(3, "status", Some("idle"));
    r.name = Some("COIN-7 refactor".into());
    r.cwd = Some("/Users/x/dev/wt/PAY-42".into());
    reg.apply(r);
    assert_eq!(by_pid(&reg, 3).ticket.as_deref(), Some("COIN-7"));
}

#[test]
fn ticket_survives_later_turns_that_do_not_mention_it() {
    let mut reg = Registry::default();
    let mut r = report(1, "status", Some("running"));
    r.task = Some("/buck ticket COIN-1234".into());
    reg.apply(r);

    let mut r = report(1, "status", Some("running"));
    r.task = Some("now run the tests".into());
    reg.apply(r);
    assert_eq!(
        reg.sorted()[0].ticket.as_deref(),
        Some("COIN-1234"),
        "ticket is sticky across turns"
    );

    let mut r = report(1, "status", Some("running"));
    r.task = Some("/buck ticket COIN-999".into());
    reg.apply(r);
    assert_eq!(reg.sorted()[0].ticket.as_deref(), Some("COIN-999"));
}

#[test]
fn agents_without_tickets_have_none() {
    let mut reg = Registry::default();
    let mut r = report(1, "status", Some("idle"));
    r.name = Some("scratch".into());
    r.cwd = Some("/Users/x/dev/miami".into());
    r.task = Some("add a ticket column".into());
    reg.apply(r);
    assert!(reg.sorted()[0].ticket.is_none());
}

#[test]
fn state_labels_are_stable() {
    assert_eq!(State::Starting.label(), "starting");
    assert_eq!(State::Idle.label(), "idle");
    assert_eq!(State::Running.label(), "running");
    assert_eq!(State::Gone.label(), "gone");
}

#[test]
fn unknown_state_string_falls_back_to_starting() {
    let mut reg = Registry::default();
    reg.apply(report(1, "status", Some("wat")));
    assert_eq!(reg.sorted()[0].state, State::Starting);

    reg.apply(report(2, "status", None));
    assert_eq!(by_pid(&reg, 2).state, State::Starting);
}

#[test]
fn gone_for_unknown_pid_does_not_create_an_agent() {
    let mut reg = Registry::default();
    reg.apply(report(4242, "gone", None));
    assert!(reg.sorted().is_empty(), "gone must not register a new agent");
}

#[test]
fn explicit_ts_is_preferred_over_wall_clock() {
    let mut reg = Registry::default();
    let mut r = report(7, "status", Some("idle"));
    r.ts = Some(1_234_567);
    reg.apply(r);
    assert_eq!(reg.sorted()[0].updated, 1_234_567);
}

#[test]
fn label_prefers_name_then_cwd_then_pid() {
    let mut reg = Registry::default();
    reg.apply(report(1, "status", Some("idle")));
    assert_eq!(reg.sorted()[0].label(), "pid 1");

    let mut r = report(1, "status", Some("idle"));
    r.cwd = Some("/a/b/proj".into());
    reg.apply(r);
    assert_eq!(reg.sorted()[0].label(), "proj");

    let mut r = report(1, "status", Some("idle"));
    r.name = Some("refactor".into());
    reg.apply(r);
    assert_eq!(reg.sorted()[0].label(), "refactor");
}

#[test]
fn empty_name_is_ignored_for_label() {
    let mut reg = Registry::default();
    let mut r = report(1, "status", Some("idle"));
    r.cwd = Some("/a/b/proj".into());
    r.name = Some(String::new());
    reg.apply(r);
    assert_eq!(reg.sorted()[0].label(), "proj", "blank name must not win");
}

#[test]
fn trailing_slash_cwd_falls_back_to_pid() {
    let mut reg = Registry::default();
    let mut r = report(9, "status", Some("idle"));
    r.cwd = Some("/a/b/".into());
    reg.apply(r);
    assert_eq!(reg.sorted()[0].label(), "pid 9");
}

#[test]
fn sorted_orders_by_label_then_pid() {
    let mut reg = Registry::default();
    for (pid, name) in [(3u32, "beta"), (1, "alpha"), (2, "alpha")] {
        let mut r = report(pid, "status", Some("idle"));
        r.name = Some(name.into());
        reg.apply(r);
    }
    let got: Vec<(String, u32)> = reg.sorted().iter().map(|a| (a.label(), a.pid)).collect();
    assert_eq!(
        got,
        vec![
            ("alpha".to_string(), 1),
            ("alpha".to_string(), 2),
            ("beta".to_string(), 3)
        ],
        "ties broken by pid so rows never jump"
    );
}

#[test]
fn sorted_compares_labels_by_code_point() {
    let mut reg = Registry::default();
    for (pid, name) in [(1u32, "b"), (2, "B"), (3, "ab"), (4, "a"), (5, "é")] {
        let mut r = report(pid, "status", Some("idle"));
        r.name = Some(name.into());
        reg.apply(r);
    }
    let got: Vec<String> = reg.sorted().iter().map(|a| a.label()).collect();
    assert_eq!(got, vec!["B", "a", "ab", "b", "é"]);
}

#[test]
fn forget_dead_retains_live_agents() {
    let mut reg = Registry::default();
    reg.apply(report(1, "status", Some("running")));
    reg.apply(report(2, "status", Some("idle")));
    reg.apply(report(2, "gone", None));
    assert_eq!(reg.sorted().len(), 2);

    reg.forget_dead();
    let left = reg.sorted();
    assert_eq!(left.len(), 1);
    assert_eq!(left[0].pid, 1);
}

#[test]
fn prettify_model_id_strips_noise() {
    assert_eq!(prettify_model_id("lego-openai/gpt-5.6-sol-2026-07-09"), "gpt-5.6-sol");
    assert_eq!(
        prettify_model_id("lego-lyra/eu.anthropic.lyra-haiku-4-5-20251001-v1:0"),
        "lyra-haiku-4-5"
    );
    assert_eq!(prettify_model_id("gpt-5.6-sol"), "gpt-5.6-sol");
    assert_eq!(prettify_model_id("opus"), "opus");
}

#[test]
fn prettify_model_id_never_returns_empty() {
    assert_eq!(prettify_model_id("prov/20251001"), "20251001");
    assert_eq!(prettify_model_id(""), "");
}

#[test]
fn prettify_model_id_edge_cases() {
    // a leading dash keeps the tail whole rather than blanking it
    assert_eq!(prettify_model_id("-2025"), "-2025");
    // an empty namespace segment stops the stripping
    assert_eq!(prettify_model_id(".hidden.model"), ".hidden.model");
    // the date cut happens before the revision is considered
    assert_eq!(prettify_model_id("a/b.c-1234:9"), "c");
}

#[test]
fn model_label_prefers_display_name_over_id() {
    let mut reg = Registry::default();
    let mut r = report(1, "status", Some("idle"));
    r.model = Some("GPT-5.6 Sol (LEGO)".into());
    r.model_id = Some("lego-openai/gpt-5.6-sol-2026-07-09".into());
    reg.apply(r);
    assert_eq!(reg.sorted()[0].model_label(), "GPT-5.6 Sol (LEGO)");

    let mut r = report(2, "status", Some("idle"));
    r.model = Some(String::new());
    r.model_id = Some("lego-openai/gpt-5.6-sol-2026-07-09".into());
    reg.apply(r);
    assert_eq!(by_pid(&reg, 2).model_label(), "gpt-5.6-sol");

    reg.apply(report(3, "status", Some("idle")));
    assert_eq!(by_pid(&reg, 3).model_label(), "-", "nothing known");
}

#[test]
fn reap_leaves_already_gone_agents_alone() {
    let mut reg = Registry::default();
    reg.apply(report(4242, "status", Some("idle")));
    reg.apply(report(4242, "gone", None));
    reg.reap(|_| true);
    assert_eq!(reg.sorted()[0].state, State::Gone);
}

#[test]
fn reap_marks_dead_pids_gone_and_clears_activity() {
    let mut reg = Registry::default();
    let mut r = report(999998, "status", Some("running"));
    r.activity = Some("edit: x.rs".into());
    reg.apply(r);
    let mut r = report(1, "status", Some("running"));
    r.activity = Some("bash: cargo test".into());
    reg.apply(r);
    reg.reap(|pid| pid == 1);
    let dead = by_pid(&reg, 999998);
    assert_eq!(dead.state, State::Gone, "nonexistent pid reaped");
    assert!(dead.activity.is_none(), "reaper clears activity too");
    let live = by_pid(&reg, 1);
    assert_eq!(live.state, State::Running, "live pid untouched by reap");
    assert_eq!(live.activity.as_deref(), Some("bash: cargo test"));
}

#[test]
fn mark_gone_only_touches_live_agents() {
    let mut reg = Registry::default();
    let mut r = report(5, "status", Some("running"));
    r.activity = Some("bash: ls".into());
    r.ts = Some(10);
    reg.apply(r);
    reg.mark_gone(6);
    assert_eq!(reg.sorted().len(), 1);
    reg.mark_gone(5);
    let a = by_pid(&reg, 5);
    assert_eq!(a.state, State::Gone);
    assert!(a.activity.is_none());
    assert_eq!(a.updated, 10, "the reaper does not restamp the agent");
}

#[test]
fn activity_is_cleared_by_omission() {
    let mut reg = Registry::default();
    let mut r = report(1, "status", Some("running"));
    r.task = Some("do the thing".into());
    r.activity = Some("bash: cargo test".into());
    reg.apply(r);
    assert_eq!(reg.sorted()[0].activity.as_deref(), Some("bash: cargo test"));

    let mut r = report(1, "status", Some("idle"));
    r.task = Some("do the thing".into());
    reg.apply(r);
    assert!(reg.sorted()[0].activity.is_none(), "activity cleared");
    assert_eq!(reg.sorted()[0].task.as_deref(), Some("do the thing"));
}

#[test]
fn gone_clears_activity_and_stamps_the_time() {
    let mut reg = Registry::default();
    let mut r = report(4242, "status", Some("running"));
    r.activity = Some("bash: cargo test".into());
    reg.apply(r);
    reg.apply_at(report(4242, "gone", None), 77);
    let a = &reg.sorted()[0];
    assert_eq!(a.state, State::Gone);
    assert!(a.activity.is_none(), "activity cleared on gone");
    assert_eq!(a.updated, 77);
}

#[test]
fn partial_updates_retain_known_fields() {
    let mut reg = Registry::default();
    let mut r = report(1, "status", Some("idle"));
    r.cwd = Some("/Users/x/dev/foo".into());
    r.session_id = Some("abc".into());
    r.model = Some("lego-lyra/opus-5".into());
    r.context_tokens = Some(48213);
    r.context_percent = Some(24);
    reg.apply_at(r, 5);
    {
        let a = &reg.sorted()[0];
        assert_eq!(a.state, State::Idle);
        assert_eq!(a.label(), "foo", "labels by cwd basename when unnamed");
        assert_eq!(a.updated, 5, "stamped with the arrival time");
    }

    let mut r = report(1, "status", Some("running"));
    r.name = Some("auth refactor".into());
    reg.apply_at(r, 9);
    let a = &reg.sorted()[0];
    assert_eq!(a.state, State::Running);
    assert_eq!(a.label(), "auth refactor", "name wins over cwd");
    assert_eq!(a.model.as_deref(), Some("lego-lyra/opus-5"));
    assert_eq!(a.cwd.as_deref(), Some("/Users/x/dev/foo"));
    assert_eq!(a.session_id.as_deref(), Some("abc"));
    assert_eq!(a.context_tokens, Some(48213));
    assert_eq!(a.context_percent, Some(24));
    assert_eq!(a.updated, 9);
}

#[test]
fn reported_ticket_replaces_and_persists() {
    let mut reg = Registry::default();
    let mut r = report(1, "status", Some("running"));
    r.task = Some("implement".into());
    r.ticket = Some("COIN-2695".into());
    r.cwd = Some("/Users/g/dev/lego/brickbank".into());
    reg.apply(r);
    assert_eq!(reg.sorted()[0].ticket.as_deref(), Some("COIN-2695"));

    let mut r = report(1, "status", Some("running"));
    r.task = Some("implement".into());
    r.ticket = Some("COIN-2841".into());
    reg.apply(r);
    assert_eq!(reg.sorted()[0].ticket.as_deref(), Some("COIN-2841"));

    let mut r = report(1, "status", Some("idle"));
    r.task = Some("implement".into());
    reg.apply(r);
    assert_eq!(reg.sorted()[0].ticket.as_deref(), Some("COIN-2841"));
}

#[test]
fn clone_keeps_every_field() {
    let mut reg = Registry::default();
    let mut r = report(3, "status", Some("running"));
    r.name = Some("n".into());
    r.terminal = Some("T".into());
    r.context_percent = Some(50);
    reg.apply(r);
    let a = reg.sorted()[0].clone();
    assert_eq!(a.name.as_deref(), Some("n"));
    assert_eq!(a.terminal.as_deref(), Some("T"));
    assert_eq!(a.context_percent, Some(50));
    assert_eq!(a.state, State::Running);
}

fn snapshot(reg: &Registry) -> Vec<(u32, String, Option<String>, Option<String>, u64)> {
    reg.sorted()
        .iter()
        .map(|a| (a.pid, a.label(), a.ticket.clone(), a.activity.clone(), a.updated))
        .collect()
}

#[test]
fn heartbeat_reapplying_a_report_changes_nothing() {
    let make = || {
        let mut r = report(1, "status", Some("running"));
        r.task = Some("/buck ticket COIN-5".into());
        r.activity = Some("bash: ls".into());
        r
    };
    let mut once = Registry::default();
    once.apply_at(make(), 100);
    let mut twice = Registry::default();
    twice.apply_at(make(), 100);
    twice.apply_at(make(), 100);
    assert_eq!(snapshot(&once), snapshot(&twice));
}

#[test]
fn listing_does_not_depend_on_arrival_order() {
    let names = [(5u32, "zeta"), (2, "alpha"), (9, "alpha"), (1, "mid")];
    let mut forward = Registry::default();
    let mut backward = Registry::default();
    for (pid, name) in names {
        let mut r = report(pid, "status", Some("idle"));
        r.name = Some(name.into());
        r.ts = Some(1);
        forward.apply(r);
    }
    for (pid, name) in names.iter().rev() {
        let mut r = report(*pid, "status", Some("idle"));
        r.name = Some((*name).into());
        r.ts = Some(1);
        backward.apply(r);
    }
    assert_eq!(snapshot(&forward), snapshot(&backward));
    let pids: Vec<u32> = forward.sorted().iter().map(|a| a.pid).collect();
    assert_eq!(pids, vec![2, 9, 1, 5]);
}
