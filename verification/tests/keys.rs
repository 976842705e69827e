use miami::keys::{
    clamp_selection, focus_reply, new_tab_reply, on_key, plan_focus, Action, FocusPlan, Key,
};
use miami::registry::{Agent, State};

fn agent(pid: u32) -> Agent {
    Agent {
        pid,
        state: State::Idle,
        cwd: None,
        session_file: None,
        session_id: None,
        name: Some("alpha".into()),
        model: None,
        model_id: None,
        thinking_level: None,
        task: None,
        activity: None,
        ticket: None,
        terminal: None,
        context_tokens: None,
        context_percent: None,
        updated: 0,
    }
}

#[test]
fn keys_move_the_selection_within_the_list() {
    assert_eq!(on_key(0, 3, Key::Down), (1, Action::Nothing));
    assert_eq!(on_key(2, 3, Key::Down), (2, Action::Nothing));
    assert_eq!(on_key(0, 0, Key::Down), (0, Action::Nothing));
    assert_eq!(on_key(0, 3, Key::Up), (0, Action::Nothing));
    assert_eq!(on_key(2, 3, Key::Up), (1, Action::Nothing));
    assert_eq!(on_key(2, 3, Key::Home), (0, Action::Nothing));
    assert_eq!(on_key(0, 3, Key::End), (2, Action::Nothing));
    assert_eq!(on_key(0, 0, Key::End), (0, Action::Nothing));
}

#[test]
fn keys_ask_for_actions() {
    assert_eq!(on_key(1, 3, Key::Quit), (1, Action::Quit));
    assert_eq!(on_key(1, 3, Key::HideDead), (1, Action::ForgetDead));
    assert_eq!(on_key(1, 3, Key::Focus), (1, Action::Focus));
    assert_eq!(on_key(1, 3, Key::NewTab), (1, Action::NewTab));
    assert_eq!(on_key(1, 3, Key::Other), (1, Action::Nothing));
}

#[test]
fn selection_is_clamped_when_the_list_shrinks() {
    assert_eq!(clamp_selection(5, 3), 2);
    assert_eq!(clamp_selection(5, 0), 0);
    assert_eq!(clamp_selection(1, 3), 1);
}

#[test]
fn focus_refuses_rather_than_guesses() {
    match plan_focus(None) {
        FocusPlan::Say(m) => assert_eq!(m, "nothing selected"),
        FocusPlan::Focus { .. } => panic!("nothing to focus"),
    }
    let mut a = agent(1);
    match plan_focus(Some(&a)) {
        FocusPlan::Say(m) => assert_eq!(
            m,
            "alpha: no pane reported — update the extension and restart that pi"
        ),
        FocusPlan::Focus { .. } => panic!("no pane reported"),
    }
    a.terminal = Some("2B846B1E".into());
    match plan_focus(Some(&a)) {
        FocusPlan::Focus { id, label } => {
            assert_eq!(id, "2B846B1E");
            assert_eq!(label, "alpha");
        }
        FocusPlan::Say(_) => panic!("pane reported"),
    }
}

#[test]
fn action_replies_name_the_outcome() {
    assert_eq!(focus_reply("alpha", &Ok(())), "focused alpha");
    assert_eq!(
        focus_reply("alpha", &Err("Application isn't running".into())),
        "cannot focus alpha: Application isn't running"
    );
    assert_eq!(new_tab_reply("pi", &Ok("tab-1".into())), "opened a tab running pi");
    assert_eq!(new_tab_reply("pi", &Err("boom".into())), "cannot open tab: boom");
}
