//! What a key press does to the dashboard, and what the footer says after
//! a focus or new-tab attempt. The terminal front end reads the keys and
//! performs the actions.
use vstd::prelude::*;
use crate::registry::{label_of, Agent};
use crate::text::{owned, push_str, string_of};

verus! {

broadcast use vstd::string::group_string_axioms;

/// The keys the dashboard answers to.
#[derive(Debug, Clone, Copy, PartialEq, Eq, Structural)]
pub enum Key {
    /// `q`, `esc` or `ctrl-c`.
    Quit,
    Down,
    Up,
    Home,
    End,
    /// `d`
    HideDead,
    /// `enter`
    Focus,
    /// `n`
    NewTab,
    /// Anything else.
    Other,
}

/// What the front end has to do after a key.
#[derive(Debug, Clone, Copy, PartialEq, Eq, Structural)]
pub enum Action {
    Nothing,
    Quit,
    /// Drop the agents that are gone.
    ForgetDead,
    /// Raise the selected agent's pane.
    Focus,
    /// Open a tab running `pi`.
    NewTab,
}

/// The selection after `key`, on a list of `count` rows.
pub open spec fn next_selection(selected: usize, count: usize, key: Key) -> usize {
    match key {
        Key::Down => if count == 0 {
            selected
        } else if selected + 1 < count {
            (selected + 1) as usize
        } else {
            (count - 1) as usize
        },
        Key::Up => if selected > 0 {
            (selected - 1) as usize
        } else {
            0
        },
        Key::Home => 0,
        Key::End => if count > 0 {
            (count - 1) as usize
        } else {
            0
        },
        _ => selected,
    }
}

/// The action `key` asks for.
pub open spec fn action_of(key: Key) -> Action {
    match key {
        Key::Quit => Action::Quit,
        Key::HideDead => Action::ForgetDead,
        Key::Focus => Action::Focus,
        Key::NewTab => Action::NewTab,
        _ => Action::Nothing,
    }
}

/// Handles one key press with row `selected` of `count` selected.
pub fn on_key(selected: usize, count: usize, key: Key) -> (r: (usize, Action))
    ensures
        r.0 == next_selection(selected, count, key),
        r.1 == action_of(key),
{
    match key {
        Key::Quit => (selected, Action::Quit),
        Key::Down => {
            if count == 0 {
                (selected, Action::Nothing)
            } else if selected < count - 1 {
                (selected + 1, Action::Nothing)
            } else {
                (count - 1, Action::Nothing)
            }
        },
        Key::Up => (
            if selected > 0 {
                selected - 1
            } else {
                0
            },
            Action::Nothing,
        ),
        Key::Home => (0, Action::Nothing),
        Key::End => (
            if count > 0 {
                count - 1
            } else {
                0
            },
            Action::Nothing,
        ),
        Key::HideDead => (selected, Action::ForgetDead),
        Key::Focus => (selected, Action::Focus),
        Key::NewTab => (selected, Action::NewTab),
        Key::Other => (selected, Action::Nothing),
    }
}

/// The selection kept on the list after it changed size: the last row when
/// it fell off the end.
pub fn clamp_selection(selected: usize, count: usize) -> (r: usize)
    ensures
        selected < count ==> r == selected,
        selected >= count ==> r == if count > 0 {
            (count - 1) as usize
        } else {
            0
        },
{
    if selected >= count {
        if count > 0 {
            count - 1
        } else {
            0
        }
    } else {
        selected
    }
}

/// A selection inside the list stays inside it, whatever key is pressed;
/// on an empty list it stays at the top.
pub proof fn lemma_selection_stays_in_range(selected: usize, count: usize, key: Key)
    requires
        selected < count || (count == 0 && selected == 0),
    ensures
        next_selection(selected, count, key) < count || (count == 0 && next_selection(
            selected,
            count,
            key,
        ) == 0),
{
}

/// What raising an agent's pane takes: either a message straight away, or
/// the surface to focus and the label to report on.
pub enum FocusPlan {
    Say(String),
    Focus { id: String, label: String },
}

/// How to raise the pane of `agent`.
///
/// Refuses rather than guesses when the agent reported no surface id:
/// picking a pane by cwd or title would raise the wrong agent whenever two
/// run in the same repo.
pub fn plan_focus(agent: Option<&Agent>) -> (r: FocusPlan)
    ensures
        agent is None ==> (r matches FocusPlan::Say(m) && m@ == "nothing selected"@),
        agent matches Some(a) ==> (a.terminal is None ==> (r matches FocusPlan::Say(m) && m@
            == label_of(a@)
            + ": no pane reported \u{2014} update the extension and restart that pi"@)),
        agent matches Some(a) ==> (a.terminal is Some ==> (r matches FocusPlan::Focus { id, label }
            && id@ == a.terminal->0@ && label@ == label_of(a@))),
{
    match agent {
        None => FocusPlan::Say(owned("nothing selected")),
        Some(a) => match &a.terminal {
            None => {
                let mut v = crate::text::chars_of(a.label().as_str());
                push_str(
                    &mut v,
                    ": no pane reported \u{2014} update the extension and restart that pi",
                );
                FocusPlan::Say(string_of(&v))
            },
            Some(id) => FocusPlan::Focus { id: id.clone(), label: a.label() },
        },
    }
}

/// The footer message after trying to focus the agent labelled `label`.
pub fn focus_reply(label: &str, outcome: &Result<(), String>) -> (r: String)
    ensures
        outcome is Ok ==> r@ == "focused "@ + label@,
        outcome matches Err(e) ==> r@ == "cannot focus "@ + label@ + ": "@ + e@,
{
    let mut v: Vec<char> = Vec::new();
    match outcome {
        Ok(()) => {
            push_str(&mut v, "focused ");
            push_str(&mut v, label);
        },
        // Most often the pane was closed, or this isn't Ghostty.
        Err(e) => {
            push_str(&mut v, "cannot focus ");
            push_str(&mut v, label);
            push_str(&mut v, ": ");
            push_str(&mut v, e.as_str());
        },
    }
    string_of(&v)
}

/// The footer message after trying to open a tab running `command`.
pub fn new_tab_reply(command: &str, outcome: &Result<String, String>) -> (r: String)
    ensures
        outcome is Ok ==> r@ == "opened a tab running "@ + command@,
        outcome matches Err(e) ==> r@ == "cannot open tab: "@ + e@,
{
    let mut v: Vec<char> = Vec::new();
    match outcome {
        Ok(_) => {
            push_str(&mut v, "opened a tab running ");
            push_str(&mut v, command);
        },
        Err(e) => {
            push_str(&mut v, "cannot open tab: ");
            push_str(&mut v, e.as_str());
        },
    }
    string_of(&v)
}

} // verus!
