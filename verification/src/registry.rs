//! Agent state keyed by pid, fed by the reports the `pi` extension sends.
//!
//! A report updates only the fields it carries; everything else an agent
//! already has is kept. `activity` is the exception: a report without it
//! means no tool is running.
use vstd::prelude::*;
use std::collections::HashMap;
use vstd::std_specs::iter::IteratorSpec;
use std::time::{Duration, SystemTime, UNIX_EPOCH};
use crate::text::{
    after_last, after_last_char, chars_of, decimal, lemma_after_last, push_decimal, push_str,
    str_eq, string_of, string_range,
};
use crate::ticket::{spec_find_ticket, spec_find_worktree_ticket};
use crate::model::spec_prettify_model_id;
pub use crate::model::prettify_model_id;
pub use crate::ticket::{find_ticket, find_worktree_ticket};
use crate::order::{lemma_text_order, text_less, text_lt};

verus! {

broadcast use vstd::std_specs::hash::group_hash_axioms;

#[verifier::external_type_specification]
#[verifier::external_body]
pub struct ExSystemTime(SystemTime);

// ---------------------------------------------------------------------------
// Values of the wire and of the registry
// ---------------------------------------------------------------------------

/// Lifecycle state of an agent, as its extension reports it.
#[derive(Debug, Clone, Copy, PartialEq, Eq, Structural)]
pub enum State {
    Starting,
    Idle,
    Running,
    Gone,
}

impl State {
    /// The word shown for this state.
    pub fn label(&self) -> (r: &'static str)
        ensures
            *self == State::Starting ==> r@ == "starting"@,
            *self == State::Idle ==> r@ == "idle"@,
            *self == State::Running ==> r@ == "running"@,
            *self == State::Gone ==> r@ == "gone"@,
    {
        match self {
            State::Starting => "starting",
            State::Idle => "idle",
            State::Running => "running",
            State::Gone => "gone",
        }
    }
}

pub open spec fn opt_view(o: Option<String>) -> Option<Seq<char>> {
    match o {
        Some(s) => Some(s@),
        None => None,
    }
}

/// One NDJSON line from the pi extension.
///
/// `context_percent` is the share of the context window in use, as the
/// whole percent it is shown as.
#[derive(Debug)]
pub struct Report {
    pub pid: u32,
    pub kind: String,
    pub state: Option<String>,
    pub cwd: Option<String>,
    pub session_file: Option<String>,
    pub session_id: Option<String>,
    pub name: Option<String>,
    pub model: Option<String>,
    pub model_id: Option<String>,
    pub thinking_level: Option<String>,
    pub task: Option<String>,
    pub activity: Option<String>,
    pub ticket: Option<String>,
    /// Ghostty surface uuid, discovered by the extension's title handshake.
    pub terminal: Option<String>,
    pub context_tokens: Option<u64>,
    pub context_percent: Option<u64>,
    pub ts: Option<u64>,
}

pub ghost struct ReportView {
    pub pid: u32,
    pub kind: Seq<char>,
    pub state: Option<Seq<char>>,
    pub cwd: Option<Seq<char>>,
    pub session_file: Option<Seq<char>>,
    pub session_id: Option<Seq<char>>,
    pub name: Option<Seq<char>>,
    pub model: Option<Seq<char>>,
    pub model_id: Option<Seq<char>>,
    pub thinking_level: Option<Seq<char>>,
    pub task: Option<Seq<char>>,
    pub activity: Option<Seq<char>>,
    pub ticket: Option<Seq<char>>,
    pub terminal: Option<Seq<char>>,
    pub context_tokens: Option<u64>,
    pub context_percent: Option<u64>,
    pub ts: Option<u64>,
}

impl View for Report {
    type V = ReportView;

    open spec fn view(&self) -> ReportView {
        ReportView {
            pid: self.pid,
            kind: self.kind@,
            state: opt_view(self.state),
            cwd: opt_view(self.cwd),
            session_file: opt_view(self.session_file),
            session_id: opt_view(self.session_id),
            name: opt_view(self.name),
            model: opt_view(self.model),
            model_id: opt_view(self.model_id),
            thinking_level: opt_view(self.thinking_level),
            task: opt_view(self.task),
            activity: opt_view(self.activity),
            ticket: opt_view(self.ticket),
            terminal: opt_view(self.terminal),
            context_tokens: self.context_tokens,
            context_percent: self.context_percent,
            ts: self.ts,
        }
    }
}

/// What the dashboard knows of one `pi` process.
#[derive(Debug)]
pub struct Agent {
    pub pid: u32,
    pub state: State,
    pub cwd: Option<String>,
    pub session_file: Option<String>,
    pub session_id: Option<String>,
    pub name: Option<String>,
    pub model: Option<String>,
    pub model_id: Option<String>,
    pub thinking_level: Option<String>,
    pub task: Option<String>,
    pub activity: Option<String>,
    /// Jira-style ticket key (`COIN-1234`). Sticky: later reports that do not
    /// mention it leave it in place.
    pub ticket: Option<String>,
    /// Ghostty surface (split) this agent's pane is, for `focus`. Sticky like
    /// the other identity fields; `None` means focus is refused, not guessed.
    pub terminal: Option<String>,
    pub context_tokens: Option<u64>,
    /// Whole percent of the context window in use.
    pub context_percent: Option<u64>,
    pub updated: u64,
}

pub ghost struct AgentView {
    pub pid: u32,
    pub state: State,
    pub cwd: Option<Seq<char>>,
    pub session_file: Option<Seq<char>>,
    pub session_id: Option<Seq<char>>,
    pub name: Option<Seq<char>>,
    pub model: Option<Seq<char>>,
    pub model_id: Option<Seq<char>>,
    pub thinking_level: Option<Seq<char>>,
    pub task: Option<Seq<char>>,
    pub activity: Option<Seq<char>>,
    pub ticket: Option<Seq<char>>,
    pub terminal: Option<Seq<char>>,
    pub context_tokens: Option<u64>,
    pub context_percent: Option<u64>,
    pub updated: u64,
}

impl View for Agent {
    type V = AgentView;

    open spec fn view(&self) -> AgentView {
        AgentView {
            pid: self.pid,
            state: self.state,
            cwd: opt_view(self.cwd),
            session_file: opt_view(self.session_file),
            session_id: opt_view(self.session_id),
            name: opt_view(self.name),
            model: opt_view(self.model),
            model_id: opt_view(self.model_id),
            thinking_level: opt_view(self.thinking_level),
            task: opt_view(self.task),
            activity: opt_view(self.activity),
            ticket: opt_view(self.ticket),
            terminal: opt_view(self.terminal),
            context_tokens: self.context_tokens,
            context_percent: self.context_percent,
            updated: self.updated,
        }
    }
}

/// `SystemTime::now`.
///
/// Nothing is claimed of the time it returns.
#[verifier::external_body]
fn system_now() -> SystemTime {
    SystemTime::now()
}

/// `SystemTime::duration_since` the Unix epoch; `None` for a clock set before it.
///
/// Nothing is claimed of the duration.
#[verifier::external_body]
fn since_epoch(t: &SystemTime) -> Option<Duration> {
    t.duration_since(UNIX_EPOCH).ok()
}

/// `Duration::as_millis`.
///
/// Nothing is claimed of the result: the duration is opaque here.
#[verifier::external_body]
fn duration_millis(d: &Duration) -> u128 {
    d.as_millis()
}

/// Milliseconds since the Unix epoch, or 0 when the clock reads earlier.
pub fn now_ms() -> u64 {
    match since_epoch(&system_now()) {
        Some(d) => {
            let ms = duration_millis(&d);
            #[verifier::truncate]
            (ms as u64)
        },
        None => 0,
    }
}

fn clone_opt(o: &Option<String>) -> (r: Option<String>)
    ensures
        r == *o,
{
    match o {
        Some(s) => Some(s.clone()),
        None => None,
    }
}

impl Clone for Agent {
    fn clone(&self) -> (r: Self)
        ensures
            r@ == self@,
    {
        Agent {
            pid: self.pid,
            state: self.state,
            cwd: clone_opt(&self.cwd),
            session_file: clone_opt(&self.session_file),
            session_id: clone_opt(&self.session_id),
            name: clone_opt(&self.name),
            model: clone_opt(&self.model),
            model_id: clone_opt(&self.model_id),
            thinking_level: clone_opt(&self.thinking_level),
            task: clone_opt(&self.task),
            activity: clone_opt(&self.activity),
            ticket: clone_opt(&self.ticket),
            terminal: clone_opt(&self.terminal),
            context_tokens: self.context_tokens,
            context_percent: self.context_percent,
            updated: self.updated,
        }
    }
}

// ---------------------------------------------------------------------------
// Labels
// ---------------------------------------------------------------------------

/// `s` holds at least one character.
pub open spec fn filled(o: Option<Seq<char>>) -> bool {
    o matches Some(s) && s.len() > 0
}

/// The last `/`-separated segment of a path.
pub open spec fn basename(p: Seq<char>) -> Seq<char> {
    p.skip(after_last(p, '/'))
}

/// Row label: session name, else basename of cwd, else `pid <pid>`.
pub open spec fn label_of(a: AgentView) -> Seq<char> {
    if filled(a.name) {
        a.name->0
    } else if a.cwd is Some && basename(a.cwd->0).len() > 0 {
        basename(a.cwd->0)
    } else {
        "pid "@ + decimal(a.pid as nat)
    }
}

/// Readable model name: the display name pi reports, else the tidied raw
/// id, else `-`.
pub open spec fn model_label_of(a: AgentView) -> Seq<char> {
    if filled(a.model) {
        a.model->0
    } else {
        match a.model_id {
            Some(id) => spec_prettify_model_id(id),
            None => "-"@,
        }
    }
}

fn is_filled(o: &Option<String>) -> (b: bool)
    ensures
        b == filled(opt_view(*o)),
{
    match o {
        Some(s) => !s.as_str().is_empty(),
        None => false,
    }
}

impl Agent {
    /// Row label: session name, else basename of cwd, else pid.
    pub fn label(&self) -> (r: String)
        ensures
            r@ == label_of(self@),
    {
        if is_filled(&self.name) {
            return self.name.as_ref().unwrap().clone();
        }
        if let Some(cwd) = &self.cwd {
            let c = chars_of(cwd.as_str());
            let b = after_last_char(&c, '/');
            proof {
                lemma_after_last(c@, '/');
            }
            if b < c.len() {
                return string_range(&c, b, c.len());
            }
        }
        let mut v: Vec<char> = Vec::new();
        push_str(&mut v, "pid ");
        push_decimal(&mut v, self.pid as u64);
        proof {
            assert(Seq::<char>::empty() + "pid "@ == "pid "@);
        }
        string_of(&v)
    }

    /// Readable model name. Uses the display name pi reports; falls back to
    /// tidying the raw id for reports predating `model`.
    pub fn model_label(&self) -> (r: String)
        ensures
            r@ == model_label_of(self@),
    {
        if is_filled(&self.model) {
            return self.model.as_ref().unwrap().clone();
        }
        match &self.model_id {
            Some(id) => prettify_model_id(id.as_str()),
            None => {
                let mut v: Vec<char> = Vec::new();
                push_str(&mut v, "-");
                proof {
                    assert(Seq::<char>::empty() + "-"@ == "-"@);
                }
                string_of(&v)
            },
        }
    }
}


// ---------------------------------------------------------------------------
// Applying reports
// ---------------------------------------------------------------------------

/// The state a report's `state` field names; anything unrecognised, or no
/// field at all, is `Starting`.
pub open spec fn parse_state(s: Option<Seq<char>>) -> State {
    match s {
        Some(t) => if t == "running"@ {
            State::Running
        } else if t == "idle"@ {
            State::Idle
        } else {
            State::Starting
        },
        None => State::Starting,
    }
}

/// `new` when the report carries a value, else what was there.
pub open spec fn keep<T>(old: Option<T>, new: Option<T>) -> Option<T> {
    if new is Some {
        new
    } else {
        old
    }
}

/// A ticket sniffed out of text: from the name, else the task, else a buck
/// worktree cwd, else any key in the cwd.
pub open spec fn sniffed_ticket(
    name: Option<Seq<char>>,
    task: Option<Seq<char>>,
    cwd: Option<Seq<char>>,
) -> Option<Seq<char>> {
    let from_name = match name {
        Some(n) => spec_find_ticket(n),
        None => None,
    };
    let from_task = match task {
        Some(t) => spec_find_ticket(t),
        None => None,
    };
    let from_worktree = match cwd {
        Some(c) => spec_find_worktree_ticket(c),
        None => None,
    };
    let from_cwd = match cwd {
        Some(c) => spec_find_ticket(c),
        None => None,
    };
    if from_name is Some {
        from_name
    } else if from_task is Some {
        from_task
    } else if from_worktree is Some {
        from_worktree
    } else {
        from_cwd
    }
}

/// The ticket a report settles on for an agent whose (already updated)
/// name, task and cwd are given: the reported one when it is non-empty,
/// otherwise one sniffed from text.
pub open spec fn report_ticket(
    reported: Option<Seq<char>>,
    name: Option<Seq<char>>,
    task: Option<Seq<char>>,
    cwd: Option<Seq<char>>,
) -> Option<Seq<char>> {
    if filled(reported) {
        reported
    } else {
        sniffed_ticket(name, task, cwd)
    }
}

/// An agent seen for the first time, before its first report is merged in.
pub open spec fn fresh_agent(pid: u32, now: u64) -> AgentView {
    AgentView {
        pid: pid,
        state: State::Starting,
        cwd: None,
        session_file: None,
        session_id: None,
        name: None,
        model: None,
        model_id: None,
        thinking_level: None,
        task: None,
        activity: None,
        ticket: None,
        terminal: None,
        context_tokens: None,
        context_percent: None,
        updated: now,
    }
}

/// `a` after a status report `r` arrived at wall-clock time `now`.
pub open spec fn merged(a: AgentView, r: ReportView, now: u64) -> AgentView {
    let cwd = keep(a.cwd, r.cwd);
    let name = keep(a.name, r.name);
    let task = keep(a.task, r.task);
    AgentView {
        pid: a.pid,
        state: parse_state(r.state),
        cwd: cwd,
        session_file: keep(a.session_file, r.session_file),
        session_id: keep(a.session_id, r.session_id),
        name: name,
        model: keep(a.model, r.model),
        model_id: keep(a.model_id, r.model_id),
        thinking_level: keep(a.thinking_level, r.thinking_level),
        task: task,
        activity: r.activity,
        ticket: keep(a.ticket, report_ticket(r.ticket, name, task, cwd)),
        terminal: keep(a.terminal, r.terminal),
        context_tokens: keep(a.context_tokens, r.context_tokens),
        context_percent: keep(a.context_percent, r.context_percent),
        updated: match r.ts {
            Some(t) => t,
            None => now,
        },
    }
}

/// `a` once its process is known to be gone: no tool can still be running.
pub open spec fn gone_agent(a: AgentView) -> AgentView {
    AgentView { state: State::Gone, activity: None, ..a }
}

/// The registry after report `r` arrived at wall-clock time `now`.
///
/// A `gone` report marks a known agent gone and never registers a new one;
/// any other report registers the agent if needed and merges into it.
pub open spec fn applied(m: Map<u32, AgentView>, r: ReportView, now: u64) -> Map<u32, AgentView> {
    if r.kind == "gone"@ {
        if m.contains_key(r.pid) {
            m.insert(r.pid, AgentView { updated: now, ..gone_agent(m[r.pid]) })
        } else {
            m
        }
    } else {
        let base = if m.contains_key(r.pid) {
            m[r.pid]
        } else {
            fresh_agent(r.pid, now)
        };
        m.insert(r.pid, merged(base, r, now))
    }
}

fn state_of(s: &Option<String>) -> (st: State)
    ensures
        st == parse_state(opt_view(*s)),
{
    match s {
        Some(t) => {
            if str_eq(t.as_str(), "running") {
                State::Running
            } else if str_eq(t.as_str(), "idle") {
                State::Idle
            } else {
                State::Starting
            }
        },
        None => State::Starting,
    }
}

fn find_ticket_in(o: &Option<String>) -> (r: Option<String>)
    ensures
        opt_view(r) == match opt_view(*o) {
            Some(s) => spec_find_ticket(s),
            None => None,
        },
{
    match o {
        Some(s) => find_ticket(s.as_str()),
        None => None,
    }
}

/// Ticket sniffed from name, then task, then a buck worktree cwd, then cwd.
fn sniff_ticket(name: &Option<String>, task: &Option<String>, cwd: &Option<String>) -> (r: Option<
    String,
>)
    ensures
        opt_view(r) == sniffed_ticket(opt_view(*name), opt_view(*task), opt_view(*cwd)),
{
    let t = find_ticket_in(name);
    if t.is_some() {
        return t;
    }
    let t = find_ticket_in(task);
    if t.is_some() {
        return t;
    }
    let t = match cwd {
        Some(c) => find_worktree_ticket(c.as_str()),
        None => None,
    };
    if t.is_some() {
        return t;
    }
    find_ticket_in(cwd)
}

/// Overwrites `dst` only when the report carries a value.
fn keep_string(dst: &mut Option<String>, src: Option<String>)
    ensures
        opt_view(*final(dst)) == keep(opt_view(*old(dst)), opt_view(src)),
{
    if src.is_some() {
        *dst = src;
    }
}

fn keep_number(dst: &mut Option<u64>, src: Option<u64>)
    ensures
        *final(dst) == keep(*old(dst), src),
{
    if src.is_some() {
        *dst = src;
    }
}

fn new_agent(pid: u32, now: u64) -> (a: Agent)
    ensures
        a@ == fresh_agent(pid, now),
{
    Agent {
        pid,
        state: State::Starting,
        cwd: None,
        session_file: None,
        session_id: None,
        name: None,
        model: None,
        model_id: None,
        thinking_level: None,
        task: None,
        activity: None,
        ticket: None,
        terminal: None,
        context_tokens: None,
        context_percent: None,
        updated: now,
    }
}

/// Merges a status report into `e`.
fn merge(e: &mut Agent, r: Report, now: u64)
    ensures
        final(e)@ == merged(old(e)@, r@, now),
{
    e.state = state_of(&r.state);
    e.updated = match r.ts {
        Some(t) => t,
        None => now,
    };
    // Only overwrite when the report carries a value.
    keep_string(&mut e.cwd, r.cwd);
    keep_string(&mut e.session_file, r.session_file);
    keep_string(&mut e.session_id, r.session_id);
    keep_string(&mut e.name, r.name);
    keep_string(&mut e.model, r.model);
    keep_string(&mut e.model_id, r.model_id);
    keep_string(&mut e.thinking_level, r.thinking_level);
    keep_string(&mut e.terminal, r.terminal);
    keep_string(&mut e.task, r.task);
    // Activity is cleared by omission: absent means "no tool running", so
    // unlike the other fields it must not be sticky.
    e.activity = r.activity;
    keep_number(&mut e.context_tokens, r.context_tokens);
    keep_number(&mut e.context_percent, r.context_percent);
    // The extension's structured ticket is authoritative; text is only
    // sniffed when it is absent or empty.
    let t = if is_filled(&r.ticket) {
        r.ticket
    } else {
        sniff_ticket(&e.name, &e.task, &e.cwd)
    };
    keep_string(&mut e.ticket, t);
}



/// What one pass of the reaper may do to agent `a`, which the liveness check
/// `alive` answers for: an agent already gone is left alone; any other is
/// either kept as it was, when the check can say its process is alive, or
/// marked gone, when the check can say it is not.
pub open spec fn reaped<F: Fn(u32) -> bool>(a: AgentView, b: AgentView, alive: F) -> bool {
    if a.state == State::Gone {
        b == a
    } else {
        ||| b == a && alive.ensures((a.pid,), true)
        ||| b == gone_agent(a) && alive.ensures((a.pid,), false)
    }
}

/// The agents of `m` that are not gone.
pub open spec fn live_agents(m: Map<u32, AgentView>) -> Map<u32, AgentView> {
    m.restrict(m.dom().filter(|p: u32| m[p].state != State::Gone))
}

/// `a` is listed before `b`: by label, then by pid.
pub open spec fn listed_before(a: AgentView, b: AgentView) -> bool {
    text_lt(label_of(a), label_of(b)) || (label_of(a) == label_of(b) && a.pid < b.pid)
}

/// `v` lists exactly the agents of `m`, each once, ordered by label and then
/// pid.
pub open spec fn is_listing(v: Seq<AgentView>, m: Map<u32, AgentView>) -> bool {
    &&& v.len() == m.dom().len()
    &&& forall|i: int| 0 <= i < v.len() ==> #[trigger] m.contains_key(v[i].pid) && m[v[i].pid] == v[i]
    &&& forall|p: u32| m.contains_key(p) ==> exists|i: int| 0 <= i < v.len() && #[trigger] v[i].pid == p
    &&& forall|i: int, j: int| 0 <= i < j < v.len() ==> listed_before(#[trigger] v[i], #[trigger] v[j])
}


/// Whether the row (`la`, `pa`) sorts before the row (`lb`, `pb`).
fn row_less(la: &Vec<char>, pa: u32, lb: &Vec<char>, pb: u32) -> (r: bool)
    ensures
        r == (text_lt(la@, lb@) || (la@ == lb@ && pa < pb)),
{
    if text_less(la, lb) {
        return true;
    }
    if text_less(lb, la) {
        return false;
    }
    proof {
        lemma_text_order();
    }
    pa < pb
}


/// The rows of `v` are in listing order.
pub open spec fn rows_sorted(v: Seq<Agent>) -> bool {
    forall|a: int, b: int| 0 <= a < b < v.len() ==> listed_before(#[trigger] v[a]@, #[trigger] v[b]@)
}

/// `l` holds the label of each row of `v`.
pub open spec fn labels_match(l: Seq<Vec<char>>, v: Seq<Agent>) -> bool {
    &&& l.len() == v.len()
    &&& forall|k: int| 0 <= k < v.len() ==> #[trigger] l[k]@ == label_of(v[k]@)
}

/// The pids of the rows of `v`.
pub open spec fn pids_in(v: Seq<Agent>) -> Seq<u32> {
    v.map_values(|a: Agent| a.pid)
}

/// `s` holds the first `i` entries of `p`, in some order.
pub open spec fn covers(s: Seq<u32>, p: Seq<u32>, i: int) -> bool {
    &&& s.len() == i
    &&& forall|q: int| #![trigger s[q]] 0 <= q < s.len() ==> exists|k: int| 0 <= k < i && #[trigger] p[k] == s[q]
    &&& forall|k: int| #![trigger p[k]] 0 <= k < i ==> exists|q: int| 0 <= q < s.len() && #[trigger] s[q] == p[k]
}

proof fn lemma_cover_insert(s: Seq<u32>, pos: int, p: Seq<u32>, i: int)
    requires
        covers(s, p, i),
        0 <= pos <= s.len(),
        0 <= i < p.len(),
    ensures
        covers(s.insert(pos, p[i]), p, i + 1),
{
    let t = s.insert(pos, p[i]);
    assert forall|q: int| #![trigger t[q]] 0 <= q < t.len() implies exists|k: int| 0 <= k < i + 1 && #[trigger] p[k] == t[q] by {
        if q == pos {
            assert(p[i] == t[q]);
        } else if q < pos {
            assert(t[q] == s[q]);
            let k = choose|k: int| 0 <= k < i && #[trigger] p[k] == s[q];
            assert(p[k] == t[q]);
        } else {
            assert(t[q] == s[q - 1]);
            let k = choose|k: int| 0 <= k < i && #[trigger] p[k] == s[q - 1];
            assert(p[k] == t[q]);
        }
    }
    assert forall|k: int| #![trigger p[k]] 0 <= k < i + 1 implies exists|q: int| 0 <= q < t.len() && #[trigger] t[q] == p[k] by {
        if k == i {
            assert(t[pos] == p[k]);
        } else {
            let q = choose|q: int| 0 <= q < s.len() && #[trigger] s[q] == p[k];
            if q < pos {
                assert(t[q] == p[k]);
            } else {
                assert(t[q + 1] == p[k]);
            }
        }
    }
}

/// Inserts row `a`, labelled `la`, where it belongs in listing order, and
/// returns where that is.
fn insert_row(out: &mut Vec<Agent>, labels: &mut Vec<Vec<char>>, a: Agent, la: Vec<char>) -> (pos: usize)
    requires
        rows_sorted(old(out)@),
        labels_match(old(labels)@, old(out)@),
        la@ == label_of(a@),
        forall|q: int| 0 <= q < old(out)@.len() ==> #[trigger] old(out)@[q].pid != a.pid,
    ensures
        pos <= old(out)@.len(),
        final(out)@ == old(out)@.insert(pos as int, a),
        rows_sorted(final(out)@),
        labels_match(final(labels)@, final(out)@),
{
    proof {
        lemma_text_order();
    }
    let ghost av = a@;
    let mut pos: usize = 0;
    while pos < out.len() && !row_less(&la, a.pid, &labels[pos], out[pos].pid)
        invariant
            pos <= out@.len(),
            labels_match(labels@, out@),
            forall|k: int| 0 <= k < pos ==> !listed_before(av, #[trigger] out@[k]@),
            la@ == label_of(av),
            av == a@,
        decreases out@.len() - pos,
    {
        pos = pos + 1;
    }
    let ghost old_out = out@;
    proof {
        // no row shares the new pid, so each row passed sorts before it
        assert forall|k: int| 0 <= k < pos implies listed_before(#[trigger] old_out[k]@, av) by {
            assert(old_out[k].pid != av.pid);
        }
    }
    out.insert(pos, a);
    labels.insert(pos, la);
    proof {
        assert forall|x: int, y: int| 0 <= x < y < out@.len() implies listed_before(
            #[trigger] out@[x]@,
            #[trigger] out@[y]@,
        ) by {
            if y < pos {
                assert(out@[x] == old_out[x] && out@[y] == old_out[y]);
            } else if y == pos {
                assert(out@[x] == old_out[x]);
            } else if x == pos {
                assert(out@[y] == old_out[y - 1]);
                if y - 1 > pos {
                    assert(listed_before(old_out[pos as int]@, old_out[y - 1]@));
                }
            } else if x < pos {
                assert(out@[x] == old_out[x] && out@[y] == old_out[y - 1]);
            } else {
                assert(out@[x] == old_out[x - 1] && out@[y] == old_out[y - 1]);
            }
        }
        assert forall|k: int| 0 <= k < out@.len() implies #[trigger] labels@[k]@ == label_of(out@[k]@) by {
            if k < pos {
                assert(out@[k] == old_out[k]);
            } else if k > pos {
                assert(out@[k] == old_out[k - 1]);
            }
        }
    }
    pos
}

// ---------------------------------------------------------------------------
// The registry
// ---------------------------------------------------------------------------

/// All agents that have reported, keyed by pid.
pub struct Registry {
    agents: HashMap<u32, Agent>,
}

impl View for Registry {
    type V = Map<u32, AgentView>;

    closed spec fn view(&self) -> Map<u32, AgentView> {
        self.agents@.map_values(|a: Agent| a@)
    }
}

impl Default for Registry {
    fn default() -> (r: Self)
        ensures
            r.wf(),
            r@ == Map::<u32, AgentView>::empty(),
    {
        Registry::new()
    }
}

impl Registry {
    /// Every agent is filed under its own pid.
    pub closed spec fn wf(&self) -> bool {
        forall|p: u32| #[trigger] self.agents@.contains_key(p) ==> self.agents@[p].pid == p
    }

    /// Well-formedness, stated over the view.
    pub proof fn lemma_wf(&self)
        requires
            self.wf(),
        ensures
            forall|p: u32| #[trigger] self@.contains_key(p) ==> self@[p].pid == p,
            self@.dom().finite(),
    {
        vstd::std_specs::hash::axiom_hashmap_view_finite_dom(self.agents);
        assert(self@.dom() == self.agents@.dom());
    }

    /// An empty registry.
    pub fn new() -> (r: Self)
        ensures
            r.wf(),
            r@ == Map::<u32, AgentView>::empty(),
    {
        let r = Registry { agents: HashMap::new() };
        assert(r@ == Map::<u32, AgentView>::empty());
        r
    }


    /// The pids of all agents, each once.
    fn pids(&self) -> (v: Vec<u32>)
        ensures
            v@.to_set() == self@.dom(),
            v@.no_duplicates(),
    {
        let mut v: Vec<u32> = Vec::new();
        for p in it: self.agents.keys()
            invariant
                v@ == it.seq().take(it.index() as int).unref(),
                it.seq() == vstd::std_specs::hash::spec_keys_iter(&self.agents).remaining(),
        {
            v.push(*p);
            proof {
                assert(it.seq().take(it.index() + 1).unref() == it.seq().take(
                    it.index() as int,
                ).unref().push(*p));
            }
        }
        proof {
            let ks = vstd::std_specs::hash::spec_keys_iter(&self.agents).remaining();
            assert(ks.take(ks.len() as int) == ks);
            assert(v@ == ks.unref());
            assert(self@.dom() == self.agents@.dom());
            assert(v@.no_duplicates()) by {
                assert forall|i: int, j: int|
                    0 <= i < v@.len() && 0 <= j < v@.len() && i != j implies v@[i] != v@[j] by {
                    assert(ks[i] != ks[j]);
                }
            }
        }
        v
    }


    /// Marks agents whose process no longer exists, as `alive` tells for a
    /// pid. Covers `pi` being killed or its pane closed, where no `gone`
    /// report ever arrives. Agents already gone are not asked about.
    pub fn reap<F: Fn(u32) -> bool>(&mut self, alive: F)
        requires
            old(self).wf(),
            forall|p: u32| alive.requires((p,)),
        ensures
            final(self).wf(),
            final(self)@.dom() == old(self)@.dom(),
            forall|p: u32| #[trigger]
                old(self)@.contains_key(p) ==> reaped(old(self)@[p], final(self)@[p], alive),
    {
        let ghost m0 = self@;
        let pids = self.pids();
        let mut i: usize = 0;
        while i < pids.len()
            invariant
                self.wf(),
                self@.dom() == m0.dom(),
                pids@.to_set() == m0.dom(),
                pids@.no_duplicates(),
                i <= pids@.len(),
                forall|p: u32| alive.requires((p,)),
                forall|p: u32| #[trigger] m0.contains_key(p) ==> m0[p].pid == p,
                forall|k: int| 0 <= k < i ==> reaped(m0[#[trigger] pids@[k]], self@[pids@[k]], alive),
                forall|k: int| i <= k < pids@.len() ==> self@[#[trigger] pids@[k]] == m0[pids@[k]],
            decreases pids@.len() - i,
        {
            let pid = pids[i];
            assert(pids@.to_set().contains(pid));
            let ghost before = self@;
            match self.agents.remove(&pid) {
                Some(mut a) => {
                    if a.state != State::Gone && !alive(pid) {
                        a.state = State::Gone;
                        a.activity = None;
                    }
                    self.agents.insert(pid, a);
                },
                None => {},
            }
            proof {
                assert forall|k: int| 0 <= k < pids@.len() && k != i implies self@[
                    #[trigger] pids@[k]] == before[pids@[k]] by {
                    assert(pids@[k] != pid);
                }
            }
            i = i + 1;
        }
        proof {
            assert forall|p: u32| #[trigger] m0.contains_key(p) implies reaped(
                m0[p],
                self@[p],
                alive,
            ) by {
                assert(pids@.to_set().contains(p));
                let k = choose|k: int| 0 <= k < pids@.len() && pids@[k] == p;
                assert(reaped(m0[pids@[k]], self@[pids@[k]], alive));
            }
        }
    }

    /// Marks the agent `pid` gone, as when its liveness check has failed.
    /// Does nothing to an unknown pid or to an agent already gone.
    pub fn mark_gone(&mut self, pid: u32)
        requires
            old(self).wf(),
        ensures
            final(self).wf(),
            old(self)@.contains_key(pid) && old(self)@[pid].state != State::Gone
                ==> final(self)@ == old(self)@.insert(pid, gone_agent(old(self)@[pid])),
            !(old(self)@.contains_key(pid) && old(self)@[pid].state != State::Gone)
                ==> final(self)@ == old(self)@,
    {
        let ghost m = self@;
        match self.agents.remove(&pid) {
            Some(mut a) => {
                if a.state != State::Gone {
                    a.state = State::Gone;
                    a.activity = None;
                }
                self.agents.insert(pid, a);
                assert(m.contains_key(pid) && m[pid].state != State::Gone ==> self@ == m.insert(
                    pid,
                    gone_agent(m[pid]),
                ));
                assert(!(m.contains_key(pid) && m[pid].state != State::Gone) ==> self@ == m);
            },
            None => {
                assert(self@ == m);
            },
        }
    }

    /// Drops every agent that is gone.
    pub fn forget_dead(&mut self)
        requires
            old(self).wf(),
        ensures
            final(self).wf(),
            final(self)@ == live_agents(old(self)@),
    {
        let ghost m0 = self@;
        let pids = self.pids();
        let mut i: usize = 0;
        while i < pids.len()
            invariant
                self.wf(),
                pids@.to_set() == m0.dom(),
                pids@.no_duplicates(),
                i <= pids@.len(),
                forall|p: u32| #[trigger] self@.contains_key(p) ==> m0.contains_key(p) && self@[p] == m0[p],
                forall|k: int| 0 <= k < i ==> (#[trigger] self@.contains_key(pids@[k]) <==> m0[pids@[k]].state != State::Gone),
                forall|k: int| i <= k < pids@.len() ==> #[trigger] self@.contains_key(pids@[k]),
            decreases pids@.len() - i,
        {
            let pid = pids[i];
            assert(pids@.to_set().contains(pid));
            let ghost before = self@;
            assert(before.contains_key(pids@[i as int]));
            assert(before[pid] == m0[pid]);
            match self.agents.remove(&pid) {
                Some(a) => {
                    assert(a@ == before[pid]);
                    if a.state != State::Gone {
                        self.agents.insert(pid, a);
                        assert(self@ == before);
                    } else {
                        assert(self@ == before.remove(pid));
                    }
                },
                None => {
                    assert(self@ == before);
                },
            }
            proof {
                assert forall|k: int| 0 <= k < pids@.len() && k != i implies (#[trigger] self@.contains_key(pids@[k]) <==> before.contains_key(pids@[k])) by {
                    assert(pids@[k] != pid);
                }
            }
            i = i + 1;
        }
        proof {
            let live = live_agents(m0);
            assert forall|p: u32| #[trigger] self@.contains_key(p) <==> live.contains_key(p) by {
                if m0.contains_key(p) {
                    assert(pids@.to_set().contains(p));
                    let k = choose|k: int| 0 <= k < pids@.len() && pids@[k] == p;
                    assert(self@.contains_key(pids@[k]) <==> m0[pids@[k]].state != State::Gone);
                }
            }
            assert(self@ == live);
        }
    }

    /// All agents, ordered by label and then pid, so rows don't jump around
    /// under the cursor.
    pub fn sorted(&self) -> (v: Vec<Agent>)
        requires
            self.wf(),
        ensures
            is_listing(v@.map_values(|a: Agent| a@), self@),
    {
        let ghost m = self@;
        let pids = self.pids();
        let mut out: Vec<Agent> = Vec::new();
        let mut labels: Vec<Vec<char>> = Vec::new();
        let mut i: usize = 0;
        while i < pids.len()
            invariant
                m == self@,
                self.wf(),
                pids@.to_set() == m.dom(),
                pids@.no_duplicates(),
                i <= pids@.len(),
                out@.len() == i,
                labels_match(labels@, out@),
                rows_sorted(out@),
                forall|k: int| 0 <= k < i ==> #[trigger] m.contains_key(out@[k].pid) && m[out@[k].pid] == out@[k]@,
                covers(pids_in(out@), pids@, i as int),
            decreases pids@.len() - i,
        {
            let pid = pids[i];
            assert(pids@.to_set().contains(pid));
            let a = self.agents.get(&pid).unwrap().clone();
            let la = chars_of(a.label().as_str());
            let ghost old_out = out@;
            proof {
                assert forall|q: int| 0 <= q < old_out.len() implies #[trigger] old_out[q].pid != pid by {
                    assert(pids_in(old_out)[q] == old_out[q].pid);
                    let k = choose|k: int| 0 <= k < i && pids@[k] == pids_in(old_out)[q];
                    assert(pids@[k] != pids@[i as int]);
                }
            }
            let pos = insert_row(&mut out, &mut labels, a, la);
            proof {
                assert(pids_in(out@) == pids_in(old_out).insert(pos as int, pid));
                lemma_cover_insert(pids_in(old_out), pos as int, pids@, i as int);
                assert forall|k: int| 0 <= k < i + 1 implies #[trigger] m.contains_key(out@[k].pid)
                    && m[out@[k].pid] == out@[k]@ by {
                    if k < pos {
                        assert(out@[k] == old_out[k]);
                    } else if k > pos {
                        assert(out@[k] == old_out[k - 1]);
                    }
                }
            }
            i = i + 1;
        }
        proof {
            let vm = out@.map_values(|a: Agent| a@);
            pids@.unique_seq_to_set();
            assert forall|p: u32| m.contains_key(p) implies exists|q: int|
                0 <= q < vm.len() && #[trigger] vm[q].pid == p by {
                assert(pids@.to_set().contains(p));
                let k = choose|k: int| 0 <= k < pids@.len() && pids@[k] == p;
                let q = choose|q: int| 0 <= q < pids_in(out@).len() && pids_in(out@)[q] == pids@[k];
                assert(vm[q].pid == p);
            }
            assert forall|x: int, y: int| 0 <= x < y < vm.len() implies listed_before(
                #[trigger] vm[x],
                #[trigger] vm[y],
            ) by {
                assert(listed_before(out@[x]@, out@[y]@));
            }
            assert forall|x: int| 0 <= x < vm.len() implies #[trigger] m.contains_key(vm[x].pid)
                && m[vm[x].pid] == vm[x] by {
                assert(m.contains_key(out@[x].pid));
            }
        }
        out
    }

    /// Applies report `r`, received at wall-clock time `now`.
    pub fn apply_at(&mut self, r: Report, now: u64)
        requires
            old(self).wf(),
        ensures
            final(self).wf(),
            final(self)@ == applied(old(self)@, r@, now),
    {
        let ghost m = self@;
        let ghost rv = r@;
        let pid = r.pid;
        if str_eq(r.kind.as_str(), "gone") {
            match self.agents.remove(&pid) {
                Some(mut a) => {
                    a.state = State::Gone;
                    // A dead agent isn't running a tool; leaving the last
                    // activity on screen reads as though it still were.
                    a.activity = None;
                    a.updated = now;
                    self.agents.insert(pid, a);
                    assert(self@ == applied(m, rv, now));
                },
                None => {
                    assert(self@ == m);
                },
            }
            return;
        }
        let mut e = match self.agents.remove(&pid) {
            Some(a) => a,
            None => new_agent(pid, now),
        };
        merge(&mut e, r, now);
        self.agents.insert(pid, e);
        assert(self@ == applied(m, rv, now));
    }

    /// Applies report `r`, stamped with the current wall-clock time when it
    /// carries no `ts` of its own.
    pub fn apply(&mut self, r: Report)
        requires
            old(self).wf(),
        ensures
            final(self).wf(),
            exists|now: u64| final(self)@ == applied(old(self)@, r@, now),
    {
        let now = now_ms();
        self.apply_at(r, now);
    }
}


// ---------------------------------------------------------------------------
// Laws of the registry
// ---------------------------------------------------------------------------

/// A status report for a known agent keeps every field it omits: cwd,
/// session, name, model, thinking level, task, surface, context and ticket.
/// The surface id in particular arrives once and survives every heartbeat.
pub proof fn lemma_omitted_fields_are_kept(m: Map<u32, AgentView>, r: ReportView, now: u64)
    requires
        r.kind != "gone"@,
        m.contains_key(r.pid),
    ensures
        ({
            let a = m[r.pid];
            let b = applied(m, r, now)[r.pid];
            &&& r.cwd is None ==> b.cwd == a.cwd
            &&& r.session_file is None ==> b.session_file == a.session_file
            &&& r.session_id is None ==> b.session_id == a.session_id
            &&& r.name is None ==> b.name == a.name
            &&& r.model is None ==> b.model == a.model
            &&& r.model_id is None ==> b.model_id == a.model_id
            &&& r.thinking_level is None ==> b.thinking_level == a.thinking_level
            &&& r.task is None ==> b.task == a.task
            &&& r.terminal is None ==> b.terminal == a.terminal
            &&& r.context_tokens is None ==> b.context_tokens == a.context_tokens
            &&& r.context_percent is None ==> b.context_percent == a.context_percent
        }),
{
}

/// A status report overwrites every field it carries: cwd, session, name,
/// model, thinking level, task, surface and context each take the reported
/// value, and the report's `ts`, when given, becomes the update time; this
/// holds for a known agent and a new one alike.
pub proof fn lemma_carried_fields_are_taken(m: Map<u32, AgentView>, r: ReportView, now: u64)
    requires
        r.kind != "gone"@,
    ensures
        applied(m, r, now).contains_key(r.pid),
        ({
            let b = applied(m, r, now)[r.pid];
            &&& r.cwd is Some ==> b.cwd == r.cwd
            &&& r.session_file is Some ==> b.session_file == r.session_file
            &&& r.session_id is Some ==> b.session_id == r.session_id
            &&& r.name is Some ==> b.name == r.name
            &&& r.model is Some ==> b.model == r.model
            &&& r.model_id is Some ==> b.model_id == r.model_id
            &&& r.thinking_level is Some ==> b.thinking_level == r.thinking_level
            &&& r.task is Some ==> b.task == r.task
            &&& r.terminal is Some ==> b.terminal == r.terminal
            &&& r.context_tokens is Some ==> b.context_tokens == r.context_tokens
            &&& r.context_percent is Some ==> b.context_percent == r.context_percent
            &&& r.ts matches Some(t) ==> b.updated == t
            &&& r.ts is None ==> b.updated == now
        }),
{
}

/// Activity is not sticky: after a status report the agent's activity is
/// exactly what the report carried, so a report without one means no tool
/// is running.
pub proof fn lemma_activity_follows_report(m: Map<u32, AgentView>, r: ReportView, now: u64)
    requires
        r.kind != "gone"@,
    ensures
        applied(m, r, now)[r.pid].activity == r.activity,
        applied(m, r, now)[r.pid].state == parse_state(r.state),
{
}

/// Forgetting the dead removes exactly the agents that are gone: an agent
/// stays if and only if it is not gone (a starting, idle or running one is
/// always kept), and every agent that stays is unchanged.
pub proof fn lemma_forget_keeps_the_living(m: Map<u32, AgentView>)
    ensures
        forall|p: u32| #[trigger] live_agents(m).contains_key(p) <==> (m.contains_key(p)
            && m[p].state != State::Gone),
        forall|p: u32| #[trigger] live_agents(m).contains_key(p) ==> live_agents(m)[p] == m[p],
{
}

/// The reaper marks every dead agent gone, whatever state it was in: an
/// agent that is not gone, and whose liveness check can only answer that its
/// process is dead, comes out gone with no activity and otherwise unchanged;
/// one whose check can only answer alive comes out unchanged.
pub proof fn lemma_reap_marks_the_dead<F: Fn(u32) -> bool>(
    before: Map<u32, AgentView>,
    after: Map<u32, AgentView>,
    alive: F,
)
    requires
        forall|p: u32| #[trigger] before.contains_key(p) ==> before[p].pid == p,
        forall|p: u32| #[trigger] before.contains_key(p) ==> reaped(before[p], after[p], alive),
    ensures
        forall|p: u32| #[trigger] before.contains_key(p) && before[p].state != State::Gone
            && (forall|b: bool| alive.ensures((p,), b) ==> !b) ==> after[p] == gone_agent(before[p]),
        forall|p: u32| #[trigger] before.contains_key(p) && (forall|b: bool| alive.ensures((p,), b) ==> b)
            ==> after[p] == before[p],
        forall|p: u32| #[trigger] before.contains_key(p) && after[p] != before[p] ==> (after[p]
            == gone_agent(before[p]) && before[p].state != State::Gone),
{
    assert forall|p: u32| #[trigger] before.contains_key(p) && before[p].state != State::Gone
        && (forall|b: bool| alive.ensures((p,), b) ==> !b) implies after[p] == gone_agent(before[p]) by {
        assert(reaped(before[p], after[p], alive));
        if alive.ensures((p,), true) {
            assert(!true);
        }
    }
    assert forall|p: u32| #[trigger] before.contains_key(p) && (forall|b: bool| alive.ensures((p,), b) ==> b)
        implies after[p] == before[p] by {
        assert(reaped(before[p], after[p], alive));
        if alive.ensures((before[p].pid,), false) {
            assert(false);
        }
    }
}

/// A ticket, once known, is never cleared by a later report.
pub proof fn lemma_ticket_is_sticky(m: Map<u32, AgentView>, r: ReportView, now: u64)
    requires
        m.contains_key(r.pid),
        m[r.pid].ticket is Some,
    ensures
        applied(m, r, now)[r.pid].ticket is Some,
{
}

/// The extension's structured ticket is authoritative.
pub proof fn lemma_reported_ticket_wins(m: Map<u32, AgentView>, r: ReportView, now: u64)
    requires
        r.kind != "gone"@,
        filled(r.ticket),
    ensures
        applied(m, r, now)[r.pid].ticket == r.ticket,
{
}

/// A `gone` report never registers an agent; for a known one it marks it
/// gone and clears its activity, leaving everything else as it was.
pub proof fn lemma_gone_report(m: Map<u32, AgentView>, r: ReportView, now: u64)
    requires
        r.kind == "gone"@,
    ensures
        applied(m, r, now).dom() == m.dom(),
        m.contains_key(r.pid) ==> applied(m, r, now)[r.pid] == (AgentView {
            updated: now,
            ..gone_agent(m[r.pid])
        }),
        forall|p: u32| p != r.pid && #[trigger] m.contains_key(p) ==> applied(m, r, now)[p] == m[p],
{
    if !m.contains_key(r.pid) {
        assert(applied(m, r, now) == m);
    }
}

/// A report touches only its own agent, and no report ever removes one:
/// a status report registers its pid if needed.
pub proof fn lemma_report_touches_one_agent(m: Map<u32, AgentView>, r: ReportView, now: u64)
    ensures
        forall|p: u32| p != r.pid ==> (#[trigger] applied(m, r, now).contains_key(p) == m.contains_key(p)),
        forall|p: u32| p != r.pid && #[trigger] m.contains_key(p) ==> applied(m, r, now)[p] == m[p],
        r.kind != "gone"@ ==> applied(m, r, now).dom() == m.dom().insert(r.pid),
        r.kind == "gone"@ ==> applied(m, r, now).dom() == m.dom(),
{
    if r.kind == "gone"@ && !m.contains_key(r.pid) {
        assert(applied(m, r, now) == m);
    }
}


proof fn lemma_listed_before_asymmetric(a: AgentView, b: AgentView)
    ensures
        !(listed_before(a, b) && listed_before(b, a)),
        !listed_before(a, a),
{
    lemma_text_order();
}

/// The listing order leaves no choice: two listings of the same agents are
/// the same sequence, so rows never swap places between redraws.
pub proof fn lemma_listing_is_unique(v: Seq<AgentView>, w: Seq<AgentView>, m: Map<u32, AgentView>)
    requires
        m.dom().finite(),
        is_listing(v, m),
        is_listing(w, m),
    ensures
        v == w,
    decreases v.len(),
{
    if v.len() > 0 {
        assert(m.contains_key(v[0].pid));
        assert(m.contains_key(w[0].pid));
        let q = choose|q: int| 0 <= q < v.len() && #[trigger] v[q].pid == w[0].pid;
        let r = choose|r: int| 0 <= r < w.len() && #[trigger] w[r].pid == v[0].pid;
        assert(v[q] == w[0]);
        assert(w[r] == v[0]);
        if q > 0 && r > 0 {
            assert(listed_before(v[0], v[q]));
            assert(listed_before(w[0], w[r]));
            lemma_listed_before_asymmetric(v[0], w[0]);
        } else if q > 0 {
            assert(w[0] == v[0]);
            assert(listed_before(v[0], v[q]));
            lemma_listed_before_asymmetric(v[0], v[0]);
        }
        assert(v[0] == w[0]);
        let p0 = v[0].pid;
        let m1 = m.remove(p0);
        let v1 = v.skip(1);
        let w1 = w.skip(1);
        assert forall|i: int| 0 <= i < v1.len() implies #[trigger] m1.contains_key(v1[i].pid)
            && m1[v1[i].pid] == v1[i] by {
            assert(v1[i] == v[i + 1]);
            assert(listed_before(v[0], v[i + 1]));
            if v[i + 1].pid == p0 {
                assert(v[i + 1] == v[0]);
                lemma_listed_before_asymmetric(v[0], v[0]);
            }
        }
        assert forall|i: int| 0 <= i < w1.len() implies #[trigger] m1.contains_key(w1[i].pid)
            && m1[w1[i].pid] == w1[i] by {
            assert(w1[i] == w[i + 1]);
            assert(listed_before(w[0], w[i + 1]));
            if w[i + 1].pid == p0 {
                assert(w[i + 1] == w[0]);
                lemma_listed_before_asymmetric(w[0], w[0]);
            }
        }
        assert forall|p: u32| m1.contains_key(p) implies exists|i: int|
            0 <= i < v1.len() && #[trigger] v1[i].pid == p by {
            let i = choose|i: int| 0 <= i < v.len() && #[trigger] v[i].pid == p;
            assert(i != 0);
            assert(v1[i - 1].pid == p);
        }
        assert forall|p: u32| m1.contains_key(p) implies exists|i: int|
            0 <= i < w1.len() && #[trigger] w1[i].pid == p by {
            let i = choose|i: int| 0 <= i < w.len() && #[trigger] w[i].pid == p;
            assert(i != 0);
            assert(w1[i - 1].pid == p);
        }
        assert forall|x: int, y: int| 0 <= x < y < v1.len() implies listed_before(
            #[trigger] v1[x],
            #[trigger] v1[y],
        ) by {
            assert(listed_before(v[x + 1], v[y + 1]));
        }
        assert forall|x: int, y: int| 0 <= x < y < w1.len() implies listed_before(
            #[trigger] w1[x],
            #[trigger] w1[y],
        ) by {
            assert(listed_before(w[x + 1], w[y + 1]));
        }
        assert(m1.dom().len() == m.dom().len() - 1);
        lemma_listing_is_unique(v1, w1, m1);
        assert(v == seq![v[0]] + v1);
        assert(w == seq![w[0]] + w1);
    }
}

/// Re-announcing is harmless: applying the same report twice, as the
/// extension's heartbeat does, gives what applying it once gave.
pub proof fn lemma_apply_is_idempotent(m: Map<u32, AgentView>, r: ReportView, now: u64)
    ensures
        applied(applied(m, r, now), r, now) == applied(m, r, now),
{
    let m1 = applied(m, r, now);
    if r.kind == "gone"@ {
        if m.contains_key(r.pid) {
            assert(m1.insert(r.pid, AgentView { updated: now, ..gone_agent(m1[r.pid]) }) == m1);
        } else {
            assert(m1 == m);
        }
    } else {
        let a = m1[r.pid];
        let b = merged(a, r, now);
        assert(b == a);
        assert(m1.insert(r.pid, b) == m1);
    }
}

} // verus!
