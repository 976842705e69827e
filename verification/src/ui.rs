//! What the dashboard shows: the text of the header, the agent rows, the
//! detail pane and the footer. Laying it out and colouring it is the
//! terminal front end's part.
use vstd::prelude::*;
use crate::registry::{model_label_of, label_of, Agent, AgentView, State};
use crate::text::{
    chars_of, decimal, owned, push_all, push_decimal, push_spaces, push_str, spaces, string_of,
};

verus! {

broadcast use vstd::string::group_string_axioms;

/// Chrome around the agent list: what the footer offers and what the last
/// action said.
pub struct Chrome<'a> {
    pub sock: &'a str,
    /// Result of the last focus / new-tab attempt, shown in the footer until
    /// the next one. `None` shows the key hints instead.
    pub status: Option<&'a str>,
    /// Whether Ghostty scripting is usable. Gates the focus/new-tab hints.
    pub ghostty: bool,
}

// ---------------------------------------------------------------------------
// Numbers and cells
// ---------------------------------------------------------------------------

/// The first `i` digits of `s`, with a comma before each digit that has a
/// positive multiple of three digits after it.
pub open spec fn grouped(s: Seq<char>, i: int) -> Seq<char>
    decreases i,
{
    if i <= 0 {
        Seq::empty()
    } else {
        grouped(s, i - 1) + if i - 1 > 0 && (s.len() - (i - 1)) % 3 == 0 {
            seq![',', s[i - 1]]
        } else {
            seq![s[i - 1]]
        }
    }
}

/// `n` in decimal with thousands separators: `48213` -> `48,213`.
pub open spec fn spec_thousands(n: nat) -> Seq<char> {
    grouped(decimal(n), decimal(n).len() as int)
}

/// `n` in decimal with thousands separators.
pub fn thousands(n: u64) -> (r: String)
    ensures
        r@ == spec_thousands(n as nat),
{
    let mut s: Vec<char> = Vec::new();
    push_decimal(&mut s, n);
    assert(s@ == decimal(n as nat));
    let len = s.len();
    let mut out: Vec<char> = Vec::new();
    let mut i: usize = 0;
    while i < len
        invariant
            len == s@.len(),
            i <= len,
            out@ == grouped(s@, i as int),
        decreases len - i,
    {
        if i > 0 && (len - i) % 3 == 0 {
            out.push(',');
        }
        out.push(s[i]);
        i = i + 1;
    }
    string_of(&out)
}

/// `s` cut to at most `max` characters, the last of them an ellipsis, when
/// it is longer.
pub open spec fn spec_truncate(s: Seq<char>, max: nat) -> Seq<char> {
    if s.len() <= max {
        s
    } else {
        s.take(if max > 0 {
            max - 1
        } else {
            0
        }) + seq!['\u{2026}']
    }
}

/// `s` cut to at most `max` characters, ending in `…` when it was longer.
pub fn truncate(s: &str, max: usize) -> (r: String)
    ensures
        r@ == spec_truncate(s@, max as nat),
{
    let v = chars_of(s);
    if v.len() <= max {
        return owned(s);
    }
    let keep = if max > 0 {
        max - 1
    } else {
        0
    };
    let mut out: Vec<char> = Vec::new();
    crate::text::push_range(&mut out, &v, 0, keep);
    out.push('\u{2026}');
    proof {
        assert(v@.subrange(0, keep as int) == v@.take(keep as int));
    }
    string_of(&out)
}


/// `t` without its commas.
pub open spec fn without_commas(t: Seq<char>) -> Seq<char>
    decreases t.len(),
{
    if t.len() == 0 {
        t
    } else if t.last() == ',' {
        without_commas(t.drop_last())
    } else {
        without_commas(t.drop_last()).push(t.last())
    }
}

proof fn lemma_without_commas_add(a: Seq<char>, b: Seq<char>)
    ensures
        without_commas(a + b) == without_commas(a) + without_commas(b),
    decreases b.len(),
{
    if b.len() > 0 {
        lemma_without_commas_add(a, b.drop_last());
        assert((a + b).drop_last() == a + b.drop_last());
    } else {
        assert(a + b == a);
    }
}

proof fn lemma_decimal_digits(n: nat)
    ensures
        forall|k: int| 0 <= k < decimal(n).len() ==> crate::text::is_digit(#[trigger] decimal(n)[k]),
    decreases n,
{
    let d = n % 10;
    assert(crate::text::is_digit(crate::text::digit_char(d))) by {
        assert(crate::text::digit_char(d) as u32 == 48 + d);
    }
    if n >= 10 {
        lemma_decimal_digits(n / 10);
        let t = decimal(n / 10);
        assert forall|k: int| 0 <= k < decimal(n).len() implies crate::text::is_digit(
            #[trigger] decimal(n)[k],
        ) by {
            if k < t.len() {
                assert(decimal(n)[k] == t[k]);
            }
        }
    } else {
        assert(decimal(n) == seq![crate::text::digit_char(n)]);
    }
}

proof fn lemma_without_commas_unit(c: char)
    ensures
        without_commas(seq![c]) == if c == ',' {
            Seq::<char>::empty()
        } else {
            seq![c]
        },
{
    assert(seq![c].drop_last() == Seq::<char>::empty());
    assert(without_commas(Seq::<char>::empty()) == Seq::<char>::empty());
    assert(Seq::<char>::empty().push(c) == seq![c]);
}

proof fn lemma_grouped_keeps_digits(s: Seq<char>, i: int)
    requires
        0 <= i <= s.len(),
        forall|k: int| 0 <= k < s.len() ==> #[trigger] s[k] != ',',
    ensures
        without_commas(grouped(s, i)) == s.take(i),
    decreases i,
{
    if i > 0 {
        lemma_grouped_keeps_digits(s, i - 1);
        let tail = if i - 1 > 0 && (s.len() - (i - 1)) % 3 == 0 {
            seq![',', s[i - 1]]
        } else {
            seq![s[i - 1]]
        };
        lemma_without_commas_add(grouped(s, i - 1), tail);
        assert(s[i - 1] != ',');
        assert(without_commas(tail) == seq![s[i - 1]]) by {
            lemma_without_commas_unit(s[i - 1]);
            if tail.len() == 2 {
                lemma_without_commas_unit(',');
                lemma_without_commas_add(seq![','], seq![s[i - 1]]);
                assert(seq![','] + seq![s[i - 1]] == tail);
            } else {
                assert(tail == seq![s[i - 1]]);
            }
        }
        assert(s.take(i) == s.take(i - 1) + seq![s[i - 1]]);
    }
}

/// Separators are all that grouping adds: without its commas, `48,213`
/// is `48213` again.
pub proof fn lemma_thousands_keeps_digits(n: nat)
    ensures
        without_commas(spec_thousands(n)) == decimal(n),
{
    lemma_decimal_digits(n);
    let s = decimal(n);
    assert forall|k: int| 0 <= k < s.len() implies #[trigger] s[k] != ',' by {
        assert(crate::text::is_digit(s[k]));
    }
    lemma_grouped_keeps_digits(s, s.len() as int);
    assert(s.take(s.len() as int) == s);
}

/// A truncated text is never wider than asked (one character at the least,
/// for the ellipsis), and text that fits is left alone.
pub proof fn lemma_truncate_fits(s: Seq<char>, max: nat)
    ensures
        spec_truncate(s, max).len() <= if max > 0 {
            max
        } else {
            1
        },
        s.len() <= max ==> spec_truncate(s, max) == s,
        s.len() > max ==> spec_truncate(s, max).last() == '\u{2026}',
{
}

/// `s` followed by spaces up to `w` characters.
pub open spec fn pad_right(s: Seq<char>, w: int) -> Seq<char> {
    s + spaces(w - s.len())
}

/// Spaces up to `w` characters, then `s`.
pub open spec fn pad_left(s: Seq<char>, w: int) -> Seq<char> {
    spaces(w - s.len()) + s
}

/// Appends `s` padded on the right to `w` characters.
fn push_padded(v: &mut Vec<char>, s: &Vec<char>, w: usize)
    ensures
        final(v)@ == old(v)@ + pad_right(s@, w as int),
{
    push_all(v, s);
    let n = if s.len() < w {
        w - s.len()
    } else {
        0
    };
    push_spaces(v, n);
    proof {
        assert(spaces(n as int) == spaces(w - s@.len()));
    }
}

/// Appends `s` padded on the left to `w` characters.
fn push_padded_left(v: &mut Vec<char>, s: &Vec<char>, w: usize)
    ensures
        final(v)@ == old(v)@ + pad_left(s@, w as int),
{
    let n = if s.len() < w {
        w - s.len()
    } else {
        0
    };
    push_spaces(v, n);
    push_all(v, s);
    proof {
        assert(spaces(n as int) == spaces(w - s@.len()));
    }
}

/// The context column: tokens in use and, when known, the percentage.
pub open spec fn spec_ctx_label(tokens: Option<u64>, percent: Option<u64>) -> Seq<char> {
    match tokens {
        Some(t) => match percent {
            Some(p) => spec_thousands(t as nat) + " tok ("@ + decimal(p as nat) + "%)"@,
            None => spec_thousands(t as nat) + " tok"@,
        },
        // none right after compaction, until a fresh assistant response
        None => "-"@,
    }
}

/// The context column for `a`.
pub fn ctx_label(a: &Agent) -> (r: String)
    ensures
        r@ == spec_ctx_label(a.context_tokens, a.context_percent),
{
    match a.context_tokens {
        Some(t) => {
            let mut v = chars_of(thousands(t).as_str());
            match a.context_percent {
                Some(p) => {
                    push_str(&mut v, " tok (");
                    push_decimal(&mut v, p);
                    push_str(&mut v, "%)");
                },
                None => {
                    push_str(&mut v, " tok");
                },
            }
            string_of(&v)
        },
        None => owned("-"),
    }
}

// ---------------------------------------------------------------------------
// Header and ticket column
// ---------------------------------------------------------------------------

pub open spec fn views(s: Seq<Agent>) -> Seq<AgentView> {
    s.map_values(|a: Agent| a@)
}

/// How many of `v` are running.
pub open spec fn running_count(v: Seq<AgentView>) -> nat
    decreases v.len(),
{
    if v.len() == 0 {
        0
    } else {
        running_count(v.drop_last()) + if v.last().state == State::Running {
            1nat
        } else {
            0nat
        }
    }
}

/// The header after the title: `  3 agents  ·  2 running`.
pub open spec fn spec_header(v: Seq<AgentView>) -> Seq<char> {
    "  "@ + decimal(v.len()) + " agent"@ + (if v.len() == 1 {
        ""@
    } else {
        "s"@
    }) + "  \u{b7}  "@ + decimal(running_count(v)) + " running"@
}

/// How many of `agents` are running.
fn count_running(agents: &[Agent]) -> (n: u64)
    ensures
        n as nat == running_count(views(agents@)),
        n <= agents@.len(),
{
    let ghost v = views(agents@);
    let mut running: u64 = 0;
    let mut i: usize = 0;
    while i < agents.len()
        invariant
            i <= agents@.len(),
            v == views(agents@),
            running as nat == running_count(v.take(i as int)),
            running <= i,
        decreases agents@.len() - i,
    {
        proof {
            assert(v.take(i + 1).drop_last() == v.take(i as int));
        }
        if agents[i].state == State::Running {
            running = running + 1;
        }
        i = i + 1;
    }
    proof {
        assert(v.take(agents@.len() as int) == v);
    }
    running
}

/// The header text for `agents`.
pub fn header(agents: &[Agent]) -> (r: String)
    ensures
        r@ == spec_header(views(agents@)),
{
    let running = count_running(agents);
    let mut out: Vec<char> = Vec::new();
    push_str(&mut out, "  ");
    push_decimal(&mut out, agents.len() as u64);
    push_str(&mut out, " agent");
    if agents.len() != 1 {
        push_str(&mut out, "s");
    } else {
        push_str(&mut out, "");
    }
    push_str(&mut out, "  \u{b7}  ");
    push_decimal(&mut out, running);
    push_str(&mut out, " running");
    string_of(&out)
}

/// Length of the longest ticket in `v`, or -1 when none has one.
pub open spec fn widest_ticket(v: Seq<AgentView>) -> int
    decreases v.len(),
{
    if v.len() == 0 {
        -1
    } else {
        let w = widest_ticket(v.drop_last());
        match v.last().ticket {
            Some(t) => if t.len() > w {
                t.len() as int
            } else {
                w
            },
            None => w,
        }
    }
}

/// Width of the ticket column: 0 when no agent has a ticket, so a dashboard
/// without tickets loses no width; otherwise the longest ticket, kept
/// between 10 and 16.
pub open spec fn spec_ticket_width(v: Seq<AgentView>) -> int {
    let w = widest_ticket(v);
    if w < 0 {
        0
    } else if w < 10 {
        10
    } else if w > 16 {
        16
    } else {
        w
    }
}

proof fn lemma_widest_ticket(v: Seq<AgentView>)
    ensures
        widest_ticket(v) >= -1,
    decreases v.len(),
{
    if v.len() > 0 {
        lemma_widest_ticket(v.drop_last());
    }
}

/// Width of the ticket column for `agents`.
pub fn ticket_width(agents: &[Agent]) -> (w: usize)
    ensures
        w == spec_ticket_width(views(agents@)),
        w == 0 || 10 <= w <= 16,
{
    let ghost v = views(agents@);
    let mut widest: usize = 0;
    let mut any = false;
    let mut i: usize = 0;
    while i < agents.len()
        invariant
            i <= agents@.len(),
            v == views(agents@),
            any ==> widest == widest_ticket(v.take(i as int)),
            !any ==> widest_ticket(v.take(i as int)) == -1 && widest == 0,
        decreases agents@.len() - i,
    {
        proof {
            assert(v.take(i + 1).drop_last() == v.take(i as int));
            assert(v.take(i + 1).last() == agents@[i as int]@);
            lemma_widest_ticket(v.take(i as int));
        }
        match &agents[i].ticket {
            Some(t) => {
                let n = chars_of(t.as_str()).len();
                if !any || n > widest {
                    widest = n;
                }
                any = true;
            },
            None => {},
        }
        i = i + 1;
    }
    proof {
        assert(v.take(agents@.len() as int) == v);
    }
    if !any {
        0
    } else if widest < 10 {
        10
    } else if widest > 16 {
        16
    } else {
        widest
    }
}

// ---------------------------------------------------------------------------
// Agent rows
// ---------------------------------------------------------------------------

/// The marker in front of a row.
pub open spec fn dot_of(s: State) -> Seq<char> {
    match s {
        State::Running => "\u{25cf}"@,
        State::Idle => "\u{25cf}"@,
        State::Starting => "\u{25cc}"@,
        State::Gone => "\u{25cb}"@,
    }
}

/// The word for a state.
pub open spec fn state_word(s: State) -> Seq<char> {
    match s {
        State::Starting => "starting"@,
        State::Idle => "idle"@,
        State::Running => "running"@,
        State::Gone => "gone"@,
    }
}

/// `o`'s text, or `d` when there is none.
pub open spec fn text_or(o: Option<Seq<char>>, d: Seq<char>) -> Seq<char> {
    match o {
        Some(t) => t,
        None => d,
    }
}

/// The text of one agent row: a head line of cells, the task line under it,
/// and the activity line, which is blank when no tool is running so that
/// every row has the same height.
pub struct Row {
    pub dot: String,
    pub label: String,
    /// Present only when the ticket column is shown.
    pub ticket: Option<String>,
    pub state: String,
    pub model: String,
    pub context: String,
    pub task: String,
    /// The running tool, when there is one; shown after `↳`.
    pub activity: Option<String>,
}

pub ghost struct RowView {
    pub dot: Seq<char>,
    pub label: Seq<char>,
    pub ticket: Option<Seq<char>>,
    pub state: Seq<char>,
    pub model: Seq<char>,
    pub context: Seq<char>,
    pub task: Seq<char>,
    pub activity: Option<Seq<char>>,
}

impl View for Row {
    type V = RowView;

    open spec fn view(&self) -> RowView {
        RowView {
            dot: self.dot@,
            label: self.label@,
            ticket: crate::registry::opt_view(self.ticket),
            state: self.state@,
            model: self.model@,
            context: self.context@,
            task: self.task@,
            activity: crate::registry::opt_view(self.activity),
        }
    }
}

/// The row for agent `a`, with a ticket column `ticket_width` wide (none
/// when 0) and `task_width` characters for the task line.
pub open spec fn spec_row(a: AgentView, ticket_width: nat, task_width: nat) -> RowView {
    RowView {
        dot: " "@ + dot_of(a.state) + " "@,
        label: pad_right(spec_truncate(label_of(a), 24), 24),
        ticket: if ticket_width > 0 {
            Some(
                pad_right(
                    spec_truncate(text_or(a.ticket, ""@), ticket_width),
                    ticket_width + 1int,
                ),
            )
        } else {
            None
        },
        state: pad_right(state_word(a.state), 9),
        model: pad_right(spec_truncate(model_label_of(a), 24), 24),
        context: spec_ctx_label(a.context_tokens, a.context_percent),
        task: "    "@ + spec_truncate(text_or(a.task, "\u{2014}"@), task_width),
        activity: match a.activity {
            Some(act) => Some(
                spec_truncate(
                    act,
                    if task_width >= 2 {
                        (task_width - 2) as nat
                    } else {
                        0
                    },
                ),
            ),
            None => None,
        },
    }
}

fn dot(s: State) -> (r: &'static str)
    ensures
        r@ == dot_of(s),
{
    match s {
        State::Running => "\u{25cf}",
        State::Idle => "\u{25cf}",
        State::Starting => "\u{25cc}",
        State::Gone => "\u{25cb}",
    }
}

/// `s` truncated to `max` and padded to `w`.
fn cell(s: &str, max: usize, w: usize) -> (r: String)
    ensures
        r@ == pad_right(spec_truncate(s@, max as nat), w as int),
{
    let t = chars_of(truncate(s, max).as_str());
    let mut v: Vec<char> = Vec::new();
    push_padded(&mut v, &t, w);
    proof {
        assert(Seq::<char>::empty() + pad_right(t@, w as int) == pad_right(t@, w as int));
    }
    string_of(&v)
}

/// The row text for agent `a`.
pub fn row(a: &Agent, ticket_width: usize, task_width: usize) -> (r: Row)
    requires
        ticket_width < usize::MAX,
    ensures
        r@ == spec_row(a@, ticket_width as nat, task_width as nat),
{
    let mut d: Vec<char> = Vec::new();
    push_str(&mut d, " ");
    push_str(&mut d, dot(a.state));
    push_str(&mut d, " ");
    let label = cell(a.label().as_str(), 24, 24);
    let ticket = if ticket_width > 0 {
        let t = match &a.ticket {
            Some(t) => cell(t.as_str(), ticket_width, ticket_width + 1),
            None => cell("", ticket_width, ticket_width + 1),
        };
        Some(t)
    } else {
        None
    };
    let state = cell(a.state.label(), 9, 9);
    proof {
        assert(state_word(a.state).len() <= 9) by {
            reveal_strlit("starting");
            reveal_strlit("idle");
            reveal_strlit("running");
            reveal_strlit("gone");
        }
    }
    let model = cell(a.model_label().as_str(), 24, 24);
    let mut task: Vec<char> = Vec::new();
    push_str(&mut task, "    ");
    let tt = match &a.task {
        Some(t) => truncate(t.as_str(), task_width),
        None => truncate("\u{2014}", task_width),
    };
    push_str(&mut task, tt.as_str());
    let activity = match &a.activity {
        Some(act) => Some(
            truncate(
                act.as_str(),
                if task_width >= 2 {
                    task_width - 2
                } else {
                    0
                },
            ),
        ),
        None => None,
    };
    proof {
        assert(Seq::<char>::empty() + " "@ + dot_of(a.state) + " "@ == " "@ + dot_of(a.state)
            + " "@);
        assert(Seq::<char>::empty() + "    "@ + tt@ == "    "@ + tt@);
    }
    Row {
        dot: string_of(&d),
        label,
        ticket,
        state,
        model,
        context: ctx_label(a),
        task: string_of(&task),
        activity,
    }
}


// ---------------------------------------------------------------------------
// Detail pane
// ---------------------------------------------------------------------------

/// Seconds since `updated` (milliseconds), as of `now`; 0 if the clock went
/// backwards.
pub open spec fn age_secs(now: u64, updated: u64) -> nat {
    if now >= updated {
        ((now - updated) / 1000) as nat
    } else {
        0
    }
}

/// The rows of the detail pane for `a` at time `now`: a key and its value.
/// The ticket rides on the label row and the pane on the pid row, so the
/// pane keeps a fixed height.
pub open spec fn spec_detail(a: AgentView, now: u64) -> Seq<(Seq<char>, Seq<char>)> {
    seq![
        ("label"@, match a.ticket {
            Some(t) => label_of(a) + "   "@ + t,
            None => label_of(a),
        }),
        ("state"@, state_word(a.state) + " ("@ + decimal(age_secs(now, a.updated)) + "s ago)"@),
        ("pid"@, match a.terminal {
            Some(t) => decimal(a.pid as nat) + "   pane "@ + t,
            None => decimal(a.pid as nat) + "   pane -  (cannot focus)"@,
        }),
        ("cwd"@, text_or(a.cwd, "-"@)),
        ("model"@, model_label_of(a) + match a.thinking_level {
            Some(t) => "  thinking:"@ + t,
            None => ""@,
        }),
        ("model id"@, text_or(a.model_id, "-"@)),
        ("context"@, spec_ctx_label(a.context_tokens, a.context_percent)),
        ("task"@, text_or(a.task, "-"@)),
        ("doing"@, text_or(a.activity, "-"@)),
        ("session"@, text_or(a.session_id, "-"@)),
    ]
}

fn text_or_dash(o: &Option<String>) -> (r: String)
    ensures
        r@ == text_or(crate::registry::opt_view(*o), "-"@),
{
    match o {
        Some(s) => s.clone(),
        None => owned("-"),
    }
}

/// The detail pane's rows for agent `a` at time `now` (milliseconds).
pub fn detail_rows(a: &Agent, now: u64) -> (r: Vec<(String, String)>)
    ensures
        r@.len() == 10,
        forall|k: int| 0 <= k < 10 ==> (#[trigger] r@[k].0@, r@[k].1@) == spec_detail(a@, now)[k],
{
    let mut rows: Vec<(String, String)> = Vec::new();

    let mut v = chars_of(a.label().as_str());
    match &a.ticket {
        Some(t) => {
            push_str(&mut v, "   ");
            push_str(&mut v, t.as_str());
        },
        None => {},
    }
    rows.push((owned("label"), string_of(&v)));

    let age: u64 = if now >= a.updated {
        (now - a.updated) / 1000
    } else {
        0
    };
    let mut v = chars_of(a.state.label());
    push_str(&mut v, " (");
    push_decimal(&mut v, age);
    push_str(&mut v, "s ago)");
    rows.push((owned("state"), string_of(&v)));

    let mut v: Vec<char> = Vec::new();
    push_decimal(&mut v, a.pid as u64);
    match &a.terminal {
        Some(t) => {
            push_str(&mut v, "   pane ");
            push_str(&mut v, t.as_str());
        },
        None => {
            push_str(&mut v, "   pane -  (cannot focus)");
        },
    }
    rows.push((owned("pid"), string_of(&v)));

    rows.push((owned("cwd"), text_or_dash(&a.cwd)));

    let mut v = chars_of(a.model_label().as_str());
    match &a.thinking_level {
        Some(t) => {
            push_str(&mut v, "  thinking:");
            push_str(&mut v, t.as_str());
        },
        None => {
            push_str(&mut v, "");
        },
    }
    rows.push((owned("model"), string_of(&v)));

    rows.push((owned("model id"), text_or_dash(&a.model_id)));
    rows.push((owned("context"), ctx_label(a)));
    rows.push((owned("task"), text_or_dash(&a.task)));
    rows.push((owned("doing"), text_or_dash(&a.activity)));
    rows.push((owned("session"), text_or_dash(&a.session_id)));
    proof {
        assert(Seq::<char>::empty() + decimal(a.pid as nat) == decimal(a.pid as nat));
    }
    rows
}


// ---------------------------------------------------------------------------
// Plain table
// ---------------------------------------------------------------------------

/// The context column of the plain table: tokens and percent, or `-`.
pub open spec fn tail_ctx(tokens: Option<u64>, percent: Option<u64>) -> Seq<char> {
    match (tokens, percent) {
        (Some(t), Some(p)) => decimal(t as nat) + " tok ("@ + decimal(p as nat) + "%)"@,
        _ => "-"@,
    }
}

/// The columns of one agent in the plain table.
pub open spec fn tail_head(a: AgentView) -> Seq<char> {
    pad_right(decimal(a.pid as nat), 7) + " "@ + pad_right(label_of(a), 20) + " "@ + pad_right(
        state_word(a.state),
        8,
    ) + " "@ + pad_right(model_label_of(a), 22) + " "@ + pad_left(
        tail_ctx(a.context_tokens, a.context_percent),
        16,
    ) + "\n"@
}

/// The task line of one agent in the plain table, and the running tool
/// when there is one.
pub open spec fn tail_lines(a: AgentView) -> Seq<char> {
    "        "@ + text_or(a.task, "\u{2014}"@) + "\n"@ + match a.activity {
        Some(act) => "        \u{21b3} "@ + act + "\n"@,
        None => ""@,
    }
}

/// One agent in the plain table.
pub open spec fn tail_entry(a: AgentView) -> Seq<char> {
    tail_head(a) + tail_lines(a)
}

/// The plain table of `v`, one entry after another.
pub open spec fn spec_table(v: Seq<AgentView>) -> Seq<char>
    decreases v.len(),
{
    if v.len() == 0 {
        Seq::empty()
    } else {
        spec_table(v.drop_last()) + tail_entry(v.last())
    }
}

fn tail_ctx_chars(a: &Agent) -> (r: Vec<char>)
    ensures
        r@ == tail_ctx(a.context_tokens, a.context_percent),
{
    let mut ctx: Vec<char> = Vec::new();
    match (a.context_tokens, a.context_percent) {
        (Some(t), Some(p)) => {
            push_decimal(&mut ctx, t);
            push_str(&mut ctx, " tok (");
            push_decimal(&mut ctx, p);
            push_str(&mut ctx, "%)");
        },
        _ => {
            push_str(&mut ctx, "-");
            assert(Seq::<char>::empty() + "-"@ == "-"@);
        },
    }
    ctx
}

fn push_head(out: &mut Vec<char>, a: &Agent)
    ensures
        final(out)@ == old(out)@ + tail_head(a@),
{
    let mut pid: Vec<char> = Vec::new();
    crate::text::push_decimal(&mut pid, a.pid as u64);
    assert(pid@ == decimal(a.pid as nat));
    let label = chars_of(a.label().as_str());
    let state = chars_of(a.state.label());
    let model = chars_of(a.model_label().as_str());
    let ctx = tail_ctx_chars(a);
    push_padded(out, &pid, 7);
    push_str(out, " ");
    push_padded(out, &label, 20);
    push_str(out, " ");
    push_padded(out, &state, 8);
    push_str(out, " ");
    push_padded(out, &model, 22);
    push_str(out, " ");
    push_padded_left(out, &ctx, 16);
    push_str(out, "\n");
}

fn push_lines(out: &mut Vec<char>, a: &Agent)
    ensures
        final(out)@ == old(out)@ + tail_lines(a@),
{
    push_str(out, "        ");
    match &a.task {
        Some(t) => push_str(out, t.as_str()),
        None => push_str(out, "\u{2014}"),
    }
    push_str(out, "\n");
    match &a.activity {
        Some(act) => {
            push_str(out, "        \u{21b3} ");
            push_str(out, act.as_str());
            push_str(out, "\n");
        },
        None => {
            push_str(out, "");
        },
    }
}

fn push_entry(out: &mut Vec<char>, a: &Agent)
    ensures
        final(out)@ == old(out)@ + tail_entry(a@),
{
    push_head(out, a);
    push_lines(out, a);
}

/// The plain table of `agents`, as the headless viewer prints it.
pub fn table(agents: &[Agent]) -> (r: String)
    ensures
        r@ == spec_table(views(agents@)),
{
    let ghost v = views(agents@);
    let mut out: Vec<char> = Vec::new();
    let mut i: usize = 0;
    while i < agents.len()
        invariant
            i <= agents@.len(),
            v == views(agents@),
            out@ == spec_table(v.take(i as int)),
        decreases agents@.len() - i,
    {
        proof {
            assert(v.take(i + 1).drop_last() == v.take(i as int));
            assert(v.take(i + 1).last() == agents@[i as int]@);
        }
        push_entry(&mut out, &agents[i]);
        i = i + 1;
    }
    proof {
        assert(v.take(agents@.len() as int) == v);
    }
    string_of(&out)
}

// ---------------------------------------------------------------------------
// Footer and empty list
// ---------------------------------------------------------------------------

/// What the footer shows: the answer to the last key, or the key hints.
pub enum Footer {
    Status(String),
    Hints(String),
}

/// The key hints where Ghostty scripting works.
pub open spec fn ghostty_hints() -> Seq<char> {
    " \u{2191}/\u{2193} move \u{b7} enter focus pane \u{b7} n new pi tab \u{b7} d hide dead \u{b7} q quit"@
}

/// The key hints elsewhere: the focus and new-tab keys could only fail.
pub open spec fn plain_hints() -> Seq<char> {
    " \u{2191}/\u{2193} move \u{b7} d hide dead \u{b7} q quit"@
}

/// The footer: a status message displaces the hints, since it answers the
/// key just pressed.
pub fn footer(chrome: &Chrome) -> (r: Footer)
    ensures
        chrome.status matches Some(msg) ==> (r matches Footer::Status(s) && s@ == " "@ + msg@),
        chrome.status is None && chrome.ghostty ==> (r matches Footer::Hints(h) && h@
            == ghostty_hints()),
        chrome.status is None && !chrome.ghostty ==> (r matches Footer::Hints(h) && h@
            == plain_hints()),
{
    match chrome.status {
        Some(msg) => {
            let mut v: Vec<char> = Vec::new();
            push_str(&mut v, " ");
            push_str(&mut v, msg);
            proof {
                assert(Seq::<char>::empty() + " "@ + msg@ == " "@ + msg@);
            }
            Footer::Status(string_of(&v))
        },
        None => {
            if chrome.ghostty {
                Footer::Hints(
                    owned(
                        " \u{2191}/\u{2193} move \u{b7} enter focus pane \u{b7} n new pi tab \u{b7} d hide dead \u{b7} q quit",
                    ),
                )
            } else {
                Footer::Hints(owned(" \u{2191}/\u{2193} move \u{b7} d hide dead \u{b7} q quit"))
            }
        },
    }
}

/// Where the dashboard listens, for the empty list: `  listening on <sock>`.
pub fn listening_line(sock: &str) -> (r: String)
    ensures
        r@ == "  listening on "@ + sock@,
{
    let mut v: Vec<char> = Vec::new();
    push_str(&mut v, "  listening on ");
    push_str(&mut v, sock);
    proof {
        assert(Seq::<char>::empty() + "  listening on "@ + sock@ == "  listening on "@ + sock@);
    }
    string_of(&v)
}

/// Which row is highlighted: `selected`, kept inside the list.
pub fn highlighted(selected: usize, count: usize) -> (r: usize)
    ensures
        count == 0 ==> r == 0,
        count > 0 ==> r == if selected < count {
            selected
        } else {
            (count - 1) as usize
        },
{
    if count == 0 {
        0
    } else if selected < count {
        selected
    } else {
        count - 1
    }
}

} // verus!
