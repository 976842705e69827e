//! Ghostty control via its AppleScript dictionary.
//!
//! Ghostty 1.3 ships `Ghostty.sdef`, so focusing a surface and spawning a tab
//! are ordinary Apple events:
//!
//!   focus terminal id "<uuid>"            -- raise window, select tab, focus split
//!   new tab in front window with configuration <cfg>
//!
//! This module writes those scripts and reads `osascript`'s answer; running
//! `osascript` is left to the program. Nothing here guesses: an agent without
//! a reported surface cannot be focused.
use vstd::prelude::*;
use crate::text::{chars_of, is_space, owned, push_range, push_str, space, string_of, string_range};

verus! {

broadcast use vstd::string::group_string_axioms;

// ---------------------------------------------------------------------------
// Quoting
// ---------------------------------------------------------------------------

/// How one character is written inside an AppleScript string literal:
/// `"` and `\` take a backslash, everything else stands for itself.
pub open spec fn escape_char(c: char) -> Seq<char> {
    if c == '"' || c == '\\' {
        seq!['\\', c]
    } else {
        seq![c]
    }
}

/// The body of an AppleScript string literal holding `s`.
pub open spec fn escape(s: Seq<char>) -> Seq<char>
    decreases s.len(),
{
    if s.len() == 0 {
        Seq::empty()
    } else {
        escape_char(s[0]) + escape(s.skip(1))
    }
}

/// Reads the body of an AppleScript string literal back: a backslash stands
/// for the character after it.
pub open spec fn unescape(t: Seq<char>) -> Seq<char>
    decreases t.len(),
{
    if t.len() == 0 {
        Seq::empty()
    } else if t[0] == '\\' && t.len() >= 2 {
        seq![t[1]] + unescape(t.skip(2))
    } else {
        seq![t[0]] + unescape(t.skip(1))
    }
}

pub open spec fn has_newline(s: Seq<char>) -> bool {
    s.contains('\n') || s.contains('\r')
}

/// `s` as an AppleScript string literal, or the complaint when it holds a
/// line break, which such a literal cannot.
pub open spec fn spec_quote(s: Seq<char>) -> Result<Seq<char>, Seq<char>> {
    if has_newline(s) {
        Err("newline in AppleScript string"@)
    } else {
        Ok(seq!['"'] + escape(s) + seq!['"'])
    }
}

/// Like `spec_quote`, but a trailing carriage return becomes `& return`.
pub open spec fn spec_quote_with_cr(s: Seq<char>) -> Result<Seq<char>, Seq<char>> {
    if s.len() > 0 && s.last() == '\r' {
        match spec_quote(s.drop_last()) {
            Ok(q) => Ok(q + " & return"@),
            Err(e) => Err(e),
        }
    } else {
        spec_quote(s)
    }
}

proof fn lemma_escape_push(s: Seq<char>, c: char)
    ensures
        escape(s.push(c)) == escape(s) + escape_char(c),
    decreases s.len(),
{
    if s.len() == 0 {
        assert(s.push(c).skip(1) == Seq::<char>::empty());
        assert(escape(Seq::<char>::empty()) == Seq::<char>::empty());
    } else {
        assert(s.push(c).skip(1) == s.skip(1).push(c));
        lemma_escape_push(s.skip(1), c);
        assert(s.push(c)[0] == s[0]);
    }
}

/// Reading a quoted string's body back gives the string: quoting loses
/// nothing, so two different strings never quote alike.
pub proof fn lemma_unescape_escape(s: Seq<char>)
    ensures
        unescape(escape(s)) == s,
    decreases s.len(),
{
    if s.len() > 0 {
        lemma_unescape_escape(s.skip(1));
        let t = escape(s);
        let e = escape_char(s[0]);
        assert(t == e + escape(s.skip(1)));
        if s[0] == '"' || s[0] == '\\' {
            assert(t.skip(2) == escape(s.skip(1)));
        } else {
            assert(t.skip(1) == escape(s.skip(1)));
        }
        assert(s == seq![s[0]] + s.skip(1));
    }
}

/// Quoting is one-to-one.
pub proof fn lemma_quote_injective(a: Seq<char>, b: Seq<char>)
    requires
        spec_quote(a) is Ok,
        spec_quote(a) == spec_quote(b),
    ensures
        a == b,
{
    let qa = spec_quote(a)->Ok_0;
    assert(escape(a) == qa.subrange(1, qa.len() - 1));
    assert(escape(b) == qa.subrange(1, qa.len() - 1));
    lemma_unescape_escape(a);
    lemma_unescape_escape(b);
}

fn has_line_break(v: &Vec<char>) -> (b: bool)
    ensures
        b == has_newline(v@),
{
    let mut i: usize = 0;
    while i < v.len()
        invariant
            i <= v@.len(),
            forall|k: int| 0 <= k < i ==> v@[k] != '\n' && v@[k] != '\r',
        decreases v@.len() - i,
    {
        if v[i] == '\n' || v[i] == '\r' {
            proof {
                if v[i as int] == '\n' {
                    assert(v@.contains('\n'));
                } else {
                    assert(v@.contains('\r'));
                }
            }
            return true;
        }
        i = i + 1;
    }
    false
}

/// The quoted form of `s[..n]`, as characters.
fn quoted(s: &Vec<char>, n: usize) -> (q: Vec<char>)
    requires
        n <= s@.len(),
    ensures
        q@ == seq!['"'] + escape(s@.take(n as int)) + seq!['"'],
{
    let mut out: Vec<char> = Vec::new();
    out.push('"');
    let mut i: usize = 0;
    while i < n
        invariant
            i <= n <= s@.len(),
            out@ == seq!['"'] + escape(s@.take(i as int)),
        decreases n - i,
    {
        let c = s[i];
        if c == '"' || c == '\\' {
            out.push('\\');
        }
        out.push(c);
        proof {
            assert(s@.take(i + 1) == s@.take(i as int).push(c));
            lemma_escape_push(s@.take(i as int), c);
        }
        i = i + 1;
    }
    out.push('"');
    out
}

/// Quote a string as an AppleScript string literal.
///
/// AppleScript has no escape for anything but `\` and `"`, and a literal
/// newline inside quotes is a syntax error, so those are rejected rather than
/// mangled.
pub fn quote(s: &str) -> (r: Result<String, String>)
    ensures
        r matches Ok(q) ==> spec_quote(s@) == Ok::<Seq<char>, Seq<char>>(q@),
        r matches Err(e) ==> spec_quote(s@) == Err::<Seq<char>, Seq<char>>(e@),
{
    let v = chars_of(s);
    if has_line_break(&v) {
        return Err(owned("newline in AppleScript string"));
    }
    let q = quoted(&v, v.len());
    proof {
        assert(v@.take(v@.len() as int) == v@);
    }
    Ok(string_of(&q))
}

/// Like [`quote`], but renders a trailing carriage return as `& return`.
///
/// AppleScript string literals can't hold a newline, so submitting a typed
/// line means concatenating the `return` constant.
pub fn quote_with_cr(s: &str) -> (r: Result<String, String>)
    ensures
        r matches Ok(q) ==> spec_quote_with_cr(s@) == Ok::<Seq<char>, Seq<char>>(q@),
        r matches Err(e) ==> spec_quote_with_cr(s@) == Err::<Seq<char>, Seq<char>>(e@),
{
    let v = chars_of(s);
    let n = v.len();
    if n > 0 && v[n - 1] == '\r' {
        let ghost head = v@.drop_last();
        assert(v@.take(n - 1) == head);
        let mut h: Vec<char> = Vec::new();
        push_range(&mut h, &v, 0, n - 1);
        assert(h@ == head);
        if has_line_break(&h) {
            return Err(owned("newline in AppleScript string"));
        }
        let mut q = quoted(&v, n - 1);
        push_str(&mut q, " & return");
        Ok(string_of(&q))
    } else {
        quote(s)
    }
}

// ---------------------------------------------------------------------------
// osascript's answer
// ---------------------------------------------------------------------------

/// First index in `[lo, hi)` that is not white space, or `hi`.
pub open spec fn skip_space(s: Seq<char>, lo: int, hi: int) -> int
    decreases hi - lo,
{
    if lo < hi && is_space(s[lo]) {
        skip_space(s, lo + 1, hi)
    } else {
        lo
    }
}

/// End of `s[lo..hi]` once trailing white space is dropped.
pub open spec fn drop_space(s: Seq<char>, lo: int, hi: int) -> int
    decreases hi - lo,
{
    if lo < hi && is_space(s[hi - 1]) {
        drop_space(s, lo, hi - 1)
    } else {
        hi
    }
}

/// The tail osascript puts after a message: ` (-1728)`, a full stop, digits.
pub open spec fn is_noise(c: char) -> bool {
    ('0' <= c && c <= '9') || c == '(' || c == ')' || c == '.' || c == '-' || c == ' '
}

/// End of `s[lo..hi]` once trailing noise is dropped.
pub open spec fn drop_noise(s: Seq<char>, lo: int, hi: int) -> int
    decreases hi - lo,
{
    if lo < hi && is_noise(s[hi - 1]) {
        drop_noise(s, lo, hi - 1)
    } else {
        hi
    }
}

/// `pat` occurs in `s` at `i`.
pub open spec fn occurs_at(s: Seq<char>, pat: Seq<char>, i: int) -> bool {
    0 <= i && i + pat.len() <= s.len() && s.subrange(i, i + pat.len()) == pat
}

/// The last place at or before `i` where `pat` occurs in `s`.
pub open spec fn last_occurrence(s: Seq<char>, pat: Seq<char>, i: int) -> Option<int>
    decreases i + 1,
{
    if i < 0 {
        None
    } else if occurs_at(s, pat, i) {
        Some(i)
    } else {
        last_occurrence(s, pat, i - 1)
    }
}

/// `error: `
pub open spec fn error_marker() -> Seq<char> {
    seq!['e', 'r', 'r', 'o', 'r', ':', ' ']
}

/// Where the message starts: after the last `error: `, or at the start.
pub open spec fn message_start(s: Seq<char>) -> int {
    match last_occurrence(s, error_marker(), s.len() - 7) {
        Some(i) => i + 7,
        None => 0,
    }
}

/// The part of osascript's stderr worth showing: after the last `error: `,
/// trimmed, without the trailing `. (-1728)`; a fixed complaint if nothing
/// is left.
pub open spec fn spec_tidy_error(s: Seq<char>) -> Seq<char> {
    let a = skip_space(s, message_start(s), s.len() as int);
    let b = drop_space(s, a, s.len() as int);
    let e = drop_noise(s, a, b);
    if e == a {
        "osascript failed"@
    } else {
        s.subrange(a, e)
    }
}

/// `s` without leading and trailing white space.
pub open spec fn spec_trim(s: Seq<char>) -> Seq<char> {
    let a = skip_space(s, 0, s.len() as int);
    s.subrange(a, drop_space(s, a, s.len() as int))
}

proof fn lemma_skip_space(s: Seq<char>, lo: int, hi: int)
    requires
        0 <= lo <= hi <= s.len(),
    ensures
        lo <= skip_space(s, lo, hi) <= hi,
    decreases hi - lo,
{
    if lo < hi && is_space(s[lo]) {
        lemma_skip_space(s, lo + 1, hi);
    }
}

proof fn lemma_drop_space(s: Seq<char>, lo: int, hi: int)
    requires
        0 <= lo <= hi <= s.len(),
    ensures
        lo <= drop_space(s, lo, hi) <= hi,
    decreases hi - lo,
{
    if lo < hi && is_space(s[hi - 1]) {
        lemma_drop_space(s, lo, hi - 1);
    }
}


proof fn lemma_drop_noise(s: Seq<char>, lo: int, hi: int)
    requires
        0 <= lo <= hi <= s.len(),
    ensures
        lo <= drop_noise(s, lo, hi) <= hi,
    decreases hi - lo,
{
    if lo < hi && is_noise(s[hi - 1]) {
        lemma_drop_noise(s, lo, hi - 1);
    }
}

/// The footer always has something to say: whatever osascript printed,
/// the tidied message is never empty.
pub proof fn lemma_tidy_error_never_blank(s: Seq<char>)
    ensures
        spec_tidy_error(s).len() > 0,
{
    reveal_strlit("osascript failed");
    let start = message_start(s);
    lemma_message_start(s);
    let a = skip_space(s, start, s.len() as int);
    lemma_skip_space(s, start, s.len() as int);
    let b = drop_space(s, a, s.len() as int);
    lemma_drop_space(s, a, s.len() as int);
    lemma_drop_noise(s, a, b);
}

proof fn lemma_last_occurrence(s: Seq<char>, pat: Seq<char>, i: int)
    ensures
        last_occurrence(s, pat, i) matches Some(k) ==> occurs_at(s, pat, k),
    decreases i + 1,
{
    if i >= 0 && !occurs_at(s, pat, i) {
        lemma_last_occurrence(s, pat, i - 1);
    }
}

proof fn lemma_message_start(s: Seq<char>)
    ensures
        0 <= message_start(s) <= s.len(),
{
    lemma_last_occurrence(s, error_marker(), s.len() - 7);
}

fn skip_spaces(s: &Vec<char>, lo: usize, hi: usize) -> (r: usize)
    requires
        lo <= hi <= s@.len(),
    ensures
        r == skip_space(s@, lo as int, hi as int),
        lo <= r <= hi,
{
    let mut i = lo;
    proof {
        lemma_skip_space(s@, lo as int, hi as int);
    }
    while i < hi && space(s[i])
        invariant
            lo <= i <= hi <= s@.len(),
            skip_space(s@, i as int, hi as int) == skip_space(s@, lo as int, hi as int),
        decreases hi - i,
    {
        i = i + 1;
    }
    i
}

fn drop_spaces(s: &Vec<char>, lo: usize, hi: usize) -> (r: usize)
    requires
        lo <= hi <= s@.len(),
    ensures
        r == drop_space(s@, lo as int, hi as int),
        lo <= r <= hi,
{
    let mut j = hi;
    proof {
        lemma_drop_space(s@, lo as int, hi as int);
    }
    while j > lo && space(s[j - 1])
        invariant
            lo <= j <= hi <= s@.len(),
            drop_space(s@, lo as int, j as int) == drop_space(s@, lo as int, hi as int),
        decreases j,
    {
        j = j - 1;
    }
    j
}

fn noise(c: char) -> (b: bool)
    ensures
        b == is_noise(c),
{
    ('0' <= c && c <= '9') || c == '(' || c == ')' || c == '.' || c == '-' || c == ' '
}

fn occurs(s: &Vec<char>, i: usize) -> (b: bool)
    ensures
        b == occurs_at(s@, error_marker(), i as int),
{
    if i > s.len() || s.len() - i < 7 {
        return false;
    }
    let r = s[i] == 'e' && s[i + 1] == 'r' && s[i + 2] == 'r' && s[i + 3] == 'o' && s[i + 4]
        == 'r' && s[i + 5] == ':' && s[i + 6] == ' ';
    proof {
        let w = s@.subrange(i as int, i + 7);
        if r {
            assert(w == error_marker());
        } else if w == error_marker() {
            assert(w[0] == 'e' && w[1] == 'r' && w[2] == 'r' && w[3] == 'o' && w[4] == 'r' && w[5]
                == ':' && w[6] == ' ');
        }
    }
    r
}

/// Reduce osascript's stderr to the part worth putting in a footer.
///
/// It arrives as `…:34:36: execution error: Ghostty got an error: msg. (-1728)`,
/// of which only `msg` means anything to the reader. Unrecognised stderr is
/// passed through rather than blanked, so a surprise is still legible.
pub fn tidy_error(stderr: &str) -> (r: String)
    ensures
        r@ == spec_tidy_error(stderr@),
{
    let s = chars_of(stderr);
    let n = s.len();
    // start of the message: after the last "error: "
    let mut start: usize = 0;
    if n >= 7 {
        let mut i: usize = n - 7;
        loop
            invariant_except_break
                start == 0,
            invariant
                s@ == stderr@,
                n == s@.len(),
                n >= 7,
                i <= n - 7,
                last_occurrence(s@, error_marker(), n - 7) == last_occurrence(
                    s@,
                    error_marker(),
                    i as int,
                ),
            ensures
                start == message_start(s@),
                start <= n,
            decreases i,
        {
            if occurs(&s, i) {
                start = i + 7;
                break;
            }
            if i == 0 {
                assert(last_occurrence(s@, error_marker(), -1) is None);
                break;
            }
            i = i - 1;
        }
    } else {
        assert(last_occurrence(s@, error_marker(), n - 7) is None);
    }
    let a = skip_spaces(&s, start, n);
    let b = drop_spaces(&s, a, n);
    let mut e = b;
    while e > a && noise(s[e - 1])
        invariant
            a <= e <= b <= n,
            n == s@.len(),
            drop_noise(s@, a as int, e as int) == drop_noise(s@, a as int, b as int),
        decreases e,
    {
        e = e - 1;
    }
    if e == a {
        owned("osascript failed")
    } else {
        string_range(&s, a, e)
    }
}

/// `s` without leading and trailing white space.
pub fn trim(s: &str) -> (r: String)
    ensures
        r@ == spec_trim(s@),
{
    let v = chars_of(s);
    let a = skip_spaces(&v, 0, v.len());
    let b = drop_spaces(&v, a, v.len());
    string_range(&v, a, b)
}

/// What a run of `osascript` amounts to: its trimmed stdout when it
/// succeeded, else the tidied complaint from its stderr.
pub fn script_outcome(success: bool, stdout: &str, stderr: &str) -> (r: Result<String, String>)
    ensures
        success ==> (r matches Ok(o) && o@ == spec_trim(stdout@)),
        !success ==> (r matches Err(e) && e@ == spec_tidy_error(stderr@)),
{
    if success {
        Ok(trim(stdout))
    } else {
        Err(tidy_error(stderr))
    }
}

// ---------------------------------------------------------------------------
// Scripts
// ---------------------------------------------------------------------------

/// The script that focuses surface `id`, given its quoted form `q`.
pub open spec fn focus_script(q: Seq<char>) -> Seq<char> {
    "tell application \"Ghostty\" to focus terminal id "@ + q
}

/// The script that opens a tab in `qcwd` and types `qinput`, both quoted.
pub open spec fn new_tab_script(qcwd: Seq<char>, qinput: Seq<char>) -> Seq<char> {
    "tell application \"Ghostty\"\n  set cfg to new surface configuration\n  set initial working directory of cfg to "@
        + qcwd + "\n  set initial input of cfg to "@ + qinput
        + "\n  set t to new tab in front window with configuration cfg\n  return id of t\nend tell"@
}

/// The script that raises the window, selects the tab and focuses the split
/// holding surface `id` (a Ghostty surface uuid, as the extension reports
/// it). One Apple event does all three.
pub fn focus(id: &str) -> (r: Result<String, String>)
    ensures
        r matches Ok(script) ==> (spec_quote(id@) matches Ok(q) && script@ == focus_script(q)),
        r matches Err(e) ==> spec_quote(id@) == Err::<Seq<char>, Seq<char>>(e@),
{
    let q = quote(id)?;
    let mut v: Vec<char> = Vec::new();
    push_str(&mut v, "tell application \"Ghostty\" to focus terminal id ");
    push_str(&mut v, q.as_str());
    proof {
        assert(Seq::<char>::empty() + "tell application \"Ghostty\" to focus terminal id "@
            == "tell application \"Ghostty\" to focus terminal id "@);
    }
    Ok(string_of(&v))
}

/// The script that opens a tab in the frontmost window, in `cwd`, and types
/// `command` into its shell followed by a return.
///
/// Typing into the login shell, rather than setting the tab's command, gives
/// `pi` the PATH a tab opened by hand would have, and leaves a prompt behind
/// when it exits. `new tab` requires the `in` parameter.
pub fn new_tab(cwd: &str, command: &str) -> (r: Result<String, String>)
    ensures
        r matches Ok(script) ==> ({
            &&& spec_quote(cwd@) matches Ok(qc)
            &&& spec_quote_with_cr(command@ + seq!['\r']) matches Ok(qi)
            &&& script@ == new_tab_script(qc, qi)
        }),
        r matches Err(e) ==> (spec_quote(cwd@) == Err::<Seq<char>, Seq<char>>(e@) || (
        spec_quote(cwd@) is Ok && spec_quote_with_cr(command@ + seq!['\r']) == Err::<
            Seq<char>,
            Seq<char>,
        >(e@))),
{
    // A trailing return submits the line, as if typed.
    let mut input: Vec<char> = Vec::new();
    push_str(&mut input, command);
    input.push('\r');
    proof {
        assert(input@ == command@ + seq!['\r']);
    }
    let input = string_of(&input);
    let qc = quote(cwd)?;
    let qi = quote_with_cr(input.as_str())?;
    let mut v: Vec<char> = Vec::new();
    push_str(
        &mut v,
        "tell application \"Ghostty\"\n  set cfg to new surface configuration\n  set initial working directory of cfg to ",
    );
    push_str(&mut v, qc.as_str());
    push_str(&mut v, "\n  set initial input of cfg to ");
    push_str(&mut v, qi.as_str());
    push_str(
        &mut v,
        "\n  set t to new tab in front window with configuration cfg\n  return id of t\nend tell",
    );
    proof {
        assert(Seq::<char>::empty()
            + "tell application \"Ghostty\"\n  set cfg to new surface configuration\n  set initial working directory of cfg to "@
            == "tell application \"Ghostty\"\n  set cfg to new surface configuration\n  set initial working directory of cfg to "@);
    }
    Ok(string_of(&v))
}

} // verus!
