//! Jira-style ticket keys (`COIN-1234`) found in free text and in buck
//! worktree paths.
use vstd::prelude::*;
use crate::text::{
    all_digits, alnum, chars_of, digit, digits_in, find_char, find_from, is_alnum, is_digit, is_lower,
    is_upper, lemma_find_from, lower, push_range, string_of, string_range, to_upper, upper, upper_of,
};

verus! {

// ---------------------------------------------------------------------------
// Ticket keys in text
// ---------------------------------------------------------------------------

/// A character that may appear in a project key: `A`-`Z` or `0`-`9`.
pub open spec fn is_key_char(c: char) -> bool {
    is_upper(c) || is_digit(c)
}

/// A character that continues a word: alphanumeric, `-` or `_`.
/// Keys must not touch one on either side.
pub open spec fn is_word_char(c: char) -> bool {
    is_alnum(c) || c == '-' || c == '_'
}

/// End of the run of key characters starting at `i`.
pub open spec fn key_run_end(s: Seq<char>, i: int) -> int
    decreases s.len() - i,
{
    if 0 <= i < s.len() && is_key_char(s[i]) {
        key_run_end(s, i + 1)
    } else {
        i
    }
}

/// End of the run of ASCII digits starting at `i`.
pub open spec fn digit_run_end(s: Seq<char>, i: int) -> int
    decreases s.len() - i,
{
    if 0 <= i < s.len() && is_digit(s[i]) {
        digit_run_end(s, i + 1)
    } else {
        i
    }
}

/// A ticket key starts at `i`: an uppercase letter on a word boundary, a run
/// of at least two key characters, `-`, at least one digit, and a word
/// boundary after the digits.
pub open spec fn ticket_at(s: Seq<char>, i: int) -> bool {
    &&& 0 <= i < s.len()
    &&& is_upper(s[i])
    &&& (i == 0 || !is_word_char(s[i - 1]))
    &&& key_run_end(s, i) - i >= 2
    &&& key_run_end(s, i) < s.len()
    &&& s[key_run_end(s, i)] == '-'
    &&& digit_run_end(s, key_run_end(s, i) + 1) > key_run_end(s, i) + 1
    &&& (digit_run_end(s, key_run_end(s, i) + 1) == s.len() || !is_word_char(
        s[digit_run_end(s, key_run_end(s, i) + 1)],
    ))
}

/// Where the ticket key starting at `i` ends.
pub open spec fn ticket_end(s: Seq<char>, i: int) -> int {
    digit_run_end(s, key_run_end(s, i) + 1)
}

/// The first position at or after `i` where a ticket key starts.
pub open spec fn first_ticket_from(s: Seq<char>, i: int) -> Option<int>
    decreases s.len() - i,
{
    if i < 0 || i >= s.len() {
        None
    } else if ticket_at(s, i) {
        Some(i)
    } else {
        first_ticket_from(s, i + 1)
    }
}

/// The first ticket key in `s`, if any.
pub open spec fn spec_find_ticket(s: Seq<char>) -> Option<Seq<char>> {
    match first_ticket_from(s, 0) {
        Some(i) => Some(s.subrange(i, ticket_end(s, i))),
        None => None,
    }
}

pub proof fn lemma_key_run_end(s: Seq<char>, i: int)
    requires
        0 <= i <= s.len(),
    ensures
        i <= key_run_end(s, i) <= s.len(),
        forall|k: int| i <= k < key_run_end(s, i) ==> is_key_char(#[trigger] s[k]),
        key_run_end(s, i) < s.len() ==> !is_key_char(s[key_run_end(s, i)]),
    decreases s.len() - i,
{
    if i < s.len() && is_key_char(s[i]) {
        lemma_key_run_end(s, i + 1);
    }
}

pub proof fn lemma_digit_run_end(s: Seq<char>, i: int)
    requires
        0 <= i <= s.len(),
    ensures
        i <= digit_run_end(s, i) <= s.len(),
        forall|k: int| i <= k < digit_run_end(s, i) ==> is_digit(#[trigger] s[k]),
        digit_run_end(s, i) < s.len() ==> !is_digit(s[digit_run_end(s, i)]),
    decreases s.len() - i,
{
    if i < s.len() && is_digit(s[i]) {
        lemma_digit_run_end(s, i + 1);
    }
}

/// No key starts anywhere in `[i, j)`, so the search may jump from `i` to `j`.
proof fn lemma_skip(s: Seq<char>, i: int, j: int)
    requires
        0 <= i <= j <= s.len(),
        forall|p: int| i <= p < j ==> !ticket_at(s, p),
    ensures
        first_ticket_from(s, i) == first_ticket_from(s, j),
    decreases j - i,
{
    if i < j {
        lemma_skip(s, i + 1, j);
    }
}

/// Whether `c` continues a word.
fn word_char(c: char) -> (b: bool)
    ensures
        b == is_word_char(c),
{
    alnum(c) || c == '-' || c == '_'
}

/// First Jira-style ticket key in `s`, e.g. `COIN-1234`.
///
/// Shape: 2+ uppercase alphanumerics starting with a letter, `-`, then digits,
/// on word boundaries on both sides. Case-sensitive on purpose: lowercase
/// ids such as `utf-8` or `opus-5` are not tickets.
pub fn find_ticket(s: &str) -> (r: Option<String>)
    ensures
        r matches Some(t) ==> spec_find_ticket(s@) == Some(t@),
        r is None <==> spec_find_ticket(s@) is None,
{
    let ch = chars_of(s);
    let n = ch.len();
    let mut i: usize = 0;
    while i < n
        invariant
            ch@ == s@,
            n == ch@.len(),
            i <= n,
            first_ticket_from(s@, 0) == first_ticket_from(s@, i as int),
        decreases n - i,
    {
        // must start at a word boundary on an uppercase letter
        if !upper(ch[i]) || (i > 0 && word_char(ch[i - 1])) {
            proof {
                lemma_skip(s@, i as int, i + 1);
            }
            i = i + 1;
            continue;
        }
        let start = i;
        let mut j = i;
        proof {
            lemma_key_run_end(s@, i as int);
        }
        while j < n && (upper(ch[j]) || digit(ch[j]))
            invariant
                ch@ == s@,
                n == ch@.len(),
                start <= j <= n,
                key_run_end(s@, j as int) == key_run_end(s@, start as int),
            decreases n - j,
        {
            j = j + 1;
        }
        let project_len = j - start;
        // PROJ-123: hyphen, then at least one digit
        if project_len >= 2 && j < n && ch[j] == '-' {
            let digits_start = j + 1;
            let mut k = digits_start;
            while k < n && digit(ch[k])
                invariant
                    ch@ == s@,
                    n == ch@.len(),
                    digits_start <= k <= n,
                    digit_run_end(s@, k as int) == digit_run_end(s@, digits_start as int),
                decreases n - k,
            {
                k = k + 1;
            }
            if k > digits_start && (k == n || !word_char(ch[k])) {
                assert(ticket_at(s@, start as int));
                return Some(string_range(&ch, start, k));
            }
        }
        // Skip the whole run: no shorter match can start inside it.
        proof {
            assert(!ticket_at(s@, start as int));
            assert forall|p: int| start <= p < j implies !ticket_at(s@, p) by {
                if p > start {
                    assert(is_key_char(s@[p - 1]));
                }
            }
        }
        i = if j > start + 1 { j } else { start + 1 };
        proof {
            lemma_skip(s@, start as int, i as int);
        }
    }
    None
}

// ---------------------------------------------------------------------------
// Ticket keys in buck worktree paths
// ---------------------------------------------------------------------------

/// `buck-`
pub open spec fn buck_prefix() -> Seq<char> {
    seq!['b', 'u', 'c', 'k', '-']
}

/// The ticket a single path segment names, when it is `buck-<proj>-<num>[-…]`
/// with `proj` two or more lowercase ASCII letters and `num` one or more
/// ASCII digits: `<PROJ>-<num>`.
pub open spec fn segment_ticket(seg: Seq<char>) -> Option<Seq<char>> {
    if seg.len() >= 5 && seg.take(5) == buck_prefix() {
        let rest = seg.skip(5);
        let dash = find_from(rest, '-', 0);
        let proj = rest.take(dash);
        let after = rest.skip(dash + 1);
        let num = after.take(find_from(after, '-', 0));
        if dash < rest.len() && proj.len() >= 2 && (forall|k: int|
            0 <= k < proj.len() ==> is_lower(#[trigger] proj[k])) && num.len() > 0 && (forall|
            k: int,
        | 0 <= k < num.len() ==> is_digit(#[trigger] num[k])) {
            Some(proj.map_values(|c: char| to_upper(c)) + seq!['-'] + num)
        } else {
            None
        }
    } else {
        None
    }
}

/// The first `/`-separated segment of `s`, from the one starting at `i`,
/// that names a ticket.
pub open spec fn worktree_ticket_from(s: Seq<char>, i: int) -> Option<Seq<char>>
    decreases s.len() - i,
{
    if i < 0 || i > s.len() {
        None
    } else {
        let e = find_from(s, '/', i);
        proof {
            lemma_find_from(s, '/', i);
        }
        match segment_ticket(s.subrange(i, e)) {
            Some(t) => Some(t),
            None => if e < s.len() {
                worktree_ticket_from(s, e + 1)
            } else {
                None
            },
        }
    }
}

/// The ticket a buck worktree path names.
pub open spec fn spec_find_worktree_ticket(path: Seq<char>) -> Option<Seq<char>> {
    worktree_ticket_from(path, 0)
}

/// The ticket that `p[from..to]` names as a buck worktree segment.
#[verifier::loop_isolation(false)]
fn segment_ticket_in(p: &Vec<char>, from: usize, to: usize) -> (r: Option<Vec<char>>)
    requires
        from <= to <= p@.len(),
    ensures
        r matches Some(t) ==> segment_ticket(p@.subrange(from as int, to as int)) == Some(t@),
        r is None <==> segment_ticket(p@.subrange(from as int, to as int)) is None,
{
    let ghost seg = p@.subrange(from as int, to as int);
    if to - from < 5 || p[from] != 'b' || p[from + 1] != 'u' || p[from + 2] != 'c' || p[from
        + 3] != 'k' || p[from + 4] != '-' {
        proof {
            if seg.len() >= 5 && seg.take(5) == buck_prefix() {
                assert(seg.take(5)[0] == 'b');
                assert(seg.take(5)[1] == 'u');
                assert(seg.take(5)[2] == 'c');
                assert(seg.take(5)[3] == 'k');
                assert(seg.take(5)[4] == '-');
            }
        }
        return None;
    }
    assert(seg.take(5) == buck_prefix());
    let rest_start = from + 5;
    let ghost rest = seg.skip(5);
    assert(rest == p@.subrange(rest_start as int, to as int));
    // project: up to the first '-' of the rest
    let mut dash = rest_start;
    while dash < to && p[dash] != '-'
        invariant
            rest_start <= dash <= to <= p@.len(),
            rest == p@.subrange(rest_start as int, to as int),
            find_from(rest, '-', (dash - rest_start) as int) == find_from(rest, '-', 0),
        decreases to - dash,
    {
        dash = dash + 1;
    }
    proof {
        lemma_find_from(rest, '-', 0);
    }
    let ghost d = (dash - rest_start) as int;
    assert(find_from(rest, '-', 0) == d);
    if dash == to {
        return None;
    }
    let ghost proj = rest.take(d);
    let num_start = dash + 1;
    let mut num_end = num_start;
    let ghost after = rest.skip(d + 1);
    assert(after == p@.subrange(num_start as int, to as int));
    while num_end < to && p[num_end] != '-'
        invariant
            num_start <= num_end <= to <= p@.len(),
            after == p@.subrange(num_start as int, to as int),
            find_from(after, '-', (num_end - num_start) as int) == find_from(after, '-', 0),
        decreases to - num_end,
    {
        num_end = num_end + 1;
    }
    let ghost num = after.take(find_from(after, '-', 0));
    assert(num == p@.subrange(num_start as int, num_end as int));
    assert(proj == p@.subrange(rest_start as int, dash as int));
    if dash - rest_start < 2 || num_end == num_start {
        return None;
    }
    let mut k = rest_start;
    while k < dash
        invariant
            rest_start <= k <= dash < to <= p@.len(),
            proj == p@.subrange(rest_start as int, dash as int),
            forall|q: int| 0 <= q < k - rest_start ==> is_lower(#[trigger] proj[q]),
        decreases dash - k,
    {
        if !lower(p[k]) {
            assert(!is_lower(proj[k - rest_start]));
            return None;
        }
        k = k + 1;
    }
    if !all_digits(p, num_start, num_end) {
        proof {
            let q = choose|q: int| num_start <= q < num_end && !is_digit(#[trigger] p@[q]);
            assert(!is_digit(num[q - num_start]));
        }
        return None;
    }
    let mut out: Vec<char> = Vec::new();
    let mut k = rest_start;
    while k < dash
        invariant
            rest_start <= k <= dash < to <= p@.len(),
            proj == p@.subrange(rest_start as int, dash as int),
            out@ == proj.take(k - rest_start).map_values(|c: char| to_upper(c)),
        decreases dash - k,
    {
        let u = upper_of(p[k]);
        out.push(u);
        proof {
            assert(proj.take(k + 1 - rest_start) == proj.take(k - rest_start).push(
                proj[k - rest_start],
            ));
        }
        k = k + 1;
    }
    assert(proj.take(dash - rest_start) == proj);
    out.push('-');
    push_range(&mut out, p, num_start, num_end);
    assert(forall|q: int| 0 <= q < num.len() ==> is_digit(#[trigger] num[q])) by {
        assert forall|q: int| 0 <= q < num.len() implies is_digit(#[trigger] num[q]) by {
            assert(num[q] == p@[num_start + q]);
        }
    }
    Some(out)
}

/// Ticket key out of a buck worktree path, which is lower-kebab and prefixed:
/// `…/.worktrees/buck-coin-2695-pin-actions` -> `COIN-2695`.
///
/// Anchored on the literal `buck-` segment prefix rather than matching
/// lowercase generally, which would match any hyphenated path component.
pub fn find_worktree_ticket(path: &str) -> (r: Option<String>)
    ensures
        r matches Some(t) ==> spec_find_worktree_ticket(path@) == Some(t@),
        r is None <==> spec_find_worktree_ticket(path@) is None,
{
    let p = chars_of(path);
    let n = p.len();
    let mut i: usize = 0;
    loop
        invariant
            p@ == path@,
            n == p@.len(),
            i <= n,
            spec_find_worktree_ticket(path@) == worktree_ticket_from(path@, i as int),
        decreases n - i,
    {
        let e = find_char(&p, '/', i);
        proof {
            lemma_find_from(p@, '/', i as int);
        }
        match segment_ticket_in(&p, i, e) {
            Some(t) => {
                return Some(string_of(&t));
            },
            None => {
                if e < n {
                    i = e + 1;
                } else {
                    return None;
                }
            },
        }
    }
}


// ---------------------------------------------------------------------------
// Laws
// ---------------------------------------------------------------------------

/// The shape of a ticket key: two or more key characters starting with an
/// uppercase letter, `-`, then one or more digits.
pub open spec fn ticket_shaped(t: Seq<char>) -> bool {
    exists|j: int|
        #![trigger t[j]]
        2 <= j < t.len() - 1 && t[j] == '-' && is_upper(t[0]) && (forall|k: int|
            0 <= k < j ==> is_key_char(#[trigger] t[k])) && (forall|k: int|
            j < k < t.len() ==> is_digit(#[trigger] t[k]))
}

proof fn lemma_first_ticket_from(s: Seq<char>, i: int)
    ensures
        first_ticket_from(s, i) matches Some(k) ==> ticket_at(s, k),
    decreases s.len() - i,
{
    if 0 <= i < s.len() && !ticket_at(s, i) {
        lemma_first_ticket_from(s, i + 1);
    }
}

/// Whatever `find_ticket` returns is ticket-shaped.
pub proof fn lemma_found_ticket_is_shaped(s: Seq<char>)
    ensures
        spec_find_ticket(s) matches Some(t) ==> ticket_shaped(t),
{
    lemma_first_ticket_from(s, 0);
    if let Some(i) = first_ticket_from(s, 0) {
        let j = key_run_end(s, i);
        lemma_key_run_end(s, i);
        lemma_digit_run_end(s, j + 1);
        let e = ticket_end(s, i);
        let t = s.subrange(i, e);
        assert(t[j - i] == '-');
        assert forall|k: int| 0 <= k < j - i implies is_key_char(#[trigger] t[k]) by {
            assert(t[k] == s[i + k]);
        }
        assert forall|k: int| j - i < k < t.len() implies is_digit(#[trigger] t[k]) by {
            assert(t[k] == s[i + k]);
        }
        assert(ticket_shaped(t));
    }
}

proof fn lemma_key_run_to(s: Seq<char>, k: int, j: int)
    requires
        0 <= k <= j < s.len(),
        forall|q: int| k <= q < j ==> is_key_char(#[trigger] s[q]),
        !is_key_char(s[j]),
    ensures
        key_run_end(s, k) == j,
    decreases j - k,
{
    if k < j {
        lemma_key_run_to(s, k + 1, j);
    }
}

proof fn lemma_digit_run_to(s: Seq<char>, k: int, e: int)
    requires
        0 <= k <= e <= s.len(),
        forall|q: int| k <= q < e ==> is_digit(#[trigger] s[q]),
        e == s.len() || !is_digit(s[e]),
    ensures
        digit_run_end(s, k) == e,
    decreases e - k,
{
    if k < e {
        lemma_digit_run_to(s, k + 1, e);
    }
}

proof fn lemma_ticket_ahead(s: Seq<char>, k: int, i: int)
    requires
        0 <= k <= i,
        ticket_at(s, i),
    ensures
        first_ticket_from(s, k) matches Some(f) && f <= i,
    decreases i - k,
{
    if k < i && !ticket_at(s, k) {
        lemma_ticket_ahead(s, k + 1, i);
    }
}

/// The search misses no key: wherever `s[i..e]` is, on word boundaries, an
/// uppercase letter followed by one or more further uppercase letters or
/// digits (so a two-character project such as `QA` counts), then `-`, then
/// one or more digits, a ticket is found, starting no later than `i`.
pub proof fn lemma_ticket_is_found(s: Seq<char>, i: int, j: int, e: int)
    requires
        0 <= i,
        i + 2 <= j,
        j + 1 < e <= s.len(),
        is_upper(s[i]),
        forall|q: int| i <= q < j ==> is_key_char(#[trigger] s[q]),
        s[j] == '-',
        forall|q: int| j < q < e ==> is_digit(#[trigger] s[q]),
        i == 0 || !is_word_char(s[i - 1]),
        e == s.len() || !is_word_char(s[e]),
    ensures
        spec_find_ticket(s) is Some,
        first_ticket_from(s, 0) matches Some(f) && f <= i,
{
    lemma_key_run_to(s, i, j);
    lemma_digit_run_to(s, j + 1, e);
    assert(ticket_at(s, i));
    lemma_ticket_ahead(s, 0, i);
}

proof fn lemma_no_upper_no_ticket(s: Seq<char>, i: int)
    requires
        forall|k: int| 0 <= k < s.len() ==> !is_upper(#[trigger] s[k]),
    ensures
        first_ticket_from(s, i) is None,
    decreases s.len() - i,
{
    if 0 <= i < s.len() {
        lemma_no_upper_no_ticket(s, i + 1);
    }
}

/// Matching is case-sensitive: text without an uppercase ASCII letter, such
/// as `utf-8` or `lego-lyra/opus-5`, never yields a ticket.
pub proof fn lemma_lowercase_text_has_no_ticket(s: Seq<char>)
    requires
        forall|k: int| 0 <= k < s.len() ==> !is_upper(#[trigger] s[k]),
    ensures
        spec_find_ticket(s) is None,
{
    lemma_no_upper_no_ticket(s, 0);
}

proof fn lemma_segment_ticket_is_shaped(seg: Seq<char>)
    ensures
        segment_ticket(seg) matches Some(t) ==> ticket_shaped(t),
{
    if let Some(t) = segment_ticket(seg) {
        let rest = seg.skip(5);
        let dash = find_from(rest, '-', 0);
        let proj = rest.take(dash);
        let after = rest.skip(dash + 1);
        let num = after.take(find_from(after, '-', 0));
        let up = proj.map_values(|c: char| to_upper(c));
        assert(t == up + seq!['-'] + num);
        let j = proj.len() as int;
        assert forall|k: int| 0 <= k < j implies is_upper(#[trigger] t[k]) by {
            assert(t[k] == up[k]);
            assert(is_lower(proj[k]));
        }
        assert(t[j] == '-');
        assert forall|k: int| 0 <= k < j implies is_key_char(#[trigger] t[k]) by {
            assert(is_upper(t[k]));
        }
        assert forall|k: int| j < k < t.len() implies is_digit(#[trigger] t[k]) by {
            assert(t[k] == num[k - j - 1]);
        }
        assert(is_upper(t[0]));
        assert(ticket_shaped(t));
    }
}

proof fn lemma_worktree_ticket_from_is_shaped(s: Seq<char>, i: int)
    ensures
        worktree_ticket_from(s, i) matches Some(t) ==> ticket_shaped(t),
    decreases s.len() - i,
{
    if 0 <= i <= s.len() {
        let e = find_from(s, '/', i);
        lemma_find_from(s, '/', i);
        lemma_segment_ticket_is_shaped(s.subrange(i, e));
        if segment_ticket(s.subrange(i, e)) is None && e < s.len() {
            lemma_worktree_ticket_from_is_shaped(s, e + 1);
        }
    }
}

/// Both ways of finding a ticket agree on its shape: a buck worktree
/// segment yields the same kind of key (`COIN-2695`) that text does.
pub proof fn lemma_worktree_ticket_is_shaped(path: Seq<char>)
    ensures
        spec_find_worktree_ticket(path) matches Some(t) ==> ticket_shaped(t),
{
    lemma_worktree_ticket_from_is_shaped(path, 0);
}

} // verus!
