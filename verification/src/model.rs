//! Readable model names out of raw `provider/id` strings.
use vstd::prelude::*;
use crate::text::{
    after_last, after_last_char, all_digits, any_digit, chars_of, digits_in, find_char, find_from,
    has_digit_in, lemma_after_last, lemma_find_from, string_range,
};

verus! {

/// Where the id proper starts, from `i`: leading `.`-separated namespace
/// segments (`eu.anthropic.`) are skipped, but only while the segment is
/// non-empty and holds no digit, so version dots (`gpt-5.6`) survive.
pub open spec fn namespace_end(s: Seq<char>, i: int) -> int
    decreases s.len() - i,
{
    if i < 0 || i > s.len() {
        i
    } else {
        let d = find_from(s, '.', i);
        if d < s.len() && d > i && !has_digit_in(s, i, d) {
            namespace_end(s, d + 1)
        } else {
            i
        }
    }
}

/// The start of the first `-`-separated part of `s[i..end]`, from the part
/// starting at `i`, that is a date stamp: four or more ASCII digits.
pub open spec fn date_part_from(s: Seq<char>, i: int, end: int) -> Option<int>
    decreases end - i,
{
    if i < 0 || i > end || end > s.len() {
        None
    } else {
        let f = find_from(s, '-', i);
        let e = if f < end {
            f
        } else {
            end
        };
        proof {
            lemma_find_from(s, '-', i);
        }
        if e - i >= 4 && digits_in(s, i, e) {
            Some(i)
        } else if e < end {
            date_part_from(s, e + 1, end)
        } else {
            None
        }
    }
}

/// The tidied model name: after the last `/`, past vendor namespaces,
/// before any `:` revision, and cut before the first date-stamp part; if that
/// cut leaves nothing, the tail before the `:` is kept whole.
pub open spec fn spec_prettify_model_id(id: Seq<char>) -> Seq<char> {
    let b = namespace_end(id, after_last(id, '/'));
    let end = find_from(id, ':', b);
    let cut = match date_part_from(id, b, end) {
        Some(p) => if p == b {
            b
        } else {
            p - 1
        },
        None => end,
    };
    if cut == b {
        id.subrange(b, end)
    } else {
        id.subrange(b, cut)
    }
}

proof fn lemma_namespace_end(s: Seq<char>, i: int)
    requires
        0 <= i <= s.len(),
    ensures
        i <= namespace_end(s, i) <= s.len(),
    decreases s.len() - i,
{
    lemma_find_from(s, '.', i);
    let d = find_from(s, '.', i);
    if d < s.len() && d > i && !has_digit_in(s, i, d) {
        lemma_namespace_end(s, d + 1);
    }
}

proof fn lemma_date_part_from(s: Seq<char>, i: int, end: int)
    requires
        0 <= i <= end <= s.len(),
    ensures
        date_part_from(s, i, end) matches Some(p) ==> i <= p <= end && (p == i || p >= i + 1),
        date_part_from(s, i, end) matches Some(p) ==> p > i ==> s[p - 1] == '-',
    decreases end - i,
{
    lemma_find_from(s, '-', i);
    let f = find_from(s, '-', i);
    let e = if f < end {
        f
    } else {
        end
    };
    if !(e - i >= 4 && digits_in(s, i, e)) && e < end {
        lemma_date_part_from(s, e + 1, end);
    }
}

/// `lego-openai/gpt-5.6-sol-2026-07-09` -> `gpt-5.6-sol`
pub fn prettify_model_id(id: &str) -> (r: String)
    ensures
        r@ == spec_prettify_model_id(id@),
{
    let s = chars_of(id);
    let n = s.len();
    // drop provider prefix
    let slash = after_last_char(&s, '/');
    proof {
        lemma_after_last(s@, '/');
    }
    let mut b = slash;
    // drop vendor namespacing (eu.anthropic.lyra-…), but not version dots
    loop
        invariant
            s@ == id@,
            n == s@.len(),
            slash <= b <= n,
            namespace_end(s@, slash as int) == namespace_end(s@, b as int),
        ensures
            slash <= b <= n,
            namespace_end(s@, slash as int) == b,
        decreases n - b,
    {
        let d = find_char(&s, '.', b);
        proof {
            lemma_find_from(s@, '.', b as int);
        }
        if d < n && d > b && !any_digit(&s, b, d) {
            b = d + 1;
        } else {
            break;
        }
    }
    // drop a trailing vN:N revision (…-v1:0)
    let end = find_char(&s, ':', b);
    proof {
        lemma_find_from(s@, ':', b as int);
        lemma_date_part_from(s@, b as int, end as int);
    }
    // truncate at the first date-ish run of digits: -2026-07-09 or -20251001
    let mut i = b;
    let mut cut = end;
    loop
        invariant_except_break
            cut == end,
        invariant
            s@ == id@,
            n == s@.len(),
            b <= i <= end <= n,
            date_part_from(s@, b as int, end as int) == date_part_from(s@, i as int, end as int),
        ensures
            cut == (match date_part_from(s@, b as int, end as int) {
                Some(p) => if p == b {
                    b as int
                } else {
                    p - 1
                },
                None => end as int,
            }),
        decreases end - i,
    {
        let f = find_char(&s, '-', i);
        proof {
            lemma_find_from(s@, '-', i as int);
        }
        let e = if f < end {
            f
        } else {
            end
        };
        if e - i >= 4 && all_digits(&s, i, e) {
            cut = if i == b {
                b
            } else {
                i - 1
            };
            break;
        }
        if e < end {
            i = e + 1;
        } else {
            break;
        }
    }
    if cut == b {
        string_range(&s, b, end)
    } else {
        string_range(&s, b, cut)
    }
}

/// A tidied model name is never empty unless the id itself has nothing
/// between its provider prefix and its `:` revision.
pub proof fn lemma_prettify_never_blanks(id: Seq<char>)
    ensures
        ({
            let b = namespace_end(id, after_last(id, '/'));
            spec_prettify_model_id(id).len() == 0 ==> find_from(id, ':', b) == b
        }),
{
    lemma_after_last(id, '/');
    let b = namespace_end(id, after_last(id, '/'));
    lemma_namespace_end(id, after_last(id, '/'));
    lemma_find_from(id, ':', b);
    lemma_date_part_from(id, b, find_from(id, ':', b));
}

/// A tidied model name never keeps a `:` revision nor a provider prefix:
/// it is a stretch of the id that starts past the last `/` and its vendor
/// namespaces and ends no later than the first `:` after that, so it holds
/// neither `:` nor `/`.
pub proof fn lemma_prettify_drops_revision(id: Seq<char>)
    ensures
        ({
            let b = namespace_end(id, after_last(id, '/'));
            let r = spec_prettify_model_id(id);
            &&& after_last(id, '/') <= b
            &&& exists|c: int| b <= c <= find_from(id, ':', b) && r == id.subrange(b, c)
            &&& forall|k: int| 0 <= k < r.len() ==> r[k] != ':' && r[k] != '/'
        }),
{
    lemma_after_last(id, '/');
    let a = after_last(id, '/');
    let b = namespace_end(id, a);
    lemma_namespace_end(id, a);
    lemma_find_from(id, ':', b);
    let end = find_from(id, ':', b);
    lemma_date_part_from(id, b, end);
    let r = spec_prettify_model_id(id);
    let cut = match date_part_from(id, b, end) {
        Some(p) => if p == b {
            b
        } else {
            p - 1
        },
        None => end,
    };
    let c = if cut == b {
        end
    } else {
        cut
    };
    assert(b <= c <= end && r == id.subrange(b, c));
    assert forall|k: int| 0 <= k < r.len() implies r[k] != ':' && r[k] != '/' by {
        assert(r[k] == id[b + k]);
    }
}

} // verus!
