//! Character-level helpers shared by the parsers and the renderers.
//!
//! Text is handled as sequences of `char`s. Every function here is stated
//! over `Seq<char>`, the view of `str`, `String` and `Vec<char>`.
use vstd::prelude::*;

verus! {

broadcast use vstd::string::group_string_axioms;

// ---------------------------------------------------------------------------
// Character classes
// ---------------------------------------------------------------------------

/// `A`..=`Z`.
pub open spec fn is_upper(c: char) -> bool {
    'A' <= c && c <= 'Z'
}

/// `a`..=`z`.
pub open spec fn is_lower(c: char) -> bool {
    'a' <= c && c <= 'z'
}

/// `0`..=`9`.
pub open spec fn is_digit(c: char) -> bool {
    '0' <= c && c <= '9'
}

pub open spec fn is_ascii(c: char) -> bool {
    (c as u32) < 128
}

pub open spec fn is_ascii_alnum(c: char) -> bool {
    is_upper(c) || is_lower(c) || is_digit(c)
}

/// What `char::is_alphanumeric` answers for `c` (Unicode `Alphabetic` or `Numeric`).
pub uninterp spec fn unicode_alphanumeric(c: char) -> bool;

/// What `char::is_whitespace` answers for `c` (Unicode `White_Space`).
pub uninterp spec fn unicode_whitespace(c: char) -> bool;

/// Alphanumeric in the Unicode sense. For ASCII this is exactly `[A-Za-z0-9]`.
pub open spec fn is_alnum(c: char) -> bool {
    if is_ascii(c) {
        is_ascii_alnum(c)
    } else {
        unicode_alphanumeric(c)
    }
}

/// White space in the Unicode sense. For ASCII this is tab, line feed,
/// vertical tab, form feed, carriage return and space.
pub open spec fn is_space(c: char) -> bool {
    if is_ascii(c) {
        c == ' ' || ('\t' <= c && c <= '\r')
    } else {
        unicode_whitespace(c)
    }
}

/// `char::is_alphanumeric`.
///
/// The result is named `unicode_alphanumeric`; nothing else is claimed of it.
#[verifier::external_body]
fn std_is_alphanumeric(c: char) -> (b: bool)
    ensures
        b == unicode_alphanumeric(c),
{
    c.is_alphanumeric()
}

/// `char::is_whitespace`.
///
/// The result is named `unicode_whitespace`; nothing else is claimed of it.
#[verifier::external_body]
fn std_is_whitespace(c: char) -> (b: bool)
    ensures
        b == unicode_whitespace(c),
{
    c.is_whitespace()
}

pub fn upper(c: char) -> (b: bool)
    ensures
        b == is_upper(c),
{
    'A' <= c && c <= 'Z'
}

pub fn lower(c: char) -> (b: bool)
    ensures
        b == is_lower(c),
{
    'a' <= c && c <= 'z'
}

pub fn digit(c: char) -> (b: bool)
    ensures
        b == is_digit(c),
{
    '0' <= c && c <= '9'
}

/// Unicode alphanumeric test, answered directly for ASCII.
pub fn alnum(c: char) -> (b: bool)
    ensures
        b == is_alnum(c),
{
    if (c as u32) < 128 {
        upper(c) || lower(c) || digit(c)
    } else {
        std_is_alphanumeric(c)
    }
}

/// Unicode white-space test, answered directly for ASCII.
pub fn space(c: char) -> (b: bool)
    ensures
        b == is_space(c),
{
    if (c as u32) < 128 {
        c == ' ' || ('\t' <= c && c <= '\r')
    } else {
        std_is_whitespace(c)
    }
}

/// ASCII upper-casing of a lower-case letter.
pub open spec fn to_upper(c: char) -> char {
    if is_lower(c) {
        ((c as u32) - 32) as char
    } else {
        c
    }
}

pub fn upper_of(c: char) -> (u: char)
    ensures
        u == to_upper(c),
{
    if 'a' <= c && c <= 'z' {
        let n: u32 = (c as u32) - 32;
        assert(n <= 0x7f);
        n as u8 as char
    } else {
        c
    }
}

// ---------------------------------------------------------------------------
// Decimal numbers
// ---------------------------------------------------------------------------

pub open spec fn digit_char(d: nat) -> char
    recommends
        d < 10,
{
    ((48 + d) as u32) as char
}

/// The decimal digits of `n`, most significant first, with no leading zeros
/// (`0` is the single digit `0`).
pub open spec fn decimal(n: nat) -> Seq<char>
    decreases n,
{
    if n < 10 {
        seq![digit_char(n)]
    } else {
        decimal(n / 10).push(digit_char(n % 10))
    }
}

/// Appends the decimal digits of `n`.
pub fn push_decimal(v: &mut Vec<char>, n: u64)
    ensures
        final(v)@ == old(v)@ + decimal(n as nat),
    decreases n,
{
    if n >= 10 {
        push_decimal(v, n / 10);
    }
    let d: u8 = (n % 10) as u8;
    let c: char = (48u8 + d) as char;
    assert(c == digit_char((n % 10) as nat));
    v.push(c);
    proof {
        if n >= 10 {
            assert(decimal(n as nat) == decimal((n / 10) as nat).push(
                digit_char((n % 10) as nat),
            ));
        }
    }
}

// ---------------------------------------------------------------------------
// Strings and character vectors
// ---------------------------------------------------------------------------

/// The characters of `s`, in order.
pub fn chars_of(s: &str) -> (v: Vec<char>)
    ensures
        v@ == s@,
{
    let mut v: Vec<char> = Vec::new();
    for c in it: s.chars()
        invariant
            v@ == it.seq().take(it.index() as int),
            it.seq() == s@,
    {
        v.push(c);
    }
    v
}

/// `String::from_iter` over `char`s: the string made of exactly these characters.
#[verifier::external_body]
pub fn string_of(v: &Vec<char>) -> (s: String)
    ensures
        s@ == v@,
{
    v.iter().collect()
}

/// Appends the characters of `s`.
pub fn push_str(v: &mut Vec<char>, s: &str)
    ensures
        final(v)@ == old(v)@ + s@,
{
    let ghost start = v@;
    for c in it: s.chars()
        invariant
            v@ == start + it.seq().take(it.index() as int),
            it.seq() == s@,
    {
        v.push(c);
        proof {
            assert(it.seq().take(it.index() + 1) == it.seq().take(it.index() as int).push(c));
        }
    }
    proof {
        assert(s@.take(s@.len() as int) == s@);
    }
}

/// Appends `w[from..to]`.
pub fn push_range(v: &mut Vec<char>, w: &Vec<char>, from: usize, to: usize)
    requires
        from <= to <= w@.len(),
    ensures
        final(v)@ == old(v)@ + w@.subrange(from as int, to as int),
{
    let ghost start = v@;
    let mut i = from;
    while i < to
        invariant
            from <= i <= to <= w@.len(),
            v@ == start + w@.subrange(from as int, i as int),
        decreases to - i,
    {
        v.push(w[i]);
        proof {
            assert(w@.subrange(from as int, i + 1) == w@.subrange(from as int, i as int).push(
                w@[i as int],
            ));
        }
        i = i + 1;
    }
}

/// Appends all of `w`.
pub fn push_all(v: &mut Vec<char>, w: &Vec<char>)
    ensures
        final(v)@ == old(v)@ + w@,
{
    push_range(v, w, 0, w.len());
    proof {
        assert(w@.subrange(0, w@.len() as int) == w@);
    }
}

/// `w[from..to]` as a string.
pub fn string_range(w: &Vec<char>, from: usize, to: usize) -> (s: String)
    requires
        from <= to <= w@.len(),
    ensures
        s@ == w@.subrange(from as int, to as int),
{
    let mut v: Vec<char> = Vec::new();
    push_range(&mut v, w, from, to);
    proof {
        assert(Seq::<char>::empty() + w@.subrange(from as int, to as int) == w@.subrange(
            from as int,
            to as int,
        ));
    }
    string_of(&v)
}

/// Whether `s` and `t` hold the same characters.
pub fn str_eq(s: &str, t: &str) -> (b: bool)
    ensures
        b == (s@ == t@),
{
    let a = chars_of(s);
    let b = chars_of(t);
    if a.len() != b.len() {
        return false;
    }
    let mut i: usize = 0;
    while i < a.len()
        invariant
            a@ == s@,
            b@ == t@,
            a@.len() == b@.len(),
            i <= a@.len(),
            forall|k: int| 0 <= k < i ==> a@[k] == b@[k],
        decreases a@.len() - i,
    {
        if a[i] != b[i] {
            return false;
        }
        i = i + 1;
    }
    proof {
        assert(a@ == b@);
    }
    true
}


/// A `String` holding the characters of `s`.
pub fn owned(s: &str) -> (r: String)
    ensures
        r@ == s@,
{
    let mut v: Vec<char> = Vec::new();
    push_str(&mut v, s);
    proof {
        assert(Seq::<char>::empty() + s@ == s@);
    }
    string_of(&v)
}

/// `n` spaces.
pub open spec fn spaces(n: int) -> Seq<char> {
    Seq::new(if n > 0 { n as nat } else { 0 }, |i: int| ' ')
}

/// Appends `n` spaces.
pub fn push_spaces(v: &mut Vec<char>, n: usize)
    ensures
        final(v)@ == old(v)@ + spaces(n as int),
{
    let ghost start = v@;
    let mut i: usize = 0;
    while i < n
        invariant
            i <= n,
            v@ == start + spaces(i as int),
        decreases n - i,
    {
        v.push(' ');
        proof {
            assert(spaces(i + 1) == spaces(i as int).push(' '));
        }
        i = i + 1;
    }
}

// ---------------------------------------------------------------------------
// Searching
// ---------------------------------------------------------------------------

/// Index of the first `c` in `s` at or after `i`, or `s.len()` if there is none.
pub open spec fn find_from(s: Seq<char>, c: char, i: int) -> int
    decreases s.len() - i,
{
    if i < 0 || i >= s.len() {
        s.len() as int
    } else if s[i] == c {
        i
    } else {
        find_from(s, c, i + 1)
    }
}

pub proof fn lemma_find_from(s: Seq<char>, c: char, i: int)
    requires
        0 <= i <= s.len(),
    ensures
        i <= find_from(s, c, i) <= s.len(),
        find_from(s, c, i) < s.len() ==> s[find_from(s, c, i)] == c,
        forall|k: int| i <= k < find_from(s, c, i) ==> s[k] != c,
    decreases s.len() - i,
{
    if i < s.len() && s[i] != c {
        lemma_find_from(s, c, i + 1);
    }
}

/// Index of the first `c` in `w` at or after `i`, or `w.len()`.
pub fn find_char(w: &Vec<char>, c: char, i: usize) -> (r: usize)
    requires
        i <= w@.len(),
    ensures
        r == find_from(w@, c, i as int),
{
    let mut j = i;
    proof {
        lemma_find_from(w@, c, i as int);
    }
    while j < w.len() && w[j] != c
        invariant
            i <= j <= w@.len(),
            find_from(w@, c, j as int) == find_from(w@, c, i as int),
        decreases w@.len() - j,
    {
        j = j + 1;
    }
    j
}

/// Index just past the last `c` in `s`, or 0 when `s` holds no `c`.
pub open spec fn after_last(s: Seq<char>, c: char) -> int
    decreases s.len(),
{
    if s.len() == 0 {
        0
    } else if s.last() == c {
        s.len() as int
    } else {
        after_last(s.drop_last(), c)
    }
}

pub proof fn lemma_after_last(s: Seq<char>, c: char)
    ensures
        0 <= after_last(s, c) <= s.len(),
        after_last(s, c) > 0 ==> s[after_last(s, c) - 1] == c,
        forall|k: int| after_last(s, c) <= k < s.len() ==> s[k] != c,
    decreases s.len(),
{
    if s.len() > 0 && s.last() != c {
        lemma_after_last(s.drop_last(), c);
        assert forall|k: int| after_last(s, c) <= k < s.len() implies s[k] != c by {
            if k < s.len() - 1 {
                assert(s.drop_last()[k] == s[k]);
            }
        }
    }
}

/// Index just past the last `c` in `w`, or 0.
pub fn after_last_char(w: &Vec<char>, c: char) -> (r: usize)
    ensures
        r == after_last(w@, c),
{
    let mut j = w.len();
    proof {
        assert(w@.subrange(0, w@.len() as int) == w@);
    }
    while j > 0 && w[j - 1] != c
        invariant
            j <= w@.len(),
            after_last(w@.subrange(0, j as int), c) == after_last(w@, c),
        decreases j,
    {
        proof {
            assert(w@.subrange(0, j as int).drop_last() == w@.subrange(0, j - 1));
        }
        j = j - 1;
    }
    proof {
        assert(w@.subrange(0, w@.len() as int) == w@);
        if j > 0 {
            assert(w@.subrange(0, j as int).last() == c);
        }
    }
    j
}

/// Every character of `s[i..j]` is an ASCII digit.
pub open spec fn digits_in(s: Seq<char>, i: int, j: int) -> bool {
    forall|k: int| i <= k < j ==> is_digit(#[trigger] s[k])
}

/// All of `w[from..to]` are ASCII digits.
pub fn all_digits(w: &Vec<char>, from: usize, to: usize) -> (b: bool)
    requires
        from <= to <= w@.len(),
    ensures
        b == digits_in(w@, from as int, to as int),
{
    let mut i = from;
    while i < to
        invariant
            from <= i <= to <= w@.len(),
            digits_in(w@, from as int, i as int),
        decreases to - i,
    {
        if !digit(w[i]) {
            return false;
        }
        i = i + 1;
    }
    true
}

/// Some character of `s[i..j]` is an ASCII digit.
pub open spec fn has_digit_in(s: Seq<char>, i: int, j: int) -> bool {
    exists|k: int| i <= k < j && is_digit(#[trigger] s[k])
}

/// Whether some character of `w[from..to]` is an ASCII digit.
pub fn any_digit(w: &Vec<char>, from: usize, to: usize) -> (b: bool)
    requires
        from <= to <= w@.len(),
    ensures
        b == has_digit_in(w@, from as int, to as int),
{
    let mut i = from;
    while i < to
        invariant
            from <= i <= to <= w@.len(),
            !has_digit_in(w@, from as int, i as int),
        decreases to - i,
    {
        if digit(w[i]) {
            return true;
        }
        i = i + 1;
    }
    false
}

} // verus!
