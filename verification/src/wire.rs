//! Framing of the NDJSON stream the extensions write to the socket.
use vstd::prelude::*;
use crate::ghostty::{spec_trim, trim};
use crate::text::{chars_of, push_range, string_of};

verus! {

/// A line as read, without one trailing carriage return.
pub open spec fn without_cr(line: Seq<char>) -> Seq<char> {
    if line.len() > 0 && line.last() == '\r' {
        line.drop_last()
    } else {
        line
    }
}

/// The report text a line carries: the line without a trailing carriage
/// return, or nothing when it is blank.
pub open spec fn spec_report_line(line: Seq<char>) -> Option<Seq<char>> {
    if spec_trim(without_cr(line)).len() == 0 {
        None
    } else {
        Some(without_cr(line))
    }
}

/// The report text in one line of the stream (split on `\n` only), or
/// `None` for a blank line, which is skipped.
pub fn report_line(line: &str) -> (r: Option<String>)
    ensures
        r matches Some(t) ==> spec_report_line(line@) == Some(t@),
        r is None <==> spec_report_line(line@) is None,
{
    let v = chars_of(line);
    let n = v.len();
    let end = if n > 0 && v[n - 1] == '\r' {
        n - 1
    } else {
        n
    };
    let mut w: Vec<char> = Vec::new();
    push_range(&mut w, &v, 0, end);
    proof {
        assert(Seq::<char>::empty() + v@.subrange(0, end as int) == without_cr(line@));
    }
    let s = string_of(&w);
    let t = trim(s.as_str());
    if t.as_str().is_empty() {
        None
    } else {
        Some(s)
    }
}

} // verus!
