//! The line classifier and parser: each input line is trimmed and read as
//! a day marker, a worked interval, a blank line, or an error.  The first
//! error ends the whole parse.

use vstd::prelude::*;
use vstd::string::StringExecFns;
use vstd::string::StrSliceExecFns;
use crate::model::{Date, Entry, Time, TimeRange, entry_wf, invalid_date_msg, invalid_time_msg};
use crate::scan::{
    chars_of,
    copy_range,
    digit_val,
    digits_end,
    is_digit,
    is_space,
    lemma_digits_end,
    lemma_line_end,
    line_end,
    scan_digits,
    scan_line_end,
    scan_spaces,
    spaces_end,
};

verus! {

/// Index just past the kept part of `s` once trailing white space is
/// dropped.
pub open spec fn trim_end(s: Seq<char>) -> int
    decreases s.len(),
{
    if s.len() > 0 && is_space(s[s.len() - 1]) {
        trim_end(s.drop_last())
    } else {
        s.len() as int
    }
}

/// `s` without leading and trailing white space.
pub open spec fn trim(s: Seq<char>) -> Seq<char> {
    let e = trim_end(s);
    if e == 0 {
        Seq::empty()
    } else {
        s.subrange(spaces_end(s, 0), e)
    }
}

proof fn lemma_trim_end(s: Seq<char>)
    ensures
        0 <= trim_end(s) <= s.len(),
        trim_end(s) == 0 || !is_space(s[trim_end(s) - 1]),
        forall|k: int| trim_end(s) <= k < s.len() ==> is_space(s[k]),
    decreases s.len(),
{
    if s.len() > 0 && is_space(s[s.len() - 1]) {
        lemma_trim_end(s.drop_last());
        assert forall|k: int| trim_end(s) <= k < s.len() implies is_space(s[k]) by {
            if k < s.len() - 1 {
                assert(s.drop_last()[k] == s[k]);
            }
        }
    }
}

/// The bounds within `s` of the trimmed form of the line `s[p..q]`.
fn trim_bounds(s: &Vec<char>, p: usize, q: usize) -> (r: (usize, usize))
    requires
        p <= q <= s@.len(),
    ensures
        p <= r.0 <= r.1 <= q,
        s@.subrange(r.0 as int, r.1 as int) == trim(s@.subrange(p as int, q as int)),
{
    let ghost t = s@.subrange(p as int, q as int);
    let mut b = q;
    while b > p && crate::scan::space_char(s[b - 1])
        invariant
            p <= b <= q <= s@.len(),
            t == s@.subrange(p as int, q as int),
            trim_end(t) == trim_end(s@.subrange(p as int, b as int)),
        decreases b,
    {
        proof {
            assert(s@.subrange(p as int, b as int).drop_last() =~= s@.subrange(
                p as int,
                b - 1 as int,
            ));
        }
        b = b - 1;
    }
    if b == p {
        proof {
            assert(trim_end(t) == 0);
            assert(trim(t) =~= s@.subrange(p as int, p as int));
        }
        return (p, p);
    }
    proof {
        assert(trim_end(s@.subrange(p as int, b as int)) == b - p);
    }
    let mut a = p;
    while a < b && crate::scan::space_char(s[a])
        invariant
            p <= a < b <= q <= s@.len(),
            t == s@.subrange(p as int, q as int),
            trim_end(t) == b - p,
            !is_space(s@[b - 1]),
            spaces_end(t, 0) == spaces_end(t, a - p),
        decreases b - a,
    {
        proof {
            assert(t[a - p] == s@[a as int]);
        }
        a = a + 1;
    }
    proof {
        assert(t[a - p] == s@[a as int]);
        assert(spaces_end(t, a - p) == a - p);
        assert(trim(t) =~= s@.subrange(a as int, b as int));
    }
    (a, b)
}

/// The numeric value of a digit sequence, most significant digit first.
pub open spec fn num_val(s: Seq<char>) -> nat
    decreases s.len(),
{
    if s.len() == 0 {
        0
    } else {
        num_val(s.drop_last()) * 10 + digit_val(s.last())
    }
}

/// Parses the digits `s[from..to]` as a number of at most two digits.
fn parse_num(s: &Vec<char>, from: usize, to: usize) -> (v: u32)
    requires
        from <= to <= s@.len(),
        to - from <= 2,
        forall|k: int| from <= k < to ==> is_digit(s@[k]),
    ensures
        v as nat == num_val(s@.subrange(from as int, to as int)),
        v <= 99,
{
    let mut v: u32 = 0;
    let mut i = from;
    while i < to
        invariant
            from <= i <= to <= s@.len(),
            to - from <= 2,
            forall|k: int| from <= k < to ==> is_digit(s@[k]),
            v as nat == num_val(s@.subrange(from as int, i as int)),
            i - from == 0 ==> v == 0,
            i - from <= 1 ==> v <= 9,
            v <= 99,
        decreases to - i,
    {
        let d: u32 = s[i] as u32 - 48;
        proof {
            assert(s@.subrange(from as int, i + 1 as int).drop_last() =~= s@.subrange(
                from as int,
                i as int,
            ));
            assert(s@.subrange(from as int, i + 1 as int).last() == s@[i as int]);
        }
        v = v * 10 + d;
        i = i + 1;
    }
    v
}

/// The two numeric groups of a day-marker line: one or two digits, then
/// optional white space, a slash, optional white space, and one or two
/// digits ending the line.
pub open spec fn date_groups(s: Seq<char>) -> Option<(nat, nat)> {
    let j1 = digits_end(s, 0);
    if !(1 <= j1 <= 2) {
        None
    } else {
        let k = spaces_end(s, j1);
        if !(k < s.len() && s[k] == '/') {
            None
        } else {
            let k2 = spaces_end(s, k + 1);
            let j2 = digits_end(s, k2);
            if !(j2 == s.len() && 1 <= j2 - k2 <= 2) {
                None
            } else {
                Some((num_val(s.subrange(0, j1)), num_val(s.subrange(k2, j2))))
            }
        }
    }
}

/// The four numeric groups of an interval line: hour and minute digits
/// around a colon, optional white space, a dash, optional white space, and
/// a second hour-colon-minute pair ending the line.
pub open spec fn time_groups(s: Seq<char>) -> Option<(nat, nat, nat, nat)> {
    let j1 = digits_end(s, 0);
    if !(1 <= j1 <= 2 && j1 < s.len() && s[j1] == ':') {
        None
    } else {
        let j2 = digits_end(s, j1 + 1);
        if !(1 <= j2 - (j1 + 1) <= 2) {
            None
        } else {
            let k = spaces_end(s, j2);
            if !(k < s.len() && s[k] == '-') {
                None
            } else {
                let k2 = spaces_end(s, k + 1);
                let j3 = digits_end(s, k2);
                if !(1 <= j3 - k2 <= 2 && j3 < s.len() && s[j3] == ':') {
                    None
                } else {
                    let j4 = digits_end(s, j3 + 1);
                    if !(j4 == s.len() && 1 <= j4 - (j3 + 1) <= 2) {
                        None
                    } else {
                        Some(
                            (
                                num_val(s.subrange(0, j1)),
                                num_val(s.subrange(j1 + 1, j2)),
                                num_val(s.subrange(k2, j3)),
                                num_val(s.subrange(j3 + 1, j4)),
                            ),
                        )
                    }
                }
            }
        }
    }
}

/// Reads a trimmed line as a day marker, returning the raw month and day.
fn try_date(t: &Vec<char>) -> (r: Option<(u32, u32)>)
    ensures
        match r {
            Some(g) => date_groups(t@) == Some(((g.0 as nat), (g.1 as nat))) && g.0 <= 99 && g.1
                <= 99,
            None => date_groups(t@) is None,
        },
{
    let n = t.len();
    let j1 = scan_digits(t, 0);
    if j1 < 1 || j1 > 2 {
        return None;
    }
    let k = scan_spaces(t, j1);
    if k == n || t[k] != '/' {
        return None;
    }
    let k2 = scan_spaces(t, k + 1);
    let j2 = scan_digits(t, k2);
    if j2 != n || j2 - k2 < 1 || j2 - k2 > 2 {
        return None;
    }
    proof {
        lemma_digits_end(t@, 0);
        lemma_digits_end(t@, k2 as int);
    }
    let m = parse_num(t, 0, j1);
    let d = parse_num(t, k2, j2);
    Some((m, d))
}

/// Reads a trimmed line as a worked interval, returning the four raw
/// values in their left-to-right order.
fn try_time(t: &Vec<char>) -> (r: Option<(u32, u32, u32, u32)>)
    ensures
        match r {
            Some(g) => time_groups(t@) == Some(
                ((g.0 as nat), (g.1 as nat), (g.2 as nat), (g.3 as nat)),
            ) && g.0 <= 99 && g.1 <= 99 && g.2 <= 99 && g.3 <= 99,
            None => time_groups(t@) is None,
        },
{
    let n = t.len();
    let j1 = scan_digits(t, 0);
    if j1 < 1 || j1 > 2 || j1 == n || t[j1] != ':' {
        return None;
    }
    let j2 = scan_digits(t, j1 + 1);
    if j2 - (j1 + 1) < 1 || j2 - (j1 + 1) > 2 {
        return None;
    }
    let k = scan_spaces(t, j2);
    if k == n || t[k] != '-' {
        return None;
    }
    let k2 = scan_spaces(t, k + 1);
    let j3 = scan_digits(t, k2);
    if j3 - k2 < 1 || j3 - k2 > 2 || j3 == n || t[j3] != ':' {
        return None;
    }
    let j4 = scan_digits(t, j3 + 1);
    if j4 != n || j4 - (j3 + 1) < 1 || j4 - (j3 + 1) > 2 {
        return None;
    }
    proof {
        lemma_digits_end(t@, 0);
        lemma_digits_end(t@, j1 + 1 as int);
        lemma_digits_end(t@, k2 as int);
        lemma_digits_end(t@, j3 + 1 as int);
    }
    let sh = parse_num(t, 0, j1);
    let sm = parse_num(t, j1 + 1, j2);
    let eh = parse_num(t, k2, j3);
    let em = parse_num(t, j3 + 1, j4);
    Some((sh, sm, eh, em))
}

/// Message for a non-blank line matching neither pattern.
pub open spec fn unrecognized_msg() -> Seq<char> {
    "Doesn't look like date or time range"@
}

/// What one trimmed line means: an entry, nothing (blank), or an error
/// message.  The day-marker pattern is tried before the interval pattern,
/// so a line matching the former is never read as the latter.
pub open spec fn line_result(t: Seq<char>) -> Result<Option<Entry>, Seq<char>> {
    match date_groups(t) {
        Some(g) => if 1 <= g.0 <= 12 && 1 <= g.1 <= 31 {
            Ok(Some(Entry::DateEntry(Date { month: g.0 as u32, day: g.1 as u32 })))
        } else {
            Err(invalid_date_msg(g.0, g.1))
        },
        None => match time_groups(t) {
            Some(g) => if !(1 <= g.0 <= 12 && g.1 <= 59) {
                Err(invalid_time_msg(g.0, g.1))
            } else if !(1 <= g.2 <= 12 && g.3 <= 59) {
                Err(invalid_time_msg(g.2, g.3))
            } else {
                Ok(
                    Some(
                        Entry::TimeRangeEntry(
                            TimeRange {
                                start: Time { hours: g.0 as u32, minutes: g.1 as u32 },
                                end: Time { hours: g.2 as u32, minutes: g.3 as u32 },
                            },
                        ),
                    ),
                )
            },
            None => if t.len() == 0 {
                Ok(None)
            } else {
                Err(unrecognized_msg())
            },
        },
    }
}

/// Classifies one trimmed line, validating the values of a matched
/// pattern.
fn classify_line(t: &Vec<char>) -> (r: Result<Option<Entry>, String>)
    ensures
        line_result(t@) matches Ok(o) ==> (r matches Ok(o2) && o2 == o),
        line_result(t@) matches Err(m) ==> (r matches Err(e) && e@ == m),
        r matches Ok(Some(e)) ==> entry_wf(e),
{
    match try_date(t) {
        Some((m, d)) => match Date::new(m, d) {
            Ok(date) => Ok(Some(Entry::DateEntry(date))),
            Err(e) => Err(e),
        },
        None => match try_time(t) {
            Some((sh, sm, eh, em)) => match TimeRange::new(sh, sm, eh, em) {
                Ok(tr) => Ok(Some(Entry::TimeRangeEntry(tr))),
                Err(e) => Err(e),
            },
            None => if t.len() == 0 {
                Ok(None)
            } else {
                Err(String::from_str("Doesn't look like date or time range"))
            },
        },
    }
}

/// How many line feeds `s` holds; one more than that is the 1-based
/// number of the line an input continues with after `s`.
pub open spec fn count_newlines(s: Seq<char>) -> int
    decreases s.len(),
{
    if s.len() == 0 {
        0
    } else {
        count_newlines(s.drop_last()) + if s.last() == '\n' {
            1int
        } else {
            0int
        }
    }
}

proof fn lemma_count_newlines_flat(s: Seq<char>, p: int, q: int)
    requires
        0 <= p <= q <= s.len(),
        forall|k: int| p <= k < q ==> s[k] != '\n',
    ensures
        count_newlines(s.take(q)) == count_newlines(s.take(p)),
    decreases q - p,
{
    if p < q {
        lemma_count_newlines_flat(s, p, q - 1);
        assert(s.take(q).drop_last() =~= s.take(q - 1));
    }
}

/// The number of line feeds among the first `p` characters.
fn count_newlines_upto(s: &Vec<char>, p: usize) -> (c: usize)
    requires
        p <= s@.len(),
    ensures
        c == count_newlines(s@.take(p as int)),
        c <= p,
{
    let mut c: usize = 0;
    let mut i: usize = 0;
    while i < p
        invariant
            i <= p <= s@.len(),
            c <= i,
            c == count_newlines(s@.take(i as int)),
        decreases p - i,
    {
        proof {
            assert(s@.take(i + 1 as int).drop_last() =~= s@.take(i as int));
        }
        if s[i] == '\n' {
            c = c + 1;
        }
        i = i + 1;
    }
    c
}

/// A fatal parse failure: the 1-based line number, the trimmed line text,
/// and the cause.
#[derive(Debug)]
pub struct ParseError {
    pub line_no: usize,
    pub line: String,
    pub msg: String,
}

/// The meaning of the input from character `p` on, its first line being
/// line `lineno`: the entries of the remaining lines in order, or the
/// first error.
pub open spec fn spec_parse_from(s: Seq<char>, p: int, lineno: int) -> Result<
    Seq<Entry>,
    (int, Seq<char>, Seq<char>),
>
    decreases s.len() - p,
{
    let q = line_end(s, p);
    let t = trim(s.subrange(p, q));
    let rest = if p <= q && q < s.len() {
        spec_parse_from(s, q + 1, lineno + 1)
    } else {
        Ok(seq![])
    };
    match line_result(t) {
        Err(msg) => Err((lineno, t, msg)),
        Ok(None) => rest,
        Ok(Some(e)) => match rest {
            Ok(es) => Ok(seq![e] + es),
            Err(err) => Err(err),
        },
    }
}

/// The meaning of a whole input text: one entry per non-blank matched
/// line, in input order, or the first error with its line number, trimmed
/// line text and message.
pub open spec fn spec_parse(s: Seq<char>) -> Result<Seq<Entry>, (int, Seq<char>, Seq<char>)> {
    spec_parse_from(s, 0, 1)
}

/// Parses the whole input, line by line.  Blank lines are skipped; the
/// first bad line aborts the parse with its line number, trimmed text and
/// cause.
pub fn parse_user_input(input: String) -> (r: Result<Vec<Entry>, ParseError>)
    ensures
        r matches Ok(v) ==> (spec_parse(input@) matches Ok(es) && v@ == es),
        r matches Ok(v) ==> forall|i: int| 0 <= i < v@.len() ==> entry_wf(#[trigger] v@[i]),
        r matches Err(e) ==> (spec_parse(input@) matches Err(t) && e.line_no as int == t.0
            && e.line@ == t.1 && e.msg@ == t.2),
{
    let chars = chars_of(input.as_str());
    let n = chars.len();
    let mut entries: Vec<Entry> = Vec::new();
    let mut p: usize = 0;
    proof {
        assert(input@.take(0) =~= Seq::<char>::empty());
    }
    loop
        invariant
            chars@ == input@,
            n == chars@.len(),
            p <= n,
            forall|i: int| 0 <= i < entries@.len() ==> entry_wf(#[trigger] entries@[i]),
            spec_parse_from(input@, p as int, count_newlines(input@.take(p as int)) + 1) matches Ok(
                es,
            ) ==> (spec_parse(input@) matches Ok(all) && all == entries@ + es),
            spec_parse_from(input@, p as int, count_newlines(input@.take(p as int)) + 1) is Err
                ==> spec_parse(input@) == spec_parse_from(
                input@,
                p as int,
                count_newlines(input@.take(p as int)) + 1,
            ),
        decreases n - p,
    {
        let ghost ln = count_newlines(input@.take(p as int)) + 1;
        let q = scan_line_end(&chars, p);
        let (a, b) = trim_bounds(&chars, p, q);
        let t = copy_range(&chars, a, b);
        proof {
            lemma_line_end(input@, p as int);
        }
        match classify_line(&t) {
            Err(msg) => {
                // An erring line is never blank, so it starts strictly
                // before the end of the text and the count below fits.
                proof {
                    assert(t@.len() > 0);
                    assert(p < n);
                }
                let cnt = count_newlines_upto(&chars, p);
                let line = input.as_str().substring_char(a, b).to_owned();
                return Err(ParseError { line_no: cnt + 1, line, msg });
            },
            Ok(opt) => {
                proof {
                    if let Ok(Some(e)) = line_result(t@) {
                        assert(entries@.push(e) =~= entries@ + seq![e]);
                        if q < n {
                            if let Ok(es) = spec_parse_from(input@, q + 1 as int, ln + 1) {
                                assert(entries@ + (seq![e] + es) =~= (entries@ + seq![e]) + es);
                            }
                        } else {
                            assert(seq![e] + seq![] =~= seq![e]);
                            assert(entries@ + seq![e] =~= (entries@ + seq![e]) + seq![]);
                        }
                    }
                }
                match opt {
                    Some(e) => entries.push(e),
                    None => {},
                }
            },
        }
        if q < n {
            proof {
                lemma_count_newlines_flat(input@, p as int, q as int);
                assert(input@.take(q + 1 as int).drop_last() =~= input@.take(q as int));
                assert(count_newlines(input@.take(q + 1 as int)) + 1 == ln + 1);
            }
            p = q + 1;
        } else {
            proof {
                if let Ok(es) = spec_parse_from(input@, p as int, ln) {
                    assert(entries@ =~= entries@ + seq![]);
                }
            }
            return Ok(entries);
        }
    }
}

} // verus!
