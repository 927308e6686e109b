//! The accumulator: one pass over the entry sequence, flushing a day's
//! total when a new day marker arrives and once more at the end, plus the
//! grand total over all days.

use vstd::prelude::*;
use vstd::string::StringExecFns;
use vstd::string::StrSliceExecFns;
use crate::model::{Date, Entry, entry_wf};
use crate::numfmt::{decimal, format_minutes, spec_format_minutes};

verus! {

/// More entries than any vector can hold: each entry takes several bytes,
/// so a count beyond this cannot arise, and below it every minute total
/// fits comfortably in a `u64`.
pub const MAX_ENTRIES: u64 = 0x20_0000_0000_0000;

/// `n` spaces.
pub open spec fn spaces(n: int) -> Seq<char> {
    Seq::new(n as nat, |i: int| ' ')
}

/// `s` padded on the left with spaces to width `w`.
pub open spec fn pad_left(s: Seq<char>, w: int) -> Seq<char> {
    if s.len() >= w {
        s
    } else {
        spaces(w - s.len()) + s
    }
}

/// The label opening a day's line: "month/day" right-aligned to five
/// characters, then a colon and a space.  The total follows on the same
/// line once the day is flushed.
pub open spec fn spec_label(d: Date) -> Seq<char> {
    pad_left(decimal(d.month as nat) + "/"@ + decimal(d.day as nat), 5) + ": "@
}

/// One day's flushed total: the formatted minutes and a line break.
pub open spec fn spec_flush(day: int) -> Seq<char> {
    if day > 0 {
        spec_format_minutes(day as nat) + "\n"@
    } else {
        Seq::empty()
    }
}

/// The text the accumulator emits for `entries`, starting with `day`
/// minutes already on the running day: a day marker first flushes the
/// running total (when it is positive), then emits its label; an interval
/// adds its minutes silently; the last day is flushed at the end.
pub open spec fn spec_report(entries: Seq<Entry>, day: int) -> Seq<char>
    decreases entries.len(),
{
    if entries.len() == 0 {
        spec_flush(day)
    } else {
        match entries[0] {
            Entry::DateEntry(d) => spec_flush(day) + spec_label(d) + spec_report(
                entries.drop_first(),
                0,
            ),
            Entry::TimeRangeEntry(tr) => spec_report(entries.drop_first(), day + tr.spec_minutes()),
        }
    }
}

/// The grand total: every interval's minutes count toward it, whichever
/// day they fall on.
pub open spec fn spec_total(entries: Seq<Entry>) -> int
    decreases entries.len(),
{
    if entries.len() == 0 {
        0
    } else {
        match entries[0] {
            Entry::DateEntry(_) => spec_total(entries.drop_first()),
            Entry::TimeRangeEntry(tr) => tr.spec_minutes() + spec_total(entries.drop_first()),
        }
    }
}

/// Whether every entry is well formed; the accumulator needs this to
/// bound each interval by the 720-minute cycle.
pub fn entries_wf(entries: &Vec<Entry>) -> (b: bool)
    ensures
        b == forall|i: int| 0 <= i < entries@.len() ==> entry_wf(#[trigger] entries@[i]),
{
    let n = entries.len();
    let mut i: usize = 0;
    while i < n
        invariant
            i <= n == entries@.len(),
            forall|k: int| 0 <= k < i ==> entry_wf(#[trigger] entries@[k]),
        decreases n - i,
    {
        let ok = match entries[i] {
            Entry::DateEntry(_) => true,
            Entry::TimeRangeEntry(tr) => 1 <= tr.start.hours && tr.start.hours <= 12
                && tr.start.minutes <= 59 && 1 <= tr.end.hours && tr.end.hours <= 12
                && tr.end.minutes <= 59,
        };
        if !ok {
            return false;
        }
        i = i + 1;
    }
    true
}

/// Appends the label of day `d` to `out`.
fn push_label(out: &mut String, d: &Date)
    ensures
        final(out)@ == old(out)@ + spec_label(*d),
{
    let ds = d.to_s();
    let len = ds.as_str().unicode_len();
    let ghost base = out@;
    let pad: usize = if len >= 5 {
        0
    } else {
        5 - len
    };
    let mut k: usize = 0;
    while k < pad
        invariant
            k <= pad,
            out@ == base + spaces(k as int),
        decreases pad - k,
    {
        out.append(" ");
        proof {
            reveal_strlit(" ");
            assert(base + spaces(k as int) + " "@ =~= base + spaces(k + 1 as int));
        }
        k = k + 1;
    }
    out.append(ds.as_str());
    out.append(": ");
    proof {
        assert(len == ds@.len());
        assert(out@ =~= base + spec_label(*d));
    }
}

/// Walks the entries once and returns the report text for the days and
/// the grand total in minutes.
pub fn process_entries(entries: &Vec<Entry>) -> (r: (String, u64))
    requires
        entries@.len() <= MAX_ENTRIES,
        forall|i: int| 0 <= i < entries@.len() ==> entry_wf(#[trigger] entries@[i]),
    ensures
        r.0@ == spec_report(entries@, 0),
        r.1 == spec_total(entries@),
{
    let n = entries.len();
    let mut out = String::new();
    let mut day_minutes: u64 = 0;
    let mut tot_minutes: u64 = 0;
    let mut i: usize = 0;
    proof {
        assert(entries@.skip(0) =~= entries@);
    }
    while i < n
        invariant
            i <= n == entries@.len(),
            n <= MAX_ENTRIES,
            forall|k: int| 0 <= k < entries@.len() ==> entry_wf(#[trigger] entries@[k]),
            tot_minutes + day_minutes <= 719 * i,
            out@ + spec_report(entries@.skip(i as int), day_minutes as int) == spec_report(
                entries@,
                0,
            ),
            tot_minutes + day_minutes + spec_total(entries@.skip(i as int)) == spec_total(
                entries@,
            ),
        decreases n - i,
    {
        proof {
            assert(entries@.skip(i as int).drop_first() =~= entries@.skip(i + 1 as int));
            assert(entries@.skip(i as int)[0] == entries@[i as int]);
        }
        match entries[i] {
            Entry::DateEntry(date) => {
                let ghost out0 = out@;
                let ghost day0 = day_minutes as int;
                if day_minutes > 0 {
                    let f = format_minutes(day_minutes);
                    out.append(f.as_str());
                    out.append("\n");
                    tot_minutes = tot_minutes + day_minutes;
                    day_minutes = 0;
                }
                push_label(&mut out, &date);
                proof {
                    assert(out@ =~= out0 + spec_flush(day0) + spec_label(date));
                    assert(out@ + spec_report(entries@.skip(i + 1 as int), 0) =~= out0
                        + spec_report(entries@.skip(i as int), day0));
                }
            },
            Entry::TimeRangeEntry(time_range) => {
                let dur = time_range.minutes();
                day_minutes = day_minutes + dur as u64;
            },
        }
        i = i + 1;
    }
    proof {
        assert(entries@.skip(n as int) =~= Seq::<Entry>::empty());
    }
    if day_minutes > 0 {
        let f = format_minutes(day_minutes);
        out.append(f.as_str());
        out.append("\n");
        tot_minutes = tot_minutes + day_minutes;
    }
    (out, tot_minutes)
}

} // verus!
