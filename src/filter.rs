//! Picking the log lines that describe today's upgrades.
use chrono::Datelike;
use vstd::prelude::*;

use crate::package::upgrade_word;
use crate::text::{chars_of, contains, contains_exec, string_of};
use crate::ParseError;

verus! {

/// A calendar date in the proleptic Gregorian calendar.
#[derive(Debug, Clone, Copy, PartialEq, Eq, Structural)]
pub struct CalendarDate {
    pub year: i32,
    /// From 1 to 12.
    pub month: u32,
    /// From 1 to 31.
    pub day: u32,
}

/// The tag that this tool puts in its own report, so that a report written
/// back into the log is never counted.
pub open spec fn report_marker() -> Seq<char> {
    seq!['[', 'a', 'b', 'i', 't', 'r', 'a', 'c', 'k', 'e', 'r', ']', ':']
}

/// Whether a line may describe an upgrade: it mentions one and is not a report
/// of this tool.
pub open spec fn is_candidate(line: Seq<char>) -> bool {
    !contains(line, report_marker()) && contains(line, upgrade_word())
}

/// Whether index `k` holds the first `]` of `s`.
pub open spec fn is_first_bracket(s: Seq<char>, k: int) -> bool {
    0 <= k < s.len() && s[k] == ']' && forall|j: int| 0 <= j < k ==> s[j] != ']'
}

/// The timestamp of a line: what stands after its first character (the `[`)
/// and before its first `]`, if the line has a `]` after its first character.
pub open spec fn timestamp_of(line: Seq<char>) -> Option<Seq<char>> {
    if exists|k: int| 1 <= k && is_first_bracket(line, k) {
        Some(line.subrange(1, choose|k: int| 1 <= k && is_first_bracket(line, k)))
    } else {
        None
    }
}

/// The pieces of `s` between its newlines: one more than there are newlines.
pub open spec fn pieces(s: Seq<char>) -> Seq<Seq<char>>
    decreases s.len(),
{
    if s.len() == 0 {
        seq![Seq::empty()]
    } else {
        let p = pieces(s.drop_last());
        if s.last() == '\n' {
            p.push(Seq::empty())
        } else {
            p.update(p.len() - 1, p.last().push(s.last()))
        }
    }
}

/// A line without the `\r` of a `\r\n` line ending.
pub open spec fn strip_cr(l: Seq<char>) -> Seq<char> {
    if l.len() > 0 && l.last() == '\r' {
        l.drop_last()
    } else {
        l
    }
}

/// The lines of a text: split at `\n` or `\r\n`, where the last line ending
/// is optional and ends no empty line.
pub open spec fn lines_of(s: Seq<char>) -> Seq<Seq<char>> {
    let p = pieces(s);
    let body = p.drop_last().map_values(|l: Seq<char>| strip_cr(l));
    if p.last().len() == 0 {
        body
    } else {
        body.push(p.last())
    }
}

/// What the filter makes of one line, given the calendar date of its
/// timestamp (if it reads as one) and today's date: whether it is kept.
pub open spec fn line_verdict(line: Seq<char>, date: Option<CalendarDate>, today: CalendarDate) -> Result<
    bool,
    ParseError,
> {
    if !is_candidate(line) {
        Ok(false)
    } else if timestamp_of(line) is None {
        Err(ParseError::MissingTimestamp)
    } else {
        match date {
            None => Err(ParseError::InvalidTimestamp),
            Some(d) => Ok(d == today),
        }
    }
}

/// The lines that the filter keeps, in order, given the date of each line's
/// timestamp; or the first error met.
pub open spec fn select(
    lines: Seq<Seq<char>>,
    dates: Seq<Option<CalendarDate>>,
    today: CalendarDate,
) -> Result<Seq<Seq<char>>, ParseError>
    decreases lines.len(),
{
    if lines.len() == 0 {
        Ok(Seq::empty())
    } else {
        match select(lines.drop_last(), dates, today) {
            Err(e) => Err(e),
            Ok(kept) => match line_verdict(lines.last(), dates[lines.len() - 1], today) {
                Err(e) => Err(e),
                Ok(true) => Ok(kept.push(lines.last())),
                Ok(false) => Ok(kept),
            },
        }
    }
}

/// The texts of a sequence of strings.
pub open spec fn texts(v: Seq<String>) -> Seq<Seq<char>> {
    v.map_values(|x: String| x@)
}

/// Relies on chrono's `FromStr` for `DateTime<Local>`, then
/// `NaiveDateTime::checked_add_offset` of its UTC time and its offset: a
/// timestamp with an offset, read and moved into the machine's time zone,
/// gives the local calendar date, whose month runs from 1 to 12 and whose day
/// from 1 to 31; `None` where it does not read, or where the local time falls
/// outside chrono's range of dates.
#[verifier::external_body]
fn local_date_of(ts: &str) -> (r: Option<CalendarDate>)
    ensures
        r matches Some(d) ==> 1 <= d.month <= 12 && 1 <= d.day <= 31,
{
    match ts.parse::<chrono::DateTime<chrono::Local>>() {
        Ok(t) => match t.naive_utc().checked_add_offset(*t.offset()) {
            Some(n) => Some(CalendarDate { year: n.year(), month: n.month(), day: n.day() }),
            None => None,
        },
        Err(_) => None,
    }
}

/// Relies on chrono's `Local::now`, then `date_naive`: today's date in the
/// machine's time zone.
#[verifier::external_body]
pub(crate) fn local_today() -> (r: CalendarDate)
    ensures
        1 <= r.month <= 12,
        1 <= r.day <= 31,
{
    let n = chrono::Local::now().date_naive();
    CalendarDate { year: n.year(), month: n.month(), day: n.day() }
}

/// Tests whether a line may describe an upgrade.
fn candidate_exec(line: &[char]) -> (r: bool)
    ensures
        r == is_candidate(line@),
{
    let marker: Vec<char> = vec!['[', 'a', 'b', 'i', 't', 'r', 'a', 'c', 'k', 'e', 'r', ']', ':'];
    let word: Vec<char> = vec!['u', 'p', 'g', 'r', 'a', 'd', 'e', 'd'];
    assert(marker@ =~= report_marker());
    assert(word@ =~= upgrade_word());
    !contains_exec(line, marker.as_slice()) && contains_exec(line, word.as_slice())
}

/// Finds a line's timestamp.
fn timestamp_exec(line: &[char]) -> (r: Option<Vec<char>>)
    ensures
        match timestamp_of(line@) {
            Some(t) => r matches Some(v) && v@ == t,
            None => r is None,
        },
{
    let mut k: usize = 0;
    while k < line.len() && line[k] != ']'
        invariant
            k <= line.len(),
            forall|j: int| 0 <= j < k ==> line@[j] != ']',
        decreases line.len() - k,
    {
        k = k + 1;
    }
    if k == line.len() || k == 0 {
        assert forall|j: int| 1 <= j implies !is_first_bracket(line@, j) by {
            if 1 <= j < line@.len() && j > k {
                assert(line@[k as int] == ']');
            }
        }
        return None;
    }
    assert(is_first_bracket(line@, k as int));
    assert forall|j: int| 1 <= j && is_first_bracket(line@, j) implies j == k by {
        if j > k {
            assert(line@[k as int] == ']');
        }
    }
    let mut v: Vec<char> = Vec::new();
    let mut i: usize = 1;
    while i < k
        invariant
            1 <= i <= k < line.len(),
            v@ =~= line@.subrange(1, i as int),
        decreases k - i,
    {
        v.push(line[i]);
        i = i + 1;
    }
    Some(v)
}

/// Whether the filter keeps `line`, given the calendar date that its
/// timestamp reads as (`None` where it reads as none) and today's date: a
/// line that mentions an upgrade and is no report of this tool is kept when
/// its date is today, and is an error when it has no readable timestamp;
/// every other line is dropped.
pub fn keep_line(line: &str, date: Option<CalendarDate>, today: CalendarDate) -> (r: Result<
    bool,
    ParseError,
>)
    ensures
        r == line_verdict(line@, date, today),
{
    let cs = chars_of(line);
    let cs = cs.as_slice();
    if !candidate_exec(cs) {
        return Ok(false);
    }
    if timestamp_exec(cs).is_none() {
        return Err(ParseError::MissingTimestamp);
    }
    match date {
        None => Err(ParseError::InvalidTimestamp),
        Some(d) => Ok(d == today),
    }
}

/// Decides one line: whether it is an upgrade line of today. The date of its
/// timestamp is read in the clock's time zone, so the contract says only that
/// the verdict follows from some date, which it hands back.
fn verdict_exec(line: &[char], today: CalendarDate) -> (r: (Result<bool, ParseError>, Ghost<Option<CalendarDate>>))
    ensures
        r.0 == line_verdict(line@, r.1@, today),
{
    let date = if candidate_exec(line) {
        match timestamp_exec(line) {
            Some(ts) => {
                let ts = string_of(ts.as_slice());
                local_date_of(ts.as_str())
            },
            None => None,
        }
    } else {
        None
    };
    let text = string_of(line);
    (keep_line(text.as_str(), date, today), Ghost(date))
}

/// The texts of a sequence of character vectors.
pub open spec fn char_views(v: Seq<Vec<char>>) -> Seq<Seq<char>> {
    v.map_values(|x: Vec<char>| x@)
}

/// Whether a vector of strings, or an error, is what `select` gave.
pub open spec fn same_lines(r: Result<Vec<String>, ParseError>, s: Result<Seq<Seq<char>>, ParseError>) -> bool {
    match s {
        Ok(kept) => r matches Ok(v) && texts(v@) == kept,
        Err(e) => r == Err::<Vec<String>, ParseError>(e),
    }
}

/// A date given beyond the lines changes nothing.
proof fn lemma_select_extend(
    lines: Seq<Seq<char>>,
    dates: Seq<Option<CalendarDate>>,
    x: Option<CalendarDate>,
    today: CalendarDate,
)
    requires
        dates.len() >= lines.len(),
    ensures
        select(lines, dates.push(x), today) == select(lines, dates, today),
    decreases lines.len(),
{
    if lines.len() > 0 {
        lemma_select_extend(lines.drop_last(), dates, x, today);
    }
}

/// An error on the first `k` lines is the error on all of them.
proof fn lemma_select_error_prefix(
    lines: Seq<Seq<char>>,
    dates: Seq<Option<CalendarDate>>,
    today: CalendarDate,
    k: int,
)
    requires
        0 <= k <= lines.len(),
        select(lines.subrange(0, k), dates, today) is Err,
    ensures
        select(lines, dates, today) == select(lines.subrange(0, k), dates, today),
    decreases lines.len(),
{
    if k == lines.len() {
        assert(lines.subrange(0, k) =~= lines);
    } else {
        assert(lines.drop_last().subrange(0, k) =~= lines.subrange(0, k));
        lemma_select_error_prefix(lines.drop_last(), dates, today, k);
    }
}

/// Splits a text into its lines.
fn split_lines(s: &[char]) -> (r: Vec<Vec<char>>)
    ensures
        char_views(r@) == lines_of(s@),
{
    let mut out: Vec<Vec<char>> = Vec::new();
    let mut cur: Vec<char> = Vec::new();
    let ghost mut done: Seq<Seq<char>> = Seq::empty();
    let mut k: usize = 0;
    assert(s@.subrange(0, 0) =~= Seq::<char>::empty());
    while k < s.len()
        invariant
            k <= s.len(),
            pieces(s@.subrange(0, k as int)) == done.push(cur@),
            char_views(out@) == done.map_values(|l: Seq<char>| strip_cr(l)),
        decreases s.len() - k,
    {
        assert(s@.subrange(0, k + 1).drop_last() =~= s@.subrange(0, k as int));
        if s[k] == '\n' {
            let ghost c = cur@;
            let mut line = cur;
            if line.len() > 0 && line[line.len() - 1] == '\r' {
                line.pop();
            }
            assert(line@ =~= strip_cr(c));
            let ghost before = char_views(out@);
            let ghost old_done = done;
            proof {
                done = done.push(c);
            }
            out.push(line);
            assert(char_views(out@) =~= before.push(strip_cr(c)));
            assert(done.map_values(|l: Seq<char>| strip_cr(l)) =~= old_done.map_values(
                |l: Seq<char>| strip_cr(l),
            ).push(strip_cr(c)));
            assert(char_views(out@) =~= done.map_values(|l: Seq<char>| strip_cr(l)));
            cur = Vec::new();
            assert(pieces(s@.subrange(0, k + 1)) =~= done.push(cur@));
        } else {
            cur.push(s[k]);
            assert(pieces(s@.subrange(0, k + 1)) =~= done.push(cur@));
        }
        k = k + 1;
    }
    assert(s@.subrange(0, k as int) =~= s@);
    assert(done.push(cur@).drop_last() =~= done);
    if cur.len() > 0 {
        out.push(cur);
        assert(char_views(out@) =~= lines_of(s@));
    } else {
        assert(char_views(out@) =~= lines_of(s@));
    }
    out
}

/// The lines of `text` that describe upgrades made on `today`, in order. A
/// line that mentions an upgrade and is no report of this tool must carry a
/// readable timestamp; the first that does not ends the filter with an error.
/// The date of each timestamp is read in the clock's time zone, so the
/// contract speaks of the dates that came back, whatever they were.
pub fn filter_lines(text: &str, today: CalendarDate) -> (r: Result<Vec<String>, ParseError>)
    ensures
        exists|dates: Seq<Option<CalendarDate>>|
            same_lines(r, #[trigger] select(lines_of(text@), dates, today)),
{
    let cs = chars_of(text);
    let lines = split_lines(cs.as_slice());
    let ghost all = char_views(lines@);
    let ghost mut dates: Seq<Option<CalendarDate>> = Seq::empty();
    let mut kept: Vec<String> = Vec::new();
    let mut i: usize = 0;
    assert(all.subrange(0, 0) =~= Seq::<Seq<char>>::empty());
    assert(texts(kept@) =~= Seq::<Seq<char>>::empty());
    while i < lines.len()
        invariant
            i <= lines.len(),
            all == char_views(lines@),
            all == lines_of(text@),
            dates.len() == i,
            select(all.subrange(0, i as int), dates, today) == Ok::<Seq<Seq<char>>, ParseError>(
                texts(kept@),
            ),
        decreases lines.len() - i,
    {
        let (verdict, Ghost(date)) = verdict_exec(lines[i].as_slice(), today);
        proof {
            lemma_select_extend(all.subrange(0, i as int), dates, date, today);
            dates = dates.push(date);
            assert(all.subrange(0, i + 1).drop_last() =~= all.subrange(0, i as int));
            assert(all.subrange(0, i + 1).last() == lines@[i as int]@);
        }
        let ghost prev = texts(kept@);
        assert(select(all.subrange(0, i + 1), dates, today) == match line_verdict(
            lines@[i as int]@,
            date,
            today,
        ) {
            Err(e) => Err(e),
            Ok(true) => Ok(prev.push(lines@[i as int]@)),
            Ok(false) => Ok(prev),
        });
        match verdict {
            Err(e) => {
                proof {
                    lemma_select_error_prefix(all, dates, today, i + 1);
                }
                return Err(e);
            },
            Ok(keep) => {
                if keep {
                    let line = string_of(lines[i].as_slice());
                    kept.push(line);
                    assert(texts(kept@) =~= prev.push(lines@[i as int]@));
                }
            },
        }
        i = i + 1;
    }
    assert(all.subrange(0, i as int) =~= all);
    Ok(kept)
}

/// The filter keeps exactly the lines that may describe an upgrade and whose
/// timestamp falls on today's date, in their order: a line dated another day
/// is dropped and a line dated today is kept. The result gives, for each kept
/// line, its index among the lines.
pub proof fn lemma_select_picks(
    lines: Seq<Seq<char>>,
    dates: Seq<Option<CalendarDate>>,
    today: CalendarDate,
) -> (idx: Seq<int>)
    requires
        select(lines, dates, today) is Ok,
    ensures
        ({
            let kept = select(lines, dates, today)->Ok_0;
            &&& idx.len() == kept.len()
            &&& forall|j: int|
                0 <= j < idx.len() ==> 0 <= #[trigger] idx[j] < lines.len() && kept[j]
                    == lines[idx[j]]
            &&& forall|j: int, k: int| 0 <= j < k < idx.len() ==> idx[j] < idx[k]
            &&& forall|i: int|
                0 <= i < lines.len() ==> ((exists|j: int| 0 <= j < idx.len() && idx[j] == i)
                    <==> (is_candidate(#[trigger] lines[i]) && dates[i] == Some(today)))
        }),
    decreases lines.len(),
{
    if lines.len() == 0 {
        Seq::empty()
    } else {
        let n = lines.len() - 1;
        let prev = lemma_select_picks(lines.drop_last(), dates, today);
        let keep = line_verdict(lines.last(), dates[n], today) == Ok::<bool, ParseError>(true);
        let idx = if keep {
            prev.push(n)
        } else {
            prev
        };
        let kept = select(lines, dates, today)->Ok_0;
        assert forall|i: int|
            0 <= i < lines.len() implies ((exists|j: int| 0 <= j < idx.len() && idx[j] == i) <==> (
            is_candidate(#[trigger] lines[i]) && dates[i] == Some(today))) by {
            if i < n {
                assert(lines.drop_last()[i] == lines[i]);
                if exists|j: int| 0 <= j < idx.len() && idx[j] == i {
                    let j = choose|j: int| 0 <= j < idx.len() && idx[j] == i;
                    assert(j < prev.len());
                    assert(prev[j] == i);
                }
                if is_candidate(lines[i]) && dates[i] == Some(today) {
                    let j = choose|j: int| 0 <= j < prev.len() && prev[j] == i;
                    assert(idx[j] == i);
                }
            } else {
                if keep {
                    assert(idx[idx.len() - 1] == i);
                } else {
                    assert forall|j: int| 0 <= j < idx.len() implies idx[j] != i by {
                        assert(prev[j] < n);
                    }
                }
            }
        }
        idx
    }
}

/// No report of this tool is ever kept by the filter, however well it reads
/// otherwise.
pub proof fn lemma_reports_never_kept(
    lines: Seq<Seq<char>>,
    dates: Seq<Option<CalendarDate>>,
    today: CalendarDate,
)
    requires
        select(lines, dates, today) is Ok,
    ensures
        forall|j: int|
            0 <= j < select(lines, dates, today)->Ok_0.len() ==> !contains(
                #[trigger] select(lines, dates, today)->Ok_0[j],
                report_marker(),
            ),
{
    let idx = lemma_select_picks(lines, dates, today);
    let kept = select(lines, dates, today)->Ok_0;
    assert forall|j: int| 0 <= j < kept.len() implies !contains(
        #[trigger] kept[j],
        report_marker(),
    ) by {
        let i = idx[j];
        assert(exists|k: int| 0 <= k < idx.len() && idx[k] == i);
        assert(is_candidate(lines[i]));
    }
}

} // verus!
