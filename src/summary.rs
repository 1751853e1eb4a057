//! The whole run: filter the log, read each kept line, count.
use vstd::prelude::*;

use crate::filter::{filter_lines, lines_of, local_today, select, texts, CalendarDate};
use crate::package::{package_of, parse_package, Package};
use crate::stats::{count_changed, count_rebuilt, package_views, Statistics};
use crate::ParseError;

verus! {

/// The upgrades that a sequence of upgrade lines describes, in order; or the
/// error of the first line that cannot be read.
pub open spec fn packages_of(lines: Seq<Seq<char>>) -> Result<
    Seq<(Seq<char>, (Seq<char>, u32), (Seq<char>, u32))>,
    ParseError,
>
    decreases lines.len(),
{
    if lines.len() == 0 {
        Ok(Seq::empty())
    } else {
        match packages_of(lines.drop_last()) {
            Err(e) => Err(e),
            Ok(ms) => match package_of(lines.last()) {
                Err(e) => Err(e),
                Ok(m) => Ok(ms.push(m)),
            },
        }
    }
}

/// Whether `r` holds the counts of the upgrades on the kept lines `sel`, or
/// the first error met in filtering or in reading them.
pub open spec fn statistics_result(
    r: Result<Statistics, ParseError>,
    sel: Result<Seq<Seq<char>>, ParseError>,
) -> bool {
    match sel {
        Err(e) => r == Err::<Statistics, ParseError>(e),
        Ok(kept) => match packages_of(kept) {
            Err(e) => r == Err::<Statistics, ParseError>(e),
            Ok(ms) => r matches Ok(st) && st.changed == count_changed(ms) && st.rebuilt
                == count_rebuilt(ms),
        },
    }
}

/// An error on the first `k` lines is the error on all of them.
proof fn lemma_packages_error_prefix(lines: Seq<Seq<char>>, k: int)
    requires
        0 <= k <= lines.len(),
        packages_of(lines.subrange(0, k)) is Err,
    ensures
        packages_of(lines) == packages_of(lines.subrange(0, k)),
    decreases lines.len(),
{
    if k == lines.len() {
        assert(lines.subrange(0, k) =~= lines);
    } else {
        assert(lines.drop_last().subrange(0, k) =~= lines.subrange(0, k));
        lemma_packages_error_prefix(lines.drop_last(), k);
    }
}

/// Reads each upgrade line into a package.
pub fn parse_packages(lines: &Vec<String>) -> (r: Result<Vec<Package>, ParseError>)
    ensures
        match packages_of(texts(lines@)) {
            Ok(ms) => r matches Ok(ps) && package_views(ps@) == ms,
            Err(e) => r == Err::<Vec<Package>, ParseError>(e),
        },
{
    let ghost all = texts(lines@);
    let mut ps: Vec<Package> = Vec::new();
    let mut i: usize = 0;
    assert(all.subrange(0, 0) =~= Seq::<Seq<char>>::empty());
    assert(package_views(ps@) =~= Seq::empty());
    while i < lines.len()
        invariant
            i <= lines.len(),
            all == texts(lines@),
            packages_of(all.subrange(0, i as int)) == Ok::<_, ParseError>(package_views(ps@)),
        decreases lines.len() - i,
    {
        let ghost prev = package_views(ps@);
        assert(all.subrange(0, i + 1).drop_last() =~= all.subrange(0, i as int));
        assert(all.subrange(0, i + 1).last() == lines@[i as int]@);
        match parse_package(lines[i].as_str()) {
            Err(e) => {
                proof {
                    lemma_packages_error_prefix(all, i + 1);
                }
                return Err(e);
            },
            Ok(p) => {
                ps.push(p);
                assert(package_views(ps@) =~= prev.push(ps@.last()@));
            },
        }
        i = i + 1;
    }
    assert(all.subrange(0, i as int) =~= all);
    Ok(ps)
}

/// Counts the upgrades that `log` records on `today`: the lines that the
/// filter keeps, each read into a package, then split into changes and
/// rebuilds. The first line that cannot be read ends the run with its error.
pub fn upgrade_statistics(log: &str, today: CalendarDate) -> (r: Result<Statistics, ParseError>)
    ensures
        exists|dates: Seq<Option<CalendarDate>>|
            statistics_result(r, #[trigger] select(lines_of(log@), dates, today)),
{
    let kept = filter_lines(log, today);
    let ghost dates = choose|dates: Seq<Option<CalendarDate>>|
        crate::filter::same_lines(kept, #[trigger] select(lines_of(log@), dates, today));
    match kept {
        Err(e) => {
            let r = Err(e);
            assert(statistics_result(r, select(lines_of(log@), dates, today)));
            r
        },
        Ok(lines) => {
            match parse_packages(&lines) {
                Err(e) => {
                    let r = Err(e);
                    assert(statistics_result(r, select(lines_of(log@), dates, today)));
                    r
                },
                Ok(ps) => {
                    let r = Ok(Statistics::new(ps.as_slice()));
                    assert(statistics_result(r, select(lines_of(log@), dates, today)));
                    r
                },
            }
        },
    }
}

/// Counts the upgrades that `log` records on today's date in the machine's
/// time zone.
pub fn todays_statistics(log: &str) -> (r: Result<Statistics, ParseError>)
    ensures
        exists|today: CalendarDate, dates: Seq<Option<CalendarDate>>|
            statistics_result(r, #[trigger] select(lines_of(log@), dates, today)),
{
    let today = local_today();
    upgrade_statistics(log, today)
}

} // verus!
