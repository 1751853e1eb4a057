//! Counting real upgrades against rebuilds.
use vstd::prelude::*;

use crate::package::Package;
use crate::text::{chars_of, string_of};

verus! {

/// How the packages upgraded today split up.
#[derive(Debug)]
pub struct Statistics {
    /// Packages whose version text changed.
    pub changed: u64,
    /// Packages that kept their version text and got a new release number.
    pub rebuilt: u64,
}

/// Whether an upgrade kept the version text: a rebuild.
pub open spec fn is_rebuild(m: (Seq<char>, (Seq<char>, u32), (Seq<char>, u32))) -> bool {
    m.1.0 == m.2.0
}

/// The number of upgrades in `ms` that changed the version text.
pub open spec fn count_changed(ms: Seq<(Seq<char>, (Seq<char>, u32), (Seq<char>, u32))>) -> nat
    decreases ms.len(),
{
    if ms.len() == 0 {
        0
    } else {
        count_changed(ms.drop_last()) + if is_rebuild(ms.last()) {
            0nat
        } else {
            1nat
        }
    }
}

/// The number of upgrades in `ms` that kept the version text.
pub open spec fn count_rebuilt(ms: Seq<(Seq<char>, (Seq<char>, u32), (Seq<char>, u32))>) -> nat
    decreases ms.len(),
{
    if ms.len() == 0 {
        0
    } else {
        count_rebuilt(ms.drop_last()) + if is_rebuild(ms.last()) {
            1nat
        } else {
            0nat
        }
    }
}

/// The models of a sequence of packages.
pub open spec fn package_views(ps: Seq<Package>) -> Seq<
    (Seq<char>, (Seq<char>, u32), (Seq<char>, u32)),
> {
    ps.map_values(|p: Package| p@)
}

impl Statistics {
    /// Counts the packages whose version changed and those that were rebuilt.
    pub fn new(packages: &[Package]) -> (r: Self)
        ensures
            r.changed == count_changed(package_views(packages@)),
            r.rebuilt == count_rebuilt(package_views(packages@)),
            r.changed + r.rebuilt == packages@.len(),
    {
        let ghost ms = package_views(packages@);
        let mut changed: u64 = 0;
        let mut rebuilt: u64 = 0;
        let mut i: usize = 0;
        while i < packages.len()
            invariant
                i <= packages.len(),
                ms == package_views(packages@),
                changed == count_changed(ms.subrange(0, i as int)),
                rebuilt == count_rebuilt(ms.subrange(0, i as int)),
                changed + rebuilt == i,
            decreases packages.len() - i,
        {
            assert(ms.subrange(0, i + 1).drop_last() =~= ms.subrange(0, i as int));
            if packages[i].before == packages[i].after {
                rebuilt = rebuilt + 1;
            } else {
                changed = changed + 1;
            }
            i = i + 1;
        }
        assert(ms.subrange(0, i as int) =~= ms);
        Statistics { changed, rebuilt }
    }
}

/// Every upgrade is either a change or a rebuild, never both: the two counts
/// add up to the number of upgrades, and both are zero when there are none.
pub proof fn lemma_counts_partition(ms: Seq<(Seq<char>, (Seq<char>, u32), (Seq<char>, u32))>)
    ensures
        count_changed(ms) + count_rebuilt(ms) == ms.len(),
        ms.len() == 0 ==> count_changed(ms) == 0 && count_rebuilt(ms) == 0,
    decreases ms.len(),
{
    if ms.len() > 0 {
        lemma_counts_partition(ms.drop_last());
    }
}

/// One more upgrade adds one rebuild when it kept its version text, and one
/// change when the text differs.
pub proof fn lemma_count_one_more(
    ms: Seq<(Seq<char>, (Seq<char>, u32), (Seq<char>, u32))>,
    m: (Seq<char>, (Seq<char>, u32), (Seq<char>, u32)),
)
    ensures
        count_rebuilt(ms.push(m)) == count_rebuilt(ms) + if m.1.0 == m.2.0 {
            1nat
        } else {
            0nat
        },
        count_changed(ms.push(m)) == count_changed(ms) + if m.1.0 == m.2.0 {
            0nat
        } else {
            1nat
        },
{
    assert(ms.push(m).drop_last() =~= ms);
}

/// The decimal digits of `n`, most significant first, with no leading zero.
pub open spec fn decimal_of(n: nat) -> Seq<char>
    decreases n,
{
    let digits = seq!['0', '1', '2', '3', '4', '5', '6', '7', '8', '9'];
    if n < 10 {
        seq![digits[n as int]]
    } else {
        decimal_of(n / 10).push(digits[(n % 10) as int])
    }
}

/// Writes `n` in decimal.
fn decimal_chars(n: u64) -> (r: Vec<char>)
    ensures
        r@ == decimal_of(n as nat),
{
    let digits: [char; 10] = ['0', '1', '2', '3', '4', '5', '6', '7', '8', '9'];
    assert(digits@ =~= seq!['0', '1', '2', '3', '4', '5', '6', '7', '8', '9']);
    let mut tail: Vec<char> = Vec::new();
    let mut m: u64 = n;
    while m >= 10
        invariant
            digits@ == seq!['0', '1', '2', '3', '4', '5', '6', '7', '8', '9'],
            decimal_of(n as nat) == decimal_of(m as nat) + tail@,
        decreases m,
    {
        let d = (m % 10) as usize;
        let ghost old_tail = tail@;
        tail.insert(0, digits[d]);
        assert(decimal_of(m as nat) == decimal_of((m / 10) as nat).push(digits@[d as int]));
        assert(decimal_of((m / 10) as nat).push(digits@[d as int]) + old_tail =~= decimal_of(
            (m / 10) as nat,
        ) + tail@);
        m = m / 10;
    }
    let ghost old_tail = tail@;
    tail.insert(0, digits[m as usize]);
    assert(decimal_of(m as nat) + old_tail =~= tail@);
    tail
}

/// The report line for `changed` real upgrades and `rebuilt` rebuilds.
pub open spec fn report_of(changed: nat, rebuilt: nat) -> Seq<char> {
    "[abitracker]: Packages upgraded today had "@ + decimal_of(changed)
        + " legitimate upgrades, versus "@ + decimal_of(rebuilt)
        + " that had to be rebuilt due to other packages"@
}

/// The line that reports the statistics. It carries the tag that keeps it
/// out of the counts should it end up in the log.
pub fn report_text(stats: &Statistics) -> (r: String)
    ensures
        r@ == report_of(stats.changed as nat, stats.rebuilt as nat),
{
    let mut out = chars_of("[abitracker]: Packages upgraded today had ");
    let mut changed = decimal_chars(stats.changed);
    let mut middle = chars_of(" legitimate upgrades, versus ");
    let mut rebuilt = decimal_chars(stats.rebuilt);
    let mut end = chars_of(" that had to be rebuilt due to other packages");
    out.append(&mut changed);
    out.append(&mut middle);
    out.append(&mut rebuilt);
    out.append(&mut end);
    string_of(out.as_slice())
}

} // verus!
