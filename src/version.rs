//! Package versions of the form `<text>-<release>`.
use vstd::prelude::*;

use crate::text::{chars_of, string_of};
use crate::ParseError;

verus! {

/// A package version: the text before the first dash, and the release number
/// after it. Two versions are equal when their texts are; the release only
/// tells rebuilds of one version apart.
#[derive(Debug)]
pub struct Version {
    /// The version itself, in whatever format the package uses.
    pub text: String,
    /// The release number that follows the version after a dash.
    pub release: u32,
}

impl PartialEq for Version {
    fn eq(&self, other: &Version) -> (r: bool)
        ensures
            r == (self.text@ == other.text@),
    {
        self.text == other.text
    }
}

impl vstd::std_specs::cmp::PartialEqSpecImpl for Version {
    open spec fn obeys_eq_spec() -> bool {
        true
    }

    open spec fn eq_spec(&self, other: &Version) -> bool {
        self.text@ == other.text@
    }
}

impl Eq for Version {}

impl View for Version {
    type V = (Seq<char>, u32);

    /// The version's text and its release number.
    open spec fn view(&self) -> (Seq<char>, u32) {
        (self.text@, self.release)
    }
}

/// Whether `c` is one of the ASCII digits.
pub open spec fn is_digit(c: char) -> bool {
    '0' <= c && c <= '9'
}

/// The value of an ASCII digit.
pub open spec fn digit_value(c: char) -> nat {
    (c as u32 - '0' as u32) as nat
}

/// The number that a sequence of decimal digits writes, most significant first.
pub open spec fn decimal_value(ds: Seq<char>) -> nat
    decreases ds.len(),
{
    if ds.len() == 0 {
        0
    } else {
        decimal_value(ds.drop_last()) * 10 + digit_value(ds.last())
    }
}

/// The digits of a release number: the text without one leading `+`.
pub open spec fn release_digits(t: Seq<char>) -> Seq<char> {
    if t.len() > 0 && t[0] == '+' {
        t.subrange(1, t.len() as int)
    } else {
        t
    }
}

/// The unsigned 32-bit number that `t` writes in decimal, with an optional
/// leading `+`, if it writes one.
pub open spec fn release_of(t: Seq<char>) -> Option<u32> {
    let ds = release_digits(t);
    if ds.len() > 0 && (forall|i: int| 0 <= i < ds.len() ==> is_digit(#[trigger] ds[i]))
        && decimal_value(ds) <= u32::MAX {
        Some(decimal_value(ds) as u32)
    } else {
        None
    }
}

/// Whether index `k` holds the first dash of `s`.
pub open spec fn is_first_dash(s: Seq<char>, k: int) -> bool {
    0 <= k < s.len() && s[k] == '-' && forall|j: int| 0 <= j < k ==> s[j] != '-'
}

/// What a version token means: the text before its first dash and the release
/// number after it, or why it is not a version.
pub open spec fn version_of(s: Seq<char>) -> Result<(Seq<char>, u32), ParseError> {
    if exists|k: int| is_first_dash(s, k) {
        let k = choose|k: int| is_first_dash(s, k);
        match release_of(s.subrange(k + 1, s.len() as int)) {
            Some(r) => Ok((s.subrange(0, k), r)),
            None => Err(ParseError::InvalidRelease),
        }
    } else {
        Err(ParseError::InvalidVersion)
    }
}

/// Whether `r` is the outcome that `version_of` gives for `s`.
pub open spec fn version_result(s: Seq<char>, r: Result<Version, ParseError>) -> bool {
    match version_of(s) {
        Ok(m) => r matches Ok(v) && v@ == m,
        Err(e) => r == Err::<Version, ParseError>(e),
    }
}

/// A prefix of a string of digits writes no larger a number than the whole.
proof fn lemma_prefix_value(ds: Seq<char>, k: int)
    requires
        0 <= k <= ds.len(),
    ensures
        decimal_value(ds.subrange(0, k)) <= decimal_value(ds),
    decreases ds.len(),
{
    if k < ds.len() {
        assert(ds.drop_last().subrange(0, k) =~= ds.subrange(0, k));
        lemma_prefix_value(ds.drop_last(), k);
    } else {
        assert(ds.subrange(0, k) =~= ds);
    }
}

/// Reads a release number: decimal digits with an optional leading `+`.
pub fn parse_release(t: &[char]) -> (r: Option<u32>)
    ensures
        r == release_of(t@),
{
    let start: usize = if t.len() > 0 && t[0] == '+' { 1 } else { 0 };
    let ghost ds = release_digits(t@);
    assert(ds =~= t@.subrange(start as int, t@.len() as int));
    if start == t.len() {
        return None;
    }
    let mut i: usize = start;
    while i < t.len()
        invariant
            start <= i <= t.len(),
            ds == release_digits(t@),
            ds =~= t@.subrange(start as int, t@.len() as int),
            forall|j: int| start <= j < i ==> is_digit(t@[j]),
        decreases t.len() - i,
    {
        if !('0' <= t[i] && t[i] <= '9') {
            assert(ds[i - start] == t@[i as int]);
            assert(!is_digit(ds[i - start]));
            return None;
        }
        i = i + 1;
    }
    let mut acc: u64 = 0;
    let mut i: usize = start;
    while i < t.len()
        invariant
            start <= i <= t.len(),
            ds == release_digits(t@),
            ds =~= t@.subrange(start as int, t@.len() as int),
            forall|j: int| start <= j < t.len() ==> is_digit(t@[j]),
            acc == decimal_value(ds.subrange(0, i - start)),
            acc <= u32::MAX,
        decreases t.len() - i,
    {
        let d = (t[i] as u32 - '0' as u32) as u64;
        assert(ds.subrange(0, i - start + 1).drop_last() =~= ds.subrange(0, i - start));
        let next = acc * 10 + d;
        if next > u32::MAX as u64 {
            proof {
                let pre = ds.subrange(0, i - start + 1);
                assert(pre.last() == t@[i as int]);
                assert(decimal_value(pre) == acc * 10 + d);
                lemma_prefix_value(ds, i - start + 1);
            }
            return None;
        }
        proof {
            let pre = ds.subrange(0, i - start + 1);
            assert(pre.last() == t@[i as int]);
        }
        acc = next;
        i = i + 1;
    }
    assert(ds.subrange(0, i - start) =~= ds);
    Some(acc as u32)
}

/// Splits a version token at its first dash and reads the release number.
pub fn version_from_chars(s: &[char]) -> (r: Result<Version, ParseError>)
    ensures
        version_result(s@, r),
{
    let mut k: usize = 0;
    while k < s.len() && s[k] != '-'
        invariant
            k <= s.len(),
            forall|j: int| 0 <= j < k ==> s@[j] != '-',
        decreases s.len() - k,
    {
        k = k + 1;
    }
    if k == s.len() {
        assert(!exists|j: int| is_first_dash(s@, j));
        return Err(ParseError::InvalidVersion);
    }
    assert(is_first_dash(s@, k as int));
    assert forall|j: int| is_first_dash(s@, j) implies j == k by {
        if j < k {
        } else if j > k {
            assert(s@[k as int] == '-');
        }
    }
    let rest = vstd::slice::slice_subrange(s, k + 1, s.len());
    let head = vstd::slice::slice_subrange(s, 0, k);
    match parse_release(rest) {
        Some(release) => Ok(Version { text: string_of(head), release }),
        None => Err(ParseError::InvalidRelease),
    }
}

/// Parses a version of the form `<text>-<release>`, split at the first dash.
pub fn parse_version(text: &str) -> (r: Result<Version, ParseError>)
    ensures
        version_result(text@, r),
{
    let cs = chars_of(text);
    version_from_chars(cs.as_slice())
}

} // verus!
