//! Upgrade lines: `upgraded <name> (<before> -> <after>)`.
//!
//! A line is read the way a backtracking matcher reads the pattern
//! `upgraded\s*(\S+)\s*\(\s*(\S+)\s*->\s*(\S+)\s*\)`: the match that starts first
//! wins, and among matches that start at one place the longest name, then the
//! longest earlier version, then the longest later version.
use vstd::prelude::*;

use crate::text::{chars_of, is_space, occurs_at, occurs_at_exec, space_char, string_of};
use crate::version::{version_from_chars, version_of, Version};
use crate::ParseError;

verus! {

/// One upgrade event: a package and its versions before and after.
#[derive(Debug)]
pub struct Package {
    pub name: String,
    pub before: Version,
    pub after: Version,
}

impl View for Package {
    type V = (Seq<char>, (Seq<char>, u32), (Seq<char>, u32));

    /// The name, and the two versions' texts and release numbers.
    open spec fn view(&self) -> (Seq<char>, (Seq<char>, u32), (Seq<char>, u32)) {
        (self.name@, self.before@, self.after@)
    }
}

/// The word that starts the description of an upgrade.
pub open spec fn upgrade_word() -> Seq<char> {
    seq!['u', 'p', 'g', 'r', 'a', 'd', 'e', 'd']
}

/// The end of the run of whitespace that starts at `i`.
pub open spec fn skip_space(s: Seq<char>, i: int) -> int
    decreases s.len() - i,
{
    if 0 <= i < s.len() && is_space(s[i]) {
        skip_space(s, i + 1)
    } else {
        i
    }
}

/// Whether `s[lo..hi]` holds no whitespace.
pub open spec fn no_space(s: Seq<char>, lo: int, hi: int) -> bool {
    0 <= lo <= hi <= s.len() && forall|j: int| lo <= j < hi ==> !is_space(#[trigger] s[j])
}

/// Whether the later version is `s[f..g]`, followed by a `)` after optional
/// whitespace.
pub open spec fn tail_ok(s: Seq<char>, f: int, g: int) -> bool {
    let h = skip_space(s, g);
    f < g && no_space(s, f, g) && h < s.len() && s[h] == ')'
}

/// Whether the arrow `->` follows `d` after optional whitespace.
pub open spec fn arrow_ok(s: Seq<char>, d: int) -> bool {
    let e = skip_space(s, d);
    e + 2 <= s.len() && s[e] == '-' && s[e + 1] == '>'
}

/// Where the later version starts, for an earlier version that ends at `d`.
pub open spec fn arrow_end(s: Seq<char>, d: int) -> int {
    skip_space(s, skip_space(s, d) + 2)
}

/// Whether the earlier version is `s[c..d]`, followed by the arrow and a later
/// version that ends at `g`, then the closing `)`.
pub open spec fn versions_ok(s: Seq<char>, c: int, d: int, g: int) -> bool {
    c < d && no_space(s, c, d) && arrow_ok(s, d) && tail_ok(s, arrow_end(s, d), g)
}

/// Whether a `(` follows `b` after optional whitespace.
pub open spec fn paren_ok(s: Seq<char>, b: int) -> bool {
    let p = skip_space(s, b);
    p < s.len() && s[p] == '('
}

/// Where the earlier version starts, for a name that ends at `b`: after the
/// `(` and the whitespace that follows it.
pub open spec fn paren_end(s: Seq<char>, b: int) -> int {
    skip_space(s, skip_space(s, b) + 1)
}

/// Whether the name is `s[a..b]`, followed by the parenthesised versions.
pub open spec fn named_ok(s: Seq<char>, a: int, b: int, d: int, g: int) -> bool {
    a < b && no_space(s, a, b) && paren_ok(s, b) && versions_ok(s, paren_end(s, b), d, g)
}

/// Where the name starts, for the word `upgraded` at `i`.
pub open spec fn name_start(s: Seq<char>, i: int) -> int {
    skip_space(s, i + 8)
}

/// Whether an upgrade description starts at `i`, with the name ending at `b`,
/// the earlier version at `d` and the later version at `g`.
pub open spec fn upgrade_at(s: Seq<char>, i: int, b: int, d: int, g: int) -> bool {
    occurs_at(s, upgrade_word(), i) && named_ok(s, name_start(s, i), b, d, g)
}

/// Whether the match `t` is preferred to the match `u`: it starts earlier, or
/// at the same place with a longer name, then a longer earlier version, then a
/// longer later version.
pub open spec fn preferred(t: (int, int, int, int), u: (int, int, int, int)) -> bool {
    t.0 < u.0 || (t.0 == u.0 && (t.1 > u.1 || (t.1 == u.1 && (t.2 > u.2 || (t.2 == u.2
        && t.3 >= u.3)))))
}

/// Whether `t` is the match of the line that is preferred to every other.
pub open spec fn chosen_upgrade(s: Seq<char>, t: (int, int, int, int)) -> bool {
    &&& upgrade_at(s, t.0, t.1, t.2, t.3)
    &&& forall|i: int, b: int, d: int, g: int|
        #[trigger] upgrade_at(s, i, b, d, g) ==> preferred(t, (i, b, d, g))
}

/// The name, earlier version and later version that a match captures.
pub open spec fn captures(s: Seq<char>, t: (int, int, int, int)) -> (Seq<char>, Seq<char>, Seq<
    char,
>) {
    (
        s.subrange(name_start(s, t.0), t.1),
        s.subrange(paren_end(s, t.1), t.2),
        s.subrange(arrow_end(s, t.2), t.3),
    )
}

/// What the line's preferred match captures, if it has a match.
pub open spec fn upgrade_parts(s: Seq<char>) -> Option<(Seq<char>, Seq<char>, Seq<char>)> {
    if exists|t: (int, int, int, int)| chosen_upgrade(s, t) {
        Some(captures(s, choose|t: (int, int, int, int)| chosen_upgrade(s, t)))
    } else {
        None
    }
}

/// What reading the line `s` gives: the captured name and the two versions
/// read in turn, or the first error met.
pub open spec fn package_of(s: Seq<char>) -> Result<
    (Seq<char>, (Seq<char>, u32), (Seq<char>, u32)),
    ParseError,
> {
    match upgrade_parts(s) {
        None => Err(ParseError::InvalidLine),
        Some((n, bt, at)) => match version_of(bt) {
            Err(e) => Err(e),
            Ok(bv) => match version_of(at) {
                Err(e) => Err(e),
                Ok(av) => Ok((n, bv, av)),
            },
        },
    }
}

/// Whether `r` is the outcome that `package_of` gives for `s`.
pub open spec fn package_result(s: Seq<char>, r: Result<Package, ParseError>) -> bool {
    match package_of(s) {
        Ok(m) => r matches Ok(p) && p@ == m,
        Err(e) => r == Err::<Package, ParseError>(e),
    }
}

/// Skips the whitespace that starts at `i`.
fn skip_space_exec(s: &[char], i: usize) -> (r: usize)
    requires
        i <= s.len(),
    ensures
        r == skip_space(s@, i as int),
        i <= r <= s.len(),
{
    let mut j: usize = i;
    while j < s.len() && space_char(s[j])
        invariant
            i <= j <= s.len(),
            skip_space(s@, j as int) == skip_space(s@, i as int),
        decreases s.len() - j,
    {
        j = j + 1;
    }
    j
}

/// The end of the run of non-whitespace that starts at `a`.
fn run_end(s: &[char], a: usize) -> (r: usize)
    requires
        a <= s.len(),
    ensures
        a <= r <= s.len(),
        no_space(s@, a as int, r as int),
        r == s.len() || is_space(s@[r as int]),
{
    let mut r: usize = a;
    while r < s.len() && !space_char(s[r])
        invariant
            a <= r <= s.len(),
            no_space(s@, a as int, r as int),
        decreases s.len() - r,
    {
        r = r + 1;
    }
    r
}

/// The end of the longest later version that starts at `f` and is followed
/// by a `)` after optional whitespace.
fn find_close(s: &[char], f: usize) -> (r: Option<usize>)
    requires
        f <= s.len(),
    ensures
        match r {
            Some(g) => tail_ok(s@, f as int, g as int) && forall|g2: int|
                tail_ok(s@, f as int, g2) ==> g2 <= g,
            None => forall|g2: int| !tail_ok(s@, f as int, g2),
        },
{
    let e = run_end(s, f);
    let mut g: usize = e;
    while g > f
        invariant
            f <= g <= e <= s.len(),
            no_space(s@, f as int, e as int),
            e == s.len() || is_space(s@[e as int]),
            forall|g2: int| g < g2 ==> !tail_ok(s@, f as int, g2),
        decreases g,
    {
        let h = skip_space_exec(s, g);
        if h < s.len() && s[h] == ')' {
            return Some(g);
        }
        g = g - 1;
    }
    None
}

/// The arrow after an earlier version that ends at `d`: where the later
/// version starts.
fn find_arrow(s: &[char], d: usize) -> (r: Option<usize>)
    requires
        d <= s.len(),
    ensures
        match r {
            Some(f) => arrow_ok(s@, d as int) && f == arrow_end(s@, d as int) && f <= s.len(),
            None => !arrow_ok(s@, d as int),
        },
{
    let e = skip_space_exec(s, d);
    if e < s.len() && s.len() - e >= 2 && s[e] == '-' && s[e + 1] == '>' {
        Some(skip_space_exec(s, e + 2))
    } else {
        None
    }
}

/// The preferred pair of versions that starts at `c`: the longest earlier
/// version, then the longest later one.
fn find_versions(s: &[char], c: usize) -> (r: Option<(usize, usize)>)
    requires
        c <= s.len(),
    ensures
        match r {
            Some((d, g)) => versions_ok(s@, c as int, d as int, g as int) && forall|d2: int, g2: int|
                versions_ok(s@, c as int, d2, g2) ==> d > d2 || (d == d2 && g >= g2),
            None => forall|d2: int, g2: int| !versions_ok(s@, c as int, d2, g2),
        },
{
    let e = run_end(s, c);
    let mut d: usize = e;
    while d > c
        invariant
            c <= d <= e <= s.len(),
            no_space(s@, c as int, e as int),
            e == s.len() || is_space(s@[e as int]),
            forall|d2: int, g2: int| d < d2 ==> !versions_ok(s@, c as int, d2, g2),
        decreases d,
    {
        if let Some(f) = find_arrow(s, d) {
            if let Some(g) = find_close(s, f) {
                return Some((d, g));
            }
        }
        assert forall|d2: int, g2: int| d - 1 < d2 implies !versions_ok(s@, c as int, d2, g2) by {
            if d2 == d {
            }
        }
        d = d - 1;
    }
    None
}

/// The preferred name and versions that start at `a`.
fn find_named(s: &[char], a: usize) -> (r: Option<(usize, usize, usize)>)
    requires
        a <= s.len(),
    ensures
        match r {
            Some((b, d, g)) => named_ok(s@, a as int, b as int, d as int, g as int) && forall|
                b2: int,
                d2: int,
                g2: int,
            |
                named_ok(s@, a as int, b2, d2, g2) ==> preferred(
                    (0, b as int, d as int, g as int),
                    (0, b2, d2, g2),
                ),
            None => forall|b2: int, d2: int, g2: int| !named_ok(s@, a as int, b2, d2, g2),
        },
{
    let e = run_end(s, a);
    let mut b: usize = e;
    while b > a
        invariant
            a <= b <= e <= s.len(),
            no_space(s@, a as int, e as int),
            e == s.len() || is_space(s@[e as int]),
            forall|b2: int, d2: int, g2: int| b < b2 ==> !named_ok(s@, a as int, b2, d2, g2),
        decreases b,
    {
        let p = skip_space_exec(s, b);
        if p < s.len() && s[p] == '(' {
            let c = skip_space_exec(s, p + 1);
            if let Some((d, g)) = find_versions(s, c) {
                return Some((b, d, g));
            }
        }
        assert forall|b2: int, d2: int, g2: int| b - 1 < b2 implies !named_ok(
            s@,
            a as int,
            b2,
            d2,
            g2,
        ) by {
            if b2 == b {
            }
        }
        b = b - 1;
    }
    None
}

/// The preferred upgrade description of a line, if it has one.
fn find_upgrade(s: &[char]) -> (r: Option<(usize, usize, usize, usize)>)
    ensures
        match r {
            Some((i, b, d, g)) => chosen_upgrade(s@, (i as int, b as int, d as int, g as int)),
            None => forall|i: int, b: int, d: int, g: int| !upgrade_at(s@, i, b, d, g),
        },
{
    let word: Vec<char> = vec!['u', 'p', 'g', 'r', 'a', 'd', 'e', 'd'];
    assert(word@ =~= upgrade_word());
    let mut i: usize = 0;
    while i < s.len()
        invariant
            word@ == upgrade_word(),
            forall|i2: int, b: int, d: int, g: int| i2 < i ==> !upgrade_at(s@, i2, b, d, g),
        decreases s.len() - i,
    {
        if occurs_at_exec(s, word.as_slice(), i) {
            let a = skip_space_exec(s, i + 8);
            if let Some((b, d, g)) = find_named(s, a) {
                return Some((i, b, d, g));
            }
        }
        i = i + 1;
    }
    None
}

/// Reads one upgrade line into the package's name and its two versions.
pub fn parse_package(line: &str) -> (r: Result<Package, ParseError>)
    ensures
        package_result(line@, r),
{
    let cs = chars_of(line);
    let s = cs.as_slice();
    match find_upgrade(s) {
        None => {
            assert(!exists|t: (int, int, int, int)| chosen_upgrade(s@, t));
            Err(ParseError::InvalidLine)
        },
        Some((i, b, d, g)) => {
            let ghost t = (i as int, b as int, d as int, g as int);
            assert forall|u: (int, int, int, int)| chosen_upgrade(s@, u) implies u == t by {
                assert(preferred(t, u));
                assert(preferred(u, t));
            }
            let a = skip_space_exec(s, i + 8);
            let c = skip_space_exec(s, skip_space_exec(s, b) + 1);
            let f = skip_space_exec(s, skip_space_exec(s, d) + 2);
            let name = string_of(vstd::slice::slice_subrange(s, a, b));
            let before = version_from_chars(vstd::slice::slice_subrange(s, c, d));
            let before = match before {
                Ok(v) => v,
                Err(e) => return Err(e),
            };
            let after = version_from_chars(vstd::slice::slice_subrange(s, f, g));
            let after = match after {
                Ok(v) => v,
                Err(e) => return Err(e),
            };
            Ok(Package { name, before, after })
        },
    }
}

} // verus!
