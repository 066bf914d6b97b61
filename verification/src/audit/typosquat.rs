//! Typosquatting heuristic.
//!
//! A package name within a small edit distance of a very popular package name,
//! but not equal to it, is a classic typosquat (`lodahs`, `expresss`,
//! `crossenv`, ...). This is a soft signal: it only produces warnings.

use crate::text::{chars_of, str_eq, str_lowercase, to_lowercase};
use vstd::prelude::*;

verus! {

/// A curated slice of high-traffic npm package names.
pub const POPULAR: [&'static str; 35] = [
    "lodash",
    "react",
    "react-dom",
    "express",
    "chalk",
    "axios",
    "commander",
    "request",
    "debug",
    "async",
    "moment",
    "vue",
    "webpack",
    "babel",
    "eslint",
    "typescript",
    "jest",
    "mocha",
    "next",
    "dotenv",
    "cross-env",
    "colors",
    "node-fetch",
    "uuid",
    "yargs",
    "rimraf",
    "glob",
    "semver",
    "bluebird",
    "underscore",
    "jquery",
    "socket.io",
    "mongoose",
    "redux",
    "prettier",
];

/// Maximum edit distance considered a likely typosquat.
pub const MAX_DISTANCE: usize = 2;

/// The smallest of three integers.
pub open spec fn min3(x: int, y: int, z: int) -> int {
    if x <= y && x <= z {
        x
    } else if y <= z {
        y
    } else {
        z
    }
}

/// Levenshtein distance between the prefixes `a[..i]` and `b[..j]`: the least
/// number of single-character insertions, deletions and substitutions that
/// turn one into the other, by the textbook recurrence.
pub open spec fn lev(a: Seq<char>, b: Seq<char>, i: nat, j: nat) -> nat
    decreases i + j,
{
    if i == 0 {
        j
    } else if j == 0 {
        i
    } else {
        min3(
            lev(a, b, (i - 1) as nat, j) as int + 1,
            lev(a, b, i, (j - 1) as nat) as int + 1,
            lev(a, b, (i - 1) as nat, (j - 1) as nat) as int + (if a[i - 1] == b[j - 1] {
                0int
            } else {
                1int
            }),
        ) as nat
    }
}

/// Levenshtein distance between two character sequences.
pub open spec fn edit_distance(a: Seq<char>, b: Seq<char>) -> nat {
    lev(a, b, a.len(), b.len())
}

/// The distance of two prefixes never exceeds the longer prefix.
pub proof fn lemma_lev_bounded(a: Seq<char>, b: Seq<char>, i: nat, j: nat)
    ensures
        lev(a, b, i, j) <= if i <= j { j } else { i },
    decreases i + j,
{
    if i > 0 && j > 0 {
        lemma_lev_bounded(a, b, (i - 1) as nat, (j - 1) as nat);
    }
}

/// Classic dynamic-programming Levenshtein distance over characters.
pub fn levenshtein(a: &str, b: &str) -> (d: usize)
    ensures
        d == edit_distance(a@, b@),
{
    let av = chars_of(a);
    let bv = chars_of(b);
    let n = bv.len();
    let ghost sa = av@;
    let ghost sb = bv@;

    // Row 0: lev(0, j) == j.
    let mut prev: Vec<usize> = Vec::new();
    prev.push(0);
    for j in 0..n
        invariant
            n == sb.len(),
            prev.len() == j + 1,
            forall|k: int| 0 <= k <= j ==> #[trigger] prev@[k] == lev(sa, sb, 0, k as nat),
    {
        prev.push(j + 1);
    }
    let mut cur: Vec<usize> = prev.clone();

    for i in 0..av.len()
        invariant
            av@ == sa,
            bv@ == sb,
            n == sb.len(),
            prev.len() == n + 1,
            cur.len() == n + 1,
            forall|k: int| 0 <= k <= n ==> #[trigger] prev@[k] == lev(sa, sb, i as nat, k as nat),
    {
        cur.set(0, i + 1);
        for j in 0..n
            invariant
                av@ == sa,
                bv@ == sb,
                n == sb.len(),
                i < sa.len(),
                prev.len() == n + 1,
                cur.len() == n + 1,
                forall|k: int| 0 <= k <= n ==> #[trigger] prev@[k] == lev(sa, sb, i as nat, k as nat),
                forall|k: int| 0 <= k <= j ==> #[trigger] cur@[k] == lev(sa, sb, (i + 1) as nat, k as nat),
        {
            let cost: u128 = if av[i] == bv[j] { 0 } else { 1 };
            let del: u128 = prev[j + 1] as u128 + 1;
            let ins: u128 = cur[j] as u128 + 1;
            let sub: u128 = prev[j] as u128 + cost;
            let m = if del <= ins && del <= sub {
                del
            } else if ins <= sub {
                ins
            } else {
                sub
            };
            proof {
                lemma_lev_bounded(sa, sb, (i + 1) as nat, (j + 1) as nat);
            }
            assert(m == lev(sa, sb, (i + 1) as nat, (j + 1) as nat));
            assert(sa.len() == av.len());
            assert(i + 1 <= usize::MAX);
            assert(j + 1 <= usize::MAX);
            assert(m <= usize::MAX);
            let mu = m as usize;
            assert(mu == m);
            cur.set(j + 1, mu);
            assert(cur@[j + 1] == lev(sa, sb, (i + 1) as nat, (j + 1) as nat));
        }
        std::mem::swap(&mut prev, &mut cur);
    }
    prev[n]
}

/// Whether the popular name at position `k` is flagged as a look-alike of the
/// (already lowercased) name `lc`: a nonzero distance of at most
/// [`MAX_DISTANCE`], and a popular name of at least four bytes.
pub open spec fn flags_popular(lc: Seq<char>, k: int) -> bool {
    let d = edit_distance(lc, POPULAR[k]@);
    &&& 0 < d <= MAX_DISTANCE
    &&& POPULAR[k].len() >= 4
}

/// Whether the (already lowercased) name is itself one of the popular names.
pub open spec fn is_popular(lc: Seq<char>) -> bool {
    exists|k: int| 0 <= k < POPULAR.len() && POPULAR[k]@ == lc
}

/// The position of the popular name reported for `lc`: flagged, at the least
/// distance of all flagged names, and the first one at that distance.
pub open spec fn is_nearest(lc: Seq<char>, k: int) -> bool {
    &&& 0 <= k < POPULAR.len()
    &&& flags_popular(lc, k)
    &&& forall|m: int|
        0 <= m < POPULAR.len() && flags_popular(lc, m) ==> edit_distance(lc, POPULAR[k]@)
            <= edit_distance(lc, #[trigger] POPULAR[m]@)
    &&& forall|m: int|
        0 <= m < k && flags_popular(lc, m) ==> edit_distance(lc, POPULAR[k]@) < edit_distance(
            lc,
            #[trigger] POPULAR[m]@,
        )
}

/// The position of the popular name that `lc` (already lowercased) is
/// flagged against, if any.
pub open spec fn typosquat_of(lc: Seq<char>) -> Option<int> {
    if !is_popular(lc) && exists|k: int| is_nearest(lc, k) {
        Some(choose|k: int| is_nearest(lc, k))
    } else {
        None
    }
}

/// At most one position is the nearest flagged popular name.
pub proof fn lemma_nearest_unique(lc: Seq<char>, k1: int, k2: int)
    requires
        is_nearest(lc, k1),
        is_nearest(lc, k2),
    ensures
        k1 == k2,
{
    let d1 = edit_distance(lc, POPULAR[k1]@);
    let d2 = edit_distance(lc, POPULAR[k2]@);
    assert(d1 <= d2);
    assert(d2 <= d1);
    if k1 < k2 {
        assert(d2 < d1);
    } else if k2 < k1 {
        assert(d1 < d2);
    }
}

/// If `name` looks like a typosquat of a popular package, return that package.
///
/// The name is lowercased first. A name that is itself popular is never
/// flagged; otherwise the closest flagged popular name is returned (the first
/// of them on a tie), or `None` when no popular name is close enough.
pub fn nearest_popular(name: &str) -> (r: Option<&'static str>)
    ensures
        is_popular(str_lowercase(name@)) ==> r is None,
        !is_popular(str_lowercase(name@)) ==> match r {
            None => forall|k: int|
                0 <= k < POPULAR.len() ==> !flags_popular(str_lowercase(name@), k),
            Some(p) => exists|k: int|
                is_nearest(str_lowercase(name@), k) && p == #[trigger] POPULAR[k],
        },
        r == match typosquat_of(str_lowercase(name@)) {
            Some(k) => Some(POPULAR[k]),
            None => None::<&'static str>,
        },
{
    let lowered = to_lowercase(name);
    let lc = lowered.as_str();
    let ghost l = lc@;
    let mut best: Option<(&'static str, usize)> = None;
    let ghost mut best_k: int = 0;
    for k in 0..POPULAR.len()
        invariant
            lc@ == l,
            l == str_lowercase(name@),
            forall|m: int| 0 <= m < k ==> POPULAR[m]@ != l,
            match best {
                None => forall|m: int| 0 <= m < k ==> !flags_popular(l, m),
                Some((p, bd)) => {
                    &&& 0 <= best_k < k
                    &&& p == POPULAR[best_k]
                    &&& bd == edit_distance(l, POPULAR[best_k]@)
                    &&& flags_popular(l, best_k)
                    &&& forall|m: int|
                        0 <= m < k && flags_popular(l, m) ==> bd <= edit_distance(
                            l,
                            #[trigger] POPULAR[m]@,
                        )
                    &&& forall|m: int|
                        0 <= m < best_k && flags_popular(l, m) ==> bd < edit_distance(
                            l,
                            #[trigger] POPULAR[m]@,
                        )
                },
            },
    {
        let popular = POPULAR[k];
        if str_eq(lc, popular) {
            return None;
        }
        let d = levenshtein(lc, popular);
        if d <= MAX_DISTANCE && d > 0 && popular.len() >= 4 {
            best = match best {
                Some((p, bd)) if bd <= d => Some((p, bd)),
                _ => {
                    proof {
                        best_k = k as int;
                    }
                    Some((popular, d))
                },
            };
        }
    }
    proof {
        if is_popular(l) {
            let k0 = choose|k0: int| 0 <= k0 < POPULAR.len() && POPULAR[k0]@ == l;
            assert(POPULAR[k0]@ != l);
        }
        match best {
            Some(_) => {
                assert(is_nearest(l, best_k));
                let c = choose|k: int| is_nearest(l, k);
                lemma_nearest_unique(l, c, best_k);
            },
            None => {
                assert(!exists|k: int| is_nearest(l, k));
            },
        }
    }
    match best {
        Some((p, _)) => Some(p),
        None => None,
    }
}

/// Among the first `n` popular names, when one is flagged there is a
/// flagged one at the least distance that comes first at that distance.
proof fn lemma_nearest_exists_upto(lc: Seq<char>, n: int)
    requires
        0 <= n <= POPULAR.len(),
        exists|m: int| 0 <= m < n && flags_popular(lc, m),
    ensures
        exists|k: int|
            0 <= k < n && flags_popular(lc, k) && (forall|m: int|
                0 <= m < n && flags_popular(lc, m) ==> edit_distance(lc, POPULAR[k]@)
                    <= edit_distance(lc, #[trigger] POPULAR[m]@)) && (forall|m: int|
                0 <= m < k && flags_popular(lc, m) ==> edit_distance(lc, POPULAR[k]@)
                    < edit_distance(lc, #[trigger] POPULAR[m]@)),
    decreases n,
{
    let p = n - 1;
    if exists|m: int| 0 <= m < p && flags_popular(lc, m) {
        lemma_nearest_exists_upto(lc, p);
        let k = choose|k: int|
            0 <= k < p && flags_popular(lc, k) && (forall|m: int|
                0 <= m < p && flags_popular(lc, m) ==> edit_distance(lc, POPULAR[k]@)
                    <= edit_distance(lc, #[trigger] POPULAR[m]@)) && (forall|m: int|
                0 <= m < k && flags_popular(lc, m) ==> edit_distance(lc, POPULAR[k]@)
                    < edit_distance(lc, #[trigger] POPULAR[m]@));
        if flags_popular(lc, p) && edit_distance(lc, POPULAR[p]@) < edit_distance(lc, POPULAR[k]@) {
            assert(forall|m: int|
                0 <= m < n && flags_popular(lc, m) ==> edit_distance(lc, POPULAR[p]@)
                    <= edit_distance(lc, #[trigger] POPULAR[m]@));
            assert(forall|m: int|
                0 <= m < p && flags_popular(lc, m) ==> edit_distance(lc, POPULAR[p]@)
                    < edit_distance(lc, #[trigger] POPULAR[m]@));
        } else {
            assert(forall|m: int|
                0 <= m < n && flags_popular(lc, m) ==> edit_distance(lc, POPULAR[k]@)
                    <= edit_distance(lc, #[trigger] POPULAR[m]@));
        }
    } else {
        assert(flags_popular(lc, p));
        assert(forall|m: int|
            0 <= m < n && flags_popular(lc, m) ==> edit_distance(lc, POPULAR[p]@)
                <= edit_distance(lc, #[trigger] POPULAR[m]@));
    }
}

/// Every close look-alike is caught: a name that is not itself popular and
/// lies at edit distance one or two from a popular name of at least four
/// bytes is flagged, against a popular name at least as close.
pub proof fn lemma_close_names_are_flagged(lc: Seq<char>, k: int)
    requires
        !is_popular(lc),
        0 <= k < POPULAR.len(),
        0 < edit_distance(lc, POPULAR[k]@) <= 2,
        POPULAR[k].len() >= 4,
    ensures
        typosquat_of(lc) matches Some(p) && 0 < edit_distance(lc, POPULAR[p]@) <= edit_distance(
            lc,
            POPULAR[k]@,
        ),
{
    assert(flags_popular(lc, k));
    lemma_nearest_exists_upto(lc, POPULAR.len() as int);
    let k0 = choose|k0: int|
        0 <= k0 < POPULAR.len() && flags_popular(lc, k0) && (forall|m: int|
            0 <= m < POPULAR.len() && flags_popular(lc, m) ==> edit_distance(lc, POPULAR[k0]@)
                <= edit_distance(lc, #[trigger] POPULAR[m]@)) && (forall|m: int|
            0 <= m < k0 && flags_popular(lc, m) ==> edit_distance(lc, POPULAR[k0]@)
                < edit_distance(lc, #[trigger] POPULAR[m]@));
    assert(is_nearest(lc, k0));
    let p = choose|p: int| is_nearest(lc, p);
    lemma_nearest_unique(lc, p, k0);
}

} // verus!
