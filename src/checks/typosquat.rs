//! Typosquat: obscure packages whose names are a small edit away from a
//! popular package's name.
use vstd::prelude::*;
use crate::model::{CheckFinding, Severity};
use crate::text::{append_str, chars_of, decimal, eq_str, u64_text};

verus! {

/// How many popular names are sampled from the registry.
pub const POPULAR_PACKAGE_SAMPLE_SIZE: usize = 5000;

/// Packages with at least this many weekly downloads are not suspected.
pub const OBSCURE_WEEKLY_DOWNLOADS_THRESHOLD: u64 = 50;

/// Largest edit distance that counts as a typo.
pub const TYPO_DISTANCE_LIMIT: usize = 2;

pub open spec fn min3(x: nat, y: nat, z: nat) -> nat {
    if x <= y && x <= z {
        x
    } else if y <= z {
        y
    } else {
        z
    }
}

/// Levenshtein distance: the fewest single-character insertions, deletions
/// and substitutions that turn `a` into `b`.
pub open spec fn lev(a: Seq<char>, b: Seq<char>) -> nat
    decreases a.len() + b.len(),
{
    if a.len() == 0 {
        b.len()
    } else if b.len() == 0 {
        a.len()
    } else {
        min3(
            lev(a.drop_last(), b) + 1,
            lev(a, b.drop_last()) + 1,
            lev(a.drop_last(), b.drop_last()) + if a.last() == b.last() {
                0nat
            } else {
                1nat
            },
        )
    }
}

/// The distance when it is at most `max`.
pub open spec fn bounded_lev(a: Seq<char>, b: Seq<char>, max: nat) -> Option<nat> {
    if lev(a, b) <= max {
        Some(lev(a, b))
    } else {
        None
    }
}

proof fn lemma_lev_length_gap(a: Seq<char>, b: Seq<char>)
    ensures
        lev(a, b) >= a.len() - b.len(),
        lev(a, b) >= b.len() - a.len(),
    decreases a.len() + b.len(),
{
    if a.len() > 0 && b.len() > 0 {
        lemma_lev_length_gap(a.drop_last(), b);
        lemma_lev_length_gap(a, b.drop_last());
        lemma_lev_length_gap(a.drop_last(), b.drop_last());
    }
}

proof fn lemma_lev_upper(a: Seq<char>, b: Seq<char>)
    ensures
        lev(a, b) <= a.len() + b.len(),
    decreases a.len() + b.len(),
{
    if a.len() > 0 && b.len() > 0 {
        lemma_lev_upper(a.drop_last(), b);
    }
}

proof fn lemma_lev_step(a: Seq<char>, b: Seq<char>, i: int, j: int)
    requires
        0 < i <= a.len(),
        0 < j <= b.len(),
    ensures
        lev(a.take(i), b.take(j)) == min3(
            lev(a.take(i - 1), b.take(j)) + 1,
            lev(a.take(i), b.take(j - 1)) + 1,
            lev(a.take(i - 1), b.take(j - 1)) + if a[i - 1] == b[j - 1] {
                0nat
            } else {
                1nat
            },
        ),
{
    assert(a.take(i).drop_last() =~= a.take(i - 1));
    assert(b.take(j).drop_last() =~= b.take(j - 1));
    assert(a.take(i).last() == a[i - 1]);
    assert(b.take(j).last() == b[j - 1]);
}

proof fn lemma_lev_edges(a: Seq<char>, b: Seq<char>, i: int, j: int)
    requires
        0 <= i <= a.len(),
        0 <= j <= b.len(),
    ensures
        lev(a.take(0), b.take(j)) == j,
        lev(a.take(i), b.take(0)) == i,
{
}

/// Every cell of a later row is at least the smallest of an earlier row.
proof fn lemma_row_floor(a: Seq<char>, b: Seq<char>, i: int, lo: nat, k: int)
    requires
        0 <= i < a.len(),
        0 <= k <= b.len(),
        forall|j: int| 0 <= j <= b.len() ==> lev(a.take(i), #[trigger] b.take(j)) >= lo,
    ensures
        lev(a.take(i + 1), b.take(k)) >= lo,
    decreases k,
{
    if k == 0 {
        assert(lev(a.take(i), b.take(0)) >= lo);
    } else {
        lemma_row_floor(a, b, i, lo, k - 1);
        lemma_lev_step(a, b, i + 1, k);
        assert(lev(a.take(i), b.take(k)) >= lo);
        assert(lev(a.take(i), b.take(k - 1)) >= lo);
    }
}

proof fn lemma_rows_floor(a: Seq<char>, b: Seq<char>, i: int, lo: nat)
    requires
        0 <= i <= a.len(),
        forall|j: int| 0 <= j <= b.len() ==> lev(a.take(i), #[trigger] b.take(j)) >= lo,
    ensures
        lev(a, b) >= lo,
    decreases a.len() - i,
{
    if i < a.len() {
        assert forall|j: int| 0 <= j <= b.len() implies lev(a.take(i + 1), #[trigger] b.take(j))
            >= lo by {
            lemma_row_floor(a, b, i, lo, j);
        }
        lemma_rows_floor(a, b, i + 1, lo);
    } else {
        assert(a.take(i) =~= a);
        assert(b.take(b.len() as int) =~= b);
    }
}

/// Edit distance between `lhs` and `rhs` when it is at most `max_distance`.
/// Works row by row over two rows, gives up as soon as the lengths differ
/// by more than `max_distance` or a whole row exceeds it.
pub fn bounded_levenshtein(lhs: &str, rhs: &str, max_distance: usize) -> (r: Option<usize>)
    ensures
        match bounded_lev(lhs@, rhs@, max_distance as nat) {
            Some(d) => r == Some(d as usize),
            None => r is None,
        },
{
    let a = chars_of(lhs);
    let b = chars_of(rhs);
    let n = a.len();
    let m = b.len();
    let ghost sa = a@;
    let ghost sb = b@;
    assert(sa == lhs@ && sb == rhs@);
    let gap = if n >= m {
        n - m
    } else {
        m - n
    };
    if gap > max_distance {
        proof {
            lemma_lev_length_gap(sa, sb);
        }
        return None;
    }
    let mut previous: Vec<u128> = Vec::new();
    proof {
        lemma_lev_edges(sa, sb, 0, 0);
    }
    previous.push(0);
    let mut j: usize = 0;
    while j < m
        invariant
            m == sb.len(),
            j <= m,
            previous@.len() == j + 1,
            forall|k: int| 0 <= k <= j ==> previous@[k] == lev(sa.take(0), sb.take(k)),
        decreases m - j,
    {
        proof {
            lemma_lev_edges(sa, sb, 0, j + 1);
        }
        previous.push((j + 1) as u128);
        j = j + 1;
    }
    let mut i: usize = 0;
    while i < n
        invariant
            n == sa.len(),
            m == sb.len(),
            a@ == sa,
            b@ == sb,
            sa == lhs@,
            sb == rhs@,
            i <= n,
            previous@.len() == m + 1,
            forall|k: int| 0 <= k <= m ==> previous@[k] == lev(sa.take(i as int), sb.take(k)),
        decreases n - i,
    {
        let mut current: Vec<u128> = Vec::new();
        proof {
            lemma_lev_edges(sa, sb, (i + 1) as int, 0);
        }
        current.push((i + 1) as u128);
        let mut row_min: u128 = (i + 1) as u128;
        let mut j: usize = 0;
        while j < m
            invariant
                n == sa.len(),
                m == sb.len(),
                a@ == sa,
                b@ == sb,
                sa == lhs@,
                sb == rhs@,
                i < n,
                j <= m,
                previous@.len() == m + 1,
                forall|k: int| 0 <= k <= m ==> previous@[k] == lev(sa.take(i as int), sb.take(k)),
                current@.len() == j + 1,
                forall|k: int|
                    0 <= k <= j ==> current@[k] == lev(sa.take(i + 1), #[trigger] sb.take(k)),
                forall|k: int| 0 <= k <= j ==> row_min <= #[trigger] current@[k],
            decreases m - j,
        {
            proof {
                lemma_lev_step(sa, sb, (i + 1) as int, (j + 1) as int);
                lemma_lev_upper(sa.take(i as int), sb.take(j + 1));
                lemma_lev_upper(sa.take(i + 1), sb.take(j as int));
                lemma_lev_upper(sa.take(i as int), sb.take(j as int));
            }
            let cost: u128 = if a[i] == b[j] {
                0
            } else {
                1
            };
            let deletion = previous[j + 1] + 1;
            let insertion = current[j] + 1;
            let substitution = previous[j] + cost;
            let mut best = deletion;
            if insertion < best {
                best = insertion;
            }
            if substitution < best {
                best = substitution;
            }
            current.push(best);
            if best < row_min {
                row_min = best;
            }
            j = j + 1;
        }
        if row_min > max_distance as u128 {
            proof {
                assert forall|k: int| 0 <= k <= m implies lev(
                    sa.take(i + 1),
                    #[trigger] sb.take(k),
                ) >= (max_distance + 1) as nat by {
                    assert(current@[k] >= row_min);
                }
                lemma_rows_floor(sa, sb, (i + 1) as int, (max_distance + 1) as nat);
            }
            return None;
        }
        previous = current;
        i = i + 1;
    }
    proof {
        assert(sa.take(n as int) =~= sa);
        assert(sb.take(m as int) =~= sb);
        assert(a@ == lhs@);
    }
    let distance = previous[m];
    if distance <= max_distance as u128 {
        Some(distance as usize)
    } else {
        None
    }
}

/// The popular name that a typo is closest to: the first at the smallest
/// distance in `1..=limit`.
pub open spec fn is_closest(name: Seq<char>, popular: Seq<String>, limit: nat, i: int) -> bool {
    let d = lev(name, popular[i]@);
    &&& 0 <= i < popular.len()
    &&& 1 <= d <= limit
    &&& forall|k: int|
        0 <= k < i ==> !(1 <= #[trigger] lev(name, popular[k]@) <= d)
    &&& forall|k: int|
        i < k < popular.len() ==> !(1 <= #[trigger] lev(name, popular[k]@) < d)
}

pub open spec fn no_close_name(name: Seq<char>, popular: Seq<String>, limit: nat) -> bool {
    forall|k: int| 0 <= k < popular.len() ==> !(1 <= #[trigger] lev(name, popular[k]@) <= limit)
}

/// Index and distance of the closest popular name within `limit` edits,
/// ignoring exact matches; on a tie the earlier name wins.
pub fn closest_popular_name(package_name: &str, popular: &[String], limit: usize) -> (r: Option<
    (usize, usize),
>)
    ensures
        match r {
            Some((i, d)) => is_closest(package_name@, popular@, limit as nat, i as int) && d
                == lev(package_name@, popular@[i as int]@),
            None => no_close_name(package_name@, popular@, limit as nat),
        },
{
    let mut best: Option<(usize, usize)> = None;
    let mut k: usize = 0;
    while k < popular.len()
        invariant
            k <= popular@.len(),
            match best {
                Some((i, d)) => i < k && d == lev(package_name@, popular@[i as int]@) && 1 <= d
                    <= limit && (forall|x: int|
                    0 <= x < i ==> !(1 <= #[trigger] lev(package_name@, popular@[x]@) <= d)) && (
                forall|x: int|
                    i < x < k ==> !(1 <= #[trigger] lev(package_name@, popular@[x]@) < d)),
                None => forall|x: int|
                    0 <= x < k ==> !(1 <= #[trigger] lev(package_name@, popular@[x]@) <= limit),
            },
        decreases popular@.len() - k,
    {
        let candidate = bounded_levenshtein(package_name, popular[k].as_str(), limit);
        match candidate {
            Some(d) => {
                if d != 0 {
                    let better = match best {
                        Some((_, current)) => d < current,
                        None => true,
                    };
                    if better {
                        best = Some((k, d));
                    }
                }
            },
            None => {},
        }
        k = k + 1;
    }
    best
}

pub open spec fn typosquat_reason(
    name: Seq<char>,
    distance: nat,
    candidate: Seq<char>,
    downloads: nat,
) -> Seq<char> {
    name + " is "@ + decimal(distance) + " edit(s) away from popular package "@ + candidate
        + " and has low adoption ("@ + decimal(downloads) + " weekly downloads)"@
}

pub open spec fn listed(name: Seq<char>, popular: Seq<String>) -> bool {
    exists|k: int| 0 <= k < popular.len() && (#[trigger] popular[k])@ == name
}

pub open spec fn downloads_or_zero(weekly_downloads: Option<u64>) -> u64 {
    match weekly_downloads {
        Some(d) => d,
        None => 0,
    }
}

/// Whether the typosquat check needs the registry's popular names: only for
/// obscure packages (unknown downloads count as none).
pub fn typosquat_needs_popular_names(weekly_downloads: Option<u64>) -> (r: bool)
    ensures
        r == (downloads_or_zero(weekly_downloads) < OBSCURE_WEEKLY_DOWNLOADS_THRESHOLD),
{
    let downloads = match weekly_downloads {
        Some(d) => d,
        None => 0,
    };
    downloads < OBSCURE_WEEKLY_DOWNLOADS_THRESHOLD
}

/// What the typosquat check reports.
pub open spec fn typosquat_ok(
    package_name: Seq<char>,
    weekly_downloads: Option<u64>,
    popular: Seq<String>,
    r: Option<CheckFinding>,
) -> bool {
    &&& downloads_or_zero(weekly_downloads) >= OBSCURE_WEEKLY_DOWNLOADS_THRESHOLD ==> r is None
    &&& listed(package_name, popular) ==> r is None
    &&& no_close_name(package_name, popular, TYPO_DISTANCE_LIMIT as nat) ==> r is None
    &&& downloads_or_zero(weekly_downloads) < OBSCURE_WEEKLY_DOWNLOADS_THRESHOLD && !listed(
        package_name,
        popular,
    ) && !no_close_name(package_name, popular, TYPO_DISTANCE_LIMIT as nat) ==> exists|i: int|
        is_closest(package_name, popular, TYPO_DISTANCE_LIMIT as nat, i) && r is Some
            && r.unwrap().severity == Severity::High && r.unwrap().reason@ == typosquat_reason(
            package_name,
            lev(package_name, popular[i]@),
            popular[i]@,
            downloads_or_zero(weekly_downloads) as nat,
        )
}

/// Runs the typosquat check against the registry's popular names. No
/// finding for packages with 50 or more weekly downloads, for a name that is
/// itself popular, or when no popular name is within two edits; otherwise
/// one high finding naming the closest popular package.
pub fn typosquat_finding(package_name: &str, weekly_downloads: Option<u64>, popular: &[String]) -> (r:
    Option<CheckFinding>)
    ensures
        typosquat_ok(package_name@, weekly_downloads, popular@, r),
{
    let downloads = match weekly_downloads {
        Some(d) => d,
        None => 0,
    };
    if downloads >= OBSCURE_WEEKLY_DOWNLOADS_THRESHOLD {
        return None;
    }
    let mut k: usize = 0;
    while k < popular.len()
        invariant
            k <= popular@.len(),
            forall|x: int| 0 <= x < k ==> (#[trigger] popular@[x])@ != package_name@,
        decreases popular@.len() - k,
    {
        if eq_str(popular[k].as_str(), package_name) {
            return None;
        }
        k = k + 1;
    }
    let found = closest_popular_name(package_name, popular, TYPO_DISTANCE_LIMIT);
    match found {
        None => None,
        Some((i, d)) => {
            let mut reason = String::new();
            append_str(&mut reason, package_name);
            append_str(&mut reason, " is ");
            let dt = u64_text(d as u64);
            append_str(&mut reason, dt.as_str());
            append_str(&mut reason, " edit(s) away from popular package ");
            append_str(&mut reason, popular[i].as_str());
            append_str(&mut reason, " and has low adoption (");
            let wt = u64_text(downloads);
            append_str(&mut reason, wt.as_str());
            append_str(&mut reason, " weekly downloads)");
            proof {
                assert(is_closest(package_name@, popular@, TYPO_DISTANCE_LIMIT as nat, i as int));
            }
            Some(CheckFinding { severity: Severity::High, reason })
        },
    }
}

} // verus!
