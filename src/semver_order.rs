//! Version strings read through the `semver` crate, and the decimal numbers
//! that policy rules spell out.
use vstd::prelude::*;
use crate::text::is_ascii_digit;

verus! {

/// Major, minor and patch of `s` when `semver::Version::parse` accepts it.
pub uninterp spec fn semver_core(s: Seq<char>) -> Option<(u64, u64, u64)>;

/// How `semver::Version`'s `Ord` places `a` against `b` (-1, 0 or 1), when
/// both parse.
pub uninterp spec fn semver_order(a: Seq<char>, b: Seq<char>) -> Option<int>;

/// Lexicographic comparison of two version triples: -1, 0 or 1.
pub open spec fn triple_order(a: (u64, u64, u64), b: (u64, u64, u64)) -> int {
    if a.0 != b.0 {
        if a.0 < b.0 {
            -1
        } else {
            1
        }
    } else if a.1 != b.1 {
        if a.1 < b.1 {
            -1
        } else {
            1
        }
    } else if a.2 != b.2 {
        if a.2 < b.2 {
            -1
        } else {
            1
        }
    } else {
        0
    }
}

/// `a` is strictly older than `b` in SemVer order.
pub open spec fn semver_less(a: Seq<char>, b: Seq<char>) -> bool {
    semver_order(a, b) == Some(-1int)
}

/// Characters a version string that semver accepts is made of.
pub open spec fn semver_text_char(c: char) -> bool {
    crate::text::is_ascii_alnum(c) || c == '.' || c == '+' || c == '-'
}

/// Relies on `semver::Version::parse`: the numeric core of a version string;
/// an accepted string starts with the digits of the major version and holds
/// only ASCII letters, digits, `.`, `+` and `-`.
#[verifier::external_body]
pub fn parse_core(s: &str) -> (r: Option<(u64, u64, u64)>)
    ensures
        r == semver_core(s@),
        r is Some ==> s@.len() > 0 && is_ascii_digit(s@[0]),
        r is Some ==> forall|i: int| 0 <= i < s@.len() ==> #[trigger] semver_text_char(s@[i]),
{
    match semver::Version::parse(s) {
        Ok(v) => Some((v.major, v.minor, v.patch)),
        Err(_) => None,
    }
}

/// Relies on `semver::Version::parse` and the derived `Ord` of
/// `semver::Version`, which compares major, minor, patch, then pre-release
/// and build; `Ord` is a total order.
#[verifier::external_body]
pub fn compare_semver(a: &str, b: &str) -> (r: Option<i8>)
    ensures
        r is Some <==> (semver_core(a@) is Some && semver_core(b@) is Some),
        match r {
            Some(o) => (o == -1 || o == 0 || o == 1) && semver_order(a@, b@) == Some(o as int),
            None => semver_order(a@, b@) is None,
        },
        r is Some && semver_core(a@) != semver_core(b@) ==> r == Some(
            triple_order(semver_core(a@).unwrap(), semver_core(b@).unwrap()) as i8,
        ),
        r is Some && a@ == b@ ==> r == Some(0i8),
        r == Some(-1i8) <==> semver_order(b@, a@) == Some(1int),
        r == Some(-1i8) ==> forall|x: Seq<char>|
            semver_less(x, a@) ==> #[trigger] semver_less(x, b@),
{
    match (semver::Version::parse(a), semver::Version::parse(b)) {
        (Ok(x), Ok(y)) => Some(match x.cmp(&y) {
            std::cmp::Ordering::Less => -1,
            std::cmp::Ordering::Equal => 0,
            std::cmp::Ordering::Greater => 1,
        }),
        _ => None,
    }
}

pub open spec fn all_digits(s: Seq<char>) -> bool {
    forall|i: int| 0 <= i < s.len() ==> is_ascii_digit(#[trigger] s[i])
}

pub open spec fn digits_value(s: Seq<char>) -> nat
    decreases s.len(),
{
    if s.len() == 0 {
        0
    } else {
        digits_value(s.drop_last()) * 10 + ((s.last() as u32) - 48) as nat
    }
}

/// What `str::parse::<u64>` accepts: an optional `+`, then one or more
/// decimal digits whose value fits in 64 bits.
pub open spec fn parse_u64_spec(s: Seq<char>) -> Option<u64> {
    let t = if s.len() > 0 && s[0] == '+' {
        s.drop_first()
    } else {
        s
    };
    if t.len() > 0 && all_digits(t) && digits_value(t) <= u64::MAX {
        Some(digits_value(t) as u64)
    } else {
        None
    }
}

pub fn parse_u64(s: &[char]) -> (r: Option<u64>)
    ensures
        r == parse_u64_spec(s@),
{
    let start: usize = if s.len() > 0 && s[0] == '+' {
        1
    } else {
        0
    };
    let ghost t = if s@.len() > 0 && s@[0] == '+' {
        s@.drop_first()
    } else {
        s@
    };
    assert(t =~= s@.subrange(start as int, s@.len() as int));
    if start >= s.len() {
        return None;
    }
    let mut value: u64 = 0;
    let mut i: usize = start;
    while i < s.len()
        invariant
            start <= i <= s@.len(),
            t == s@.subrange(start as int, s@.len() as int),
            t == (if s@.len() > 0 && s@[0] == '+' {
                s@.drop_first()
            } else {
                s@
            }),
            all_digits(s@.subrange(start as int, i as int)),
            value as nat == digits_value(s@.subrange(start as int, i as int)),
        decreases s@.len() - i,
    {
        let c = s[i];
        if !('0' <= c && c <= '9') {
            proof {
                assert(t[i - start] == c);
            }
            return None;
        }
        let d: u64 = ((c as u32) - 48) as u64;
        let ghost prefix = s@.subrange(start as int, i + 1);
        assert(prefix.drop_last() =~= s@.subrange(start as int, i as int));
        if value > (u64::MAX - d) / 10 {
            proof {
                assert(digits_value(prefix) == value * 10 + d);
                assert(value * 10 + d > u64::MAX) by (nonlinear_arith)
                    requires
                        value > (u64::MAX - d) / 10,
                        d <= 9,
                ;
                lemma_digits_prefix_grow(t, (i + 1 - start) as int);
                assert(t.subrange(0, (i + 1 - start) as int) =~= prefix);
            }
            return None;
        }
        assert(value * 10 + d <= u64::MAX) by (nonlinear_arith)
            requires
                value <= (u64::MAX - d) / 10,
                d <= 9,
        ;
        value = value * 10 + d;
        i = i + 1;
        assert(all_digits(s@.subrange(start as int, i as int))) by {
            assert forall|k: int| 0 <= k < i - start implies is_ascii_digit(
                #[trigger] s@.subrange(start as int, i as int)[k],
            ) by {
                if k < i - 1 - start {
                    assert(s@.subrange(start as int, i as int)[k] == s@.subrange(
                        start as int,
                        i - 1,
                    )[k]);
                }
            }
        }
    }
    assert(s@.subrange(start as int, s@.len() as int) == t);
    Some(value)
}

/// Digit values only grow as digits are appended.
proof fn lemma_digits_prefix_grow(t: Seq<char>, k: int)
    requires
        0 < k <= t.len(),
    ensures
        all_digits(t) ==> digits_value(t) >= digits_value(t.subrange(0, k)),
    decreases t.len() - k,
{
    if k < t.len() {
        lemma_digits_prefix_grow(t.drop_last(), k);
        assert(t.drop_last().subrange(0, k) =~= t.subrange(0, k));
        if all_digits(t) {
            assert(all_digits(t.drop_last())) by {
                assert forall|i: int| 0 <= i < t.drop_last().len() implies is_ascii_digit(
                    #[trigger] t.drop_last()[i],
                ) by {
                    assert(t.drop_last()[i] == t[i]);
                }
            }
        }
    } else {
        assert(t.subrange(0, k) =~= t);
    }
}

} // verus!
