//! Version age: very fresh releases are risky.
use vstd::prelude::*;
use crate::model::{CheckFinding, PackageVersion, Severity};
use crate::text::{append_str, i64_text, signed_decimal};

verus! {

pub const SECONDS_PER_DAY: i64 = 86400;

/// Whole days from `published` to `now`, rounded down.
pub open spec fn age_days_spec(now: int, published: int) -> int {
    (now - published) / 86400
}

/// Whole days elapsed between two instants given in Unix seconds.
pub fn age_days(now: i64, published: i64) -> (r: i64)
    ensures
        r == age_days_spec(now as int, published as int),
{
    let diff: i128 = (now as i128) - (published as i128);
    let days: i128 = if diff >= 0 {
        diff / 86400
    } else {
        -((-diff + 86399) / 86400)
    };
    assert(days == (diff as int) / 86400) by {
        if diff < 0 {
            let q = (diff as int) / 86400;
            assert(q * 86400 <= diff && diff < q * 86400 + 86400);
        }
    }
    days as i64
}

pub open spec fn version_age_reason(name: Seq<char>, version: Seq<char>, age: int, min: int) -> Seq<
    char,
> {
    name + "@"@ + version + " was published "@ + signed_decimal(age) + " day(s) ago (< "@
        + signed_decimal(min) + " days)"@
}

/// What the version-age check reports.
pub open spec fn version_age_ok(
    package_name: Seq<char>,
    version: PackageVersion,
    min_version_age_days: i64,
    now: i64,
    r: Option<CheckFinding>,
) -> bool {
    match version.published {
        None => r is None,
        Some(p) => {
            let age = age_days_spec(now as int, p as int);
            if age < min_version_age_days {
                r is Some && r.unwrap().severity == Severity::High && r.unwrap().reason@
                    == version_age_reason(
                    package_name,
                    version.version@,
                    age,
                    min_version_age_days as int,
                )
            } else {
                r is None
            }
        },
    }
}

/// Runs the version-age check: one high finding when the resolved version
/// has a publish time and is younger than `min_version_age_days` days.
pub fn version_age_finding(
    package_name: &str,
    version: &PackageVersion,
    min_version_age_days: i64,
    now: i64,
) -> (r: Option<CheckFinding>)
    ensures
        version_age_ok(package_name@, *version, min_version_age_days, now, r),
{
    let published = match version.published {
        Some(p) => p,
        None => return None,
    };
    let age = age_days(now, published);
    if age >= min_version_age_days {
        return None;
    }
    let mut reason = String::new();
    append_str(&mut reason, package_name);
    append_str(&mut reason, "@");
    append_str(&mut reason, version.version.as_str());
    append_str(&mut reason, " was published ");
    let a = i64_text(age);
    append_str(&mut reason, a.as_str());
    append_str(&mut reason, " day(s) ago (< ");
    let m = i64_text(min_version_age_days);
    append_str(&mut reason, m.as_str());
    append_str(&mut reason, " days)");
    Some(CheckFinding { severity: Severity::High, reason })
}

} // verus!
