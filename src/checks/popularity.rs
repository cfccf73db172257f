//! Popularity: young packages with few downloads are risky.
use vstd::prelude::*;
use crate::checks::version_age::{age_days, age_days_spec};
use crate::model::{CheckFinding, PackageVersion, Severity};
use crate::text::{append_str, decimal, i64_text, signed_decimal, u64_text};

verus! {

/// Packages older than this many days are not judged by adoption.
pub const YOUNG_PACKAGE_AGE_DAYS: i64 = 30;

pub open spec fn popularity_reason(
    name: Seq<char>,
    version: Seq<char>,
    downloads: nat,
    age: int,
) -> Seq<char> {
    name + "@"@ + version + " has low adoption ("@ + decimal(downloads)
        + " weekly downloads) and is only "@ + signed_decimal(age) + " day(s) old"@
}

/// What the popularity check reports.
pub open spec fn popularity_ok(
    package_name: Seq<char>,
    version: PackageVersion,
    weekly_downloads: Option<u64>,
    min_weekly_downloads: u64,
    young_package_age_days: i64,
    now: i64,
    r: Option<CheckFinding>,
) -> bool {
    &&& version.published is None ==> r is None
    &&& weekly_downloads is None ==> r is None
    &&& match (version.published, weekly_downloads) {
        (Some(p), Some(d)) => {
            let age = age_days_spec(now as int, p as int);
            if d >= min_weekly_downloads || age > young_package_age_days {
                r is None
            } else {
                r is Some && r.unwrap().severity == Severity::High && r.unwrap().reason@
                    == popularity_reason(package_name, version.version@, d as nat, age)
            }
        },
        _ => r is None,
    }
}

/// Runs the popularity check: one high finding when the version has a
/// publish time, the download count is known, downloads are under
/// `min_weekly_downloads` and the version is at most
/// `young_package_age_days` days old.
pub fn popularity_finding(
    package_name: &str,
    version: &PackageVersion,
    weekly_downloads: Option<u64>,
    min_weekly_downloads: u64,
    young_package_age_days: i64,
    now: i64,
) -> (r: Option<CheckFinding>)
    ensures
        popularity_ok(package_name@, *version, weekly_downloads, min_weekly_downloads, young_package_age_days, now, r),
{
    let published = match version.published {
        Some(p) => p,
        None => return None,
    };
    let downloads = match weekly_downloads {
        Some(d) => d,
        None => return None,
    };
    let age = age_days(now, published);
    if downloads >= min_weekly_downloads || age > young_package_age_days {
        return None;
    }
    let mut reason = String::new();
    append_str(&mut reason, package_name);
    append_str(&mut reason, "@");
    append_str(&mut reason, version.version.as_str());
    append_str(&mut reason, " has low adoption (");
    let d = u64_text(downloads);
    append_str(&mut reason, d.as_str());
    append_str(&mut reason, " weekly downloads) and is only ");
    let a = i64_text(age);
    append_str(&mut reason, a.as_str());
    append_str(&mut reason, " day(s) old");
    Some(CheckFinding { severity: Severity::High, reason })
}

} // verus!
