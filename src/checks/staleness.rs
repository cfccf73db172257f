//! Staleness: deprecated, old, or far-behind versions.
use vstd::prelude::*;
use crate::checks::version_age::{age_days, age_days_spec};
use crate::model::{CheckFinding, PackageRecord, PackageVersion, Severity, StalenessPolicy};
use crate::semver_order::{compare_semver, parse_core, parse_u64, parse_u64_spec, semver_core, semver_order};
use crate::text::{
    append_str, chars_of, chars_range, decimal, eq_chars, ends_with_spec, i64_text, last_index_exec,
    last_index_of, occurs_at_exec, signed_decimal, u64_text,
};

verus! {

/// Whether one `ignore_for` rule covers `name` at `version`: the bare name,
/// `name@version`, or `name@MAJOR.x` for a SemVer version of that major.
pub open spec fn rule_ignores(rule: Seq<char>, name: Seq<char>, version: Seq<char>) -> bool {
    rule == name || match last_index_of(rule, '@') {
        None => false,
        Some(k) => {
            let rule_name = rule.take(k);
            let rule_version = rule.skip(k + 1);
            rule_name == name && (rule_version == version || (ends_with_spec(
                rule_version,
                ".x"@,
            ) && rule_version.len() >= 2 && match parse_u64_spec(
                rule_version.take(rule_version.len() - 2),
            ) {
                Some(major) => match semver_core(version) {
                    Some(t) => t.0 == major,
                    None => false,
                },
                None => false,
            }))
        },
    }
}

pub open spec fn ignored_spec(rules: Seq<String>, name: Seq<char>, version: Seq<char>) -> bool {
    exists|i: int| 0 <= i < rules.len() && rule_ignores((#[trigger] rules[i])@, name, version)
}

fn rule_matches(rule: &str, name: &str, version: &str) -> (r: bool)
    ensures
        r == rule_ignores(rule@, name@, version@),
{
    let rc = chars_of(rule);
    let nc = chars_of(name);
    let vc = chars_of(version);
    if eq_chars(rc.as_slice(), nc.as_slice()) {
        return true;
    }
    let k = match last_index_exec(rc.as_slice(), '@') {
        None => return false,
        Some(k) => k,
    };
    let n = rc.len();
    assert(k < n);
    let rule_name = chars_range(rc.as_slice(), 0, k);
    let rule_version = chars_range(rc.as_slice(), k + 1, n);
    assert(rule_name@ =~= rule@.take(k as int));
    assert(rule_version@ =~= rule@.skip(k + 1));
    if !eq_chars(rule_name.as_slice(), nc.as_slice()) {
        return false;
    }
    if eq_chars(rule_version.as_slice(), vc.as_slice()) {
        return true;
    }
    let rv: &[char] = rule_version.as_slice();
    let suffix = chars_of(".x");
    if rv.len() < 2 {
        return false;
    }
    if !occurs_at_exec(rv, suffix.as_slice(), rv.len() - 2) {
        proof {
            reveal_strlit(".x");
        }
        return false;
    }
    proof {
        reveal_strlit(".x");
    }
    let prefix = chars_range(rv, 0, rv.len() - 2);
    assert(prefix@ =~= rule_version@.take(rule_version@.len() - 2));
    let major = match parse_u64(prefix.as_slice()) {
        None => return false,
        Some(m) => m,
    };
    match parse_core(version) {
        Some(t) => t.0 == major,
        None => false,
    }
}

/// Whether the staleness policy ignores this package version.
pub fn is_ignored(package_name: &str, version: &str, policy: &StalenessPolicy) -> (r: bool)
    ensures
        r == ignored_spec(policy.ignore_for@, package_name@, version@),
{
    let rules = &policy.ignore_for;
    let mut i: usize = 0;
    while i < rules.len()
        invariant
            rules == &policy.ignore_for,
            i <= rules@.len(),
            forall|j: int|
                0 <= j < i ==> !rule_ignores((#[trigger] rules@[j])@, package_name@, version@),
        decreases rules@.len() - i,
    {
        if rule_matches(rules[i].as_str(), package_name, version) {
            return true;
        }
        i = i + 1;
    }
    false
}

pub open spec fn sat_sub(a: u64, b: u64) -> u64 {
    if a >= b {
        (a - b) as u64
    } else {
        0
    }
}

/// Major and minor distance from `requested` up to `latest`, when both are
/// SemVer versions and `latest` is strictly newer. The minor gap only counts
/// within the same major.
pub open spec fn gaps_spec(requested: Seq<char>, latest: Seq<char>) -> Option<(u64, u64)> {
    match (semver_core(requested), semver_core(latest)) {
        (Some(r), Some(l)) => if semver_order(latest, requested) == Some(1int) {
            Some((sat_sub(l.0, r.0), if l.0 == r.0 { sat_sub(l.1, r.1) } else { 0 }))
        } else {
            None
        },
        _ => None,
    }
}

pub fn version_gaps(requested: &str, latest: &str) -> (r: Option<(u64, u64)>)
    ensures
        r == gaps_spec(requested@, latest@),
{
    let req = match parse_core(requested) {
        Some(t) => t,
        None => return None,
    };
    let lat = match parse_core(latest) {
        Some(t) => t,
        None => return None,
    };
    let order = compare_semver(latest, requested);
    if order != Some(1i8) {
        return None;
    }
    let major_gap = if lat.0 >= req.0 {
        lat.0 - req.0
    } else {
        0
    };
    let minor_gap = if lat.0 == req.0 {
        if lat.1 >= req.1 {
            lat.1 - req.1
        } else {
            0
        }
    } else {
        0
    };
    Some((major_gap, minor_gap))
}

/// Severity of being behind latest: medium from `warn_major` majors on,
/// low when at least one major or `warn_minor` minors behind, else none.
pub open spec fn gap_severity_spec(major_gap: u64, minor_gap: u64, warn_major: u64, warn_minor: u64) -> Option<Severity> {
    if major_gap >= warn_major {
        Some(Severity::Medium)
    } else if major_gap >= 1 || minor_gap >= warn_minor {
        Some(Severity::Low)
    } else {
        None
    }
}

pub fn gap_severity(major_gap: u64, minor_gap: u64, warn_major: u64, warn_minor: u64) -> (r: Option<Severity>)
    ensures
        r == gap_severity_spec(major_gap, minor_gap, warn_major, warn_minor),
        major_gap >= warn_major ==> r == Some(Severity::Medium),
        major_gap < warn_major ==> r is None || r == Some(Severity::Low),
{
    if major_gap >= warn_major {
        Some(Severity::Medium)
    } else if major_gap >= 1 || minor_gap >= warn_minor {
        Some(Severity::Low)
    } else {
        None
    }
}

pub open spec fn finding_view(f: CheckFinding) -> (Severity, Seq<char>) {
    (f.severity, f.reason@)
}

pub open spec fn findings_view(fs: Seq<CheckFinding>) -> Seq<(Severity, Seq<char>)> {
    fs.map_values(|f: CheckFinding| finding_view(f))
}

pub open spec fn deprecated_part(name: Seq<char>, version: Seq<char>, deprecated: bool) -> Seq<
    (Severity, Seq<char>),
> {
    if deprecated {
        seq![(Severity::High, name + "@"@ + version + " is marked deprecated"@)]
    } else {
        seq![]
    }
}

pub open spec fn age_part(
    name: Seq<char>,
    version: Seq<char>,
    published: Option<i64>,
    warn_age_days: i64,
    ignored: bool,
    now: i64,
) -> Seq<(Severity, Seq<char>)> {
    match published {
        Some(p) => {
            let age = age_days_spec(now as int, p as int);
            if !ignored && age >= warn_age_days {
                seq![
                    (
                        Severity::Low,
                        name + "@"@ + version + " is "@ + signed_decimal(age) + " day(s) old (>= "@
                            + signed_decimal(warn_age_days as int) + " days)"@,
                    ),
                ]
            } else {
                seq![]
            }
        },
        None => seq![],
    }
}

pub open spec fn gap_part(
    name: Seq<char>,
    version: Seq<char>,
    latest: Seq<char>,
    policy: StalenessPolicy,
    ignored: bool,
) -> Seq<(Severity, Seq<char>)> {
    if ignored {
        seq![]
    } else {
        match gaps_spec(version, latest) {
            None => seq![],
            Some((major_gap, minor_gap)) => match gap_severity_spec(
                major_gap,
                minor_gap,
                policy.warn_major_versions_behind,
                policy.warn_minor_versions_behind,
            ) {
                Some(Severity::Medium) => seq![
                    (
                        Severity::Medium,
                        name + "@"@ + version + " is "@ + decimal(major_gap as nat)
                            + " major version(s) behind latest ("@ + latest + ")"@,
                    ),
                ],
                Some(s) => seq![
                    (s, name + "@"@ + version + " is behind latest ("@ + latest + ")"@),
                ],
                None => seq![],
            },
        }
    }
}

/// Runs the staleness check on the resolved version of `package`.
/// Findings come in this order: deprecation (high, whatever the ignore
/// rules say), age past `warn_age_days` (low), distance behind latest
/// (medium or low); the last two are skipped for ignored versions.
pub fn staleness_findings(
    package: &PackageRecord,
    requested: &PackageVersion,
    policy: &StalenessPolicy,
    now: i64,
) -> (r: Vec<CheckFinding>)
    ensures
        findings_view(r@) == deprecated_part(package.name@, requested.version@, requested.deprecated)
            + age_part(
            package.name@,
            requested.version@,
            requested.published,
            policy.warn_age_days,
            ignored_spec(policy.ignore_for@, package.name@, requested.version@),
            now,
        ) + gap_part(
            package.name@,
            requested.version@,
            package.latest@,
            *policy,
            ignored_spec(policy.ignore_for@, package.name@, requested.version@),
        ),
{
    let name = package.name.as_str();
    let version = requested.version.as_str();
    let ignored = is_ignored(name, version, policy);
    let mut findings: Vec<CheckFinding> = Vec::new();
    if requested.deprecated {
        let mut reason = String::new();
        append_str(&mut reason, name);
        append_str(&mut reason, "@");
        append_str(&mut reason, version);
        append_str(&mut reason, " is marked deprecated");
        findings.push(CheckFinding { severity: Severity::High, reason });
    }
    let ghost d = findings_view(findings@);
    assert(d =~= deprecated_part(package.name@, requested.version@, requested.deprecated));
    if !ignored {
        match requested.published {
            Some(p) => {
                let age = age_days(now, p);
                if age >= policy.warn_age_days {
                    let mut reason = String::new();
                    append_str(&mut reason, name);
                    append_str(&mut reason, "@");
                    append_str(&mut reason, version);
                    append_str(&mut reason, " is ");
                    let a = i64_text(age);
                    append_str(&mut reason, a.as_str());
                    append_str(&mut reason, " day(s) old (>= ");
                    let w = i64_text(policy.warn_age_days);
                    append_str(&mut reason, w.as_str());
                    append_str(&mut reason, " days)");
                    findings.push(CheckFinding { severity: Severity::Low, reason });
                }
            },
            None => {},
        }
    }
    let ghost da = findings_view(findings@);
    assert(da =~= d + age_part(
        package.name@,
        requested.version@,
        requested.published,
        policy.warn_age_days,
        ignored,
        now,
    ));
    if ignored {
        assert(findings_view(findings@) =~= da + seq![]);
        return findings;
    }
    let latest = package.latest.as_str();
    match version_gaps(version, latest) {
        None => {
            assert(findings_view(findings@) =~= da + seq![]);
        },
        Some((major_gap, minor_gap)) => {
            match gap_severity(
                major_gap,
                minor_gap,
                policy.warn_major_versions_behind,
                policy.warn_minor_versions_behind,
            ) {
                None => {
                    assert(findings_view(findings@) =~= da + seq![]);
                },
                Some(Severity::Medium) => {
                    let mut reason = String::new();
                    append_str(&mut reason, name);
                    append_str(&mut reason, "@");
                    append_str(&mut reason, version);
                    append_str(&mut reason, " is ");
                    let g = u64_text(major_gap);
                    append_str(&mut reason, g.as_str());
                    append_str(&mut reason, " major version(s) behind latest (");
                    append_str(&mut reason, latest);
                    append_str(&mut reason, ")");
                    findings.push(CheckFinding { severity: Severity::Medium, reason });
                    assert(findings_view(findings@) =~= da + gap_part(
                        package.name@,
                        requested.version@,
                        package.latest@,
                        *policy,
                        ignored,
                    ));
                },
                Some(s) => {
                    let mut reason = String::new();
                    append_str(&mut reason, name);
                    append_str(&mut reason, "@");
                    append_str(&mut reason, version);
                    append_str(&mut reason, " is behind latest (");
                    append_str(&mut reason, latest);
                    append_str(&mut reason, ")");
                    findings.push(CheckFinding { severity: s, reason });
                    assert(findings_view(findings@) =~= da + gap_part(
                        package.name@,
                        requested.version@,
                        package.latest@,
                        *policy,
                        ignored,
                    ));
                },
            }
        },
    }
    findings
}

} // verus!
