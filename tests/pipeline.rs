use safe_pkgs::catalog::{supported_checks, RegistryKind};
use safe_pkgs::config::SafePkgsConfig;
use safe_pkgs::lockfile::collect_cargo_manifest;
use safe_pkgs::model::{PackageAdvisory, PackageRecord, PackageVersion, Severity};
use safe_pkgs::pipeline::{
    data_plan, enabled_checks, evaluate_with_data, needs_popular_names, prefetch_denial,
    runtime_requirements_for_registry, CheckKind, GatheredData, PackageLookupState,
};
use safe_pkgs::service::LockfileAudit;

const DAY: i64 = 86_400;
const NOW: i64 = 1_750_000_000;

fn version(v: &str, age_days: i64) -> PackageVersion {
    PackageVersion {
        version: v.to_string(),
        published: Some(NOW - age_days * DAY),
        deprecated: false,
        install_scripts: Vec::new(),
    }
}

fn record(name: &str, latest: &str, versions: Vec<PackageVersion>) -> PackageRecord {
    PackageRecord {
        name: name.to_string(),
        latest: latest.to_string(),
        publishers: vec!["someone".to_string()],
        versions,
    }
}

fn data(downloads: Option<u64>, popular: &[&str], advisories: Vec<PackageAdvisory>) -> GatheredData {
    GatheredData {
        weekly_downloads: downloads,
        advisories,
        popular_names: popular.iter().map(|s| s.to_string()).collect(),
    }
}

#[test]
fn established_package_is_allowed_with_metadata() {
    let config = SafePkgsConfig::default();
    let supported = supported_checks(RegistryKind::Npm);
    let pkg = record("lodash", "4.17.21", vec![version("4.17.21", 10)]);
    let report = evaluate_with_data(
        &config,
        "npm",
        &supported,
        "lodash",
        Some("4.17.21"),
        Some(&pkg),
        &data(Some(1_000_000), &[], Vec::new()),
        NOW,
    );
    assert!(report.allow);
    assert_eq!(report.risk, Severity::Low);
    assert!(report.reasons.is_empty());
    assert_eq!(report.metadata.latest.as_deref(), Some("4.17.21"));
    assert_eq!(report.metadata.requested.as_deref(), Some("4.17.21"));
    assert_eq!(report.metadata.weekly_downloads, Some(1_000_000));
    let expected = chrono::DateTime::from_timestamp(NOW - 10 * DAY, 0)
        .expect("timestamp")
        .to_rfc3339();
    assert_eq!(report.metadata.published.as_deref(), Some(expected.as_str()));
    assert_eq!(expected, "2025-06-05T15:06:40+00:00");
}

#[test]
fn missing_package_is_denied_as_possible_hallucination() {
    let config = SafePkgsConfig::default();
    let supported = supported_checks(RegistryKind::Npm);
    let report = evaluate_with_data(
        &config, "npm", &supported, "imaginary-xyz", None, None, &data(None, &[], Vec::new()), NOW,
    );
    assert!(!report.allow);
    assert_eq!(report.risk, Severity::Critical);
    assert_eq!(
        report.reasons,
        vec!["imaginary-xyz does not exist (possible hallucination / slopsquatting)"]
    );
}

#[test]
fn denylisted_name_is_denied_before_fetching() {
    let mut config = SafePkgsConfig::default();
    config.denylist.packages = vec!["demo".to_string()];
    let denial = prefetch_denial(&config, "demo", Some("1.0.0")).expect("denied");
    assert!(!denial.allow);
    assert_eq!(denial.risk, Severity::Critical);
    assert_eq!(denial.reasons, vec!["demo matched denylist package rule 'demo'"]);
    let supported = supported_checks(RegistryKind::Npm);
    let report = evaluate_with_data(&config, "npm", &supported, "demo", Some("1.0.0"), None, &data(None, &[], Vec::new()), NOW);
    assert_eq!(report.reasons, vec!["demo matched denylist package rule 'demo'"]);
}

#[test]
fn versioned_and_scoped_rules_match_on_the_last_at() {
    let mut config = SafePkgsConfig::default();
    config.denylist.packages = vec!["@scope/pkg@2.0.0".to_string()];
    assert!(prefetch_denial(&config, "@scope/pkg", Some("2.0.0")).is_some());
    assert!(prefetch_denial(&config, "@scope/pkg", Some("1.0.0")).is_none());
    let pkg = record("@scope/pkg", "2.0.0", vec![version("2.0.0", 100)]);
    let supported = supported_checks(RegistryKind::Npm);
    let report = evaluate_with_data(&config, "npm", &supported, "@scope/pkg", None, Some(&pkg), &data(Some(10_000), &[], Vec::new()), NOW);
    assert!(!report.allow);
    assert_eq!(report.reasons, vec!["@scope/pkg matched denylist package rule '@scope/pkg@2.0.0'"]);
}

#[test]
fn allowlist_and_publisher_rules_short_circuit() {
    let supported = supported_checks(RegistryKind::Npm);
    let pkg = record("demo", "1.0.0", vec![version("1.0.0", 1)]);
    let mut config = SafePkgsConfig::default();
    config.allowlist.packages = vec!["demo".to_string()];
    let report = evaluate_with_data(&config, "npm", &supported, "demo", None, Some(&pkg), &data(Some(1), &[], Vec::new()), NOW);
    assert!(report.allow);
    assert_eq!(report.risk, Severity::Low);
    assert_eq!(report.reasons, vec!["demo matched allowlist package rule 'demo'"]);

    config.denylist.publishers = vec!["SOMEONE".to_string()];
    let report = evaluate_with_data(&config, "npm", &supported, "demo", None, Some(&pkg), &data(Some(1), &[], Vec::new()), NOW);
    assert!(!report.allow);
    assert_eq!(report.reasons, vec!["demo is published by denylisted publisher 'SOMEONE'"]);
}

#[test]
fn typosquat_of_popular_name_is_denied() {
    let config = SafePkgsConfig::default();
    let supported = supported_checks(RegistryKind::Npm);
    let pkg = record("raect", "1.0.0", vec![version("1.0.0", 100)]);
    let plan = data_plan(&config, "npm", &supported, true, true);
    assert!(plan.needs_weekly_downloads);
    assert!(needs_popular_names(&plan, Some(10)));
    let report = evaluate_with_data(
        &config,
        "npm",
        &supported,
        "raect",
        Some("1.0.0"),
        Some(&pkg),
        &data(Some(10), &["react", "lodash"], Vec::new()),
        NOW,
    );
    assert!(!report.allow);
    assert_eq!(report.risk, Severity::High);
    assert!(report
        .reasons
        .iter()
        .any(|r| r.contains("react") && r.contains("2 edit(s)")));
}

#[test]
fn fresh_release_is_denied_by_version_age() {
    let config = SafePkgsConfig::default();
    let supported = supported_checks(RegistryKind::Npm);
    let pkg = record("demo", "1.0.1", vec![version("1.0.0", 1), version("1.0.1", 1)]);
    let report = evaluate_with_data(
        &config,
        "npm",
        &supported,
        "demo",
        Some("1.0.0"),
        Some(&pkg),
        &data(Some(1_000_000), &[], Vec::new()),
        NOW,
    );
    assert!(!report.allow);
    assert_eq!(report.risk, Severity::High);
    assert_eq!(report.reasons, vec!["demo@1.0.0 was published 1 day(s) ago (< 7 days)"]);
}

#[test]
fn missing_version_and_advisories_flow_through() {
    let config = SafePkgsConfig::default();
    let supported = supported_checks(RegistryKind::Cargo);
    let pkg = record("demo", "2.0.0", vec![version("1.0.0", 400), version("2.0.0", 100)]);
    let report = evaluate_with_data(&config, "cargo", &supported, "demo", Some("9.9.9"), Some(&pkg), &data(None, &[], Vec::new()), NOW);
    assert_eq!(report.reasons, vec!["demo@9.9.9 does not exist (possible hallucinated version)"]);

    let advisories = vec![PackageAdvisory {
        id: "RUSTSEC-1".to_string(),
        aliases: vec!["CVE-2".to_string()],
        fixed_versions: vec!["1.5.0".to_string()],
    }];
    let report = evaluate_with_data(&config, "cargo", &supported, "demo", Some("1.0.0"), Some(&pkg), &data(Some(100_000), &[], advisories), NOW);
    assert!(!report.allow);
    assert_eq!(report.risk, Severity::High);
    assert!(report.reasons.iter().any(|r| r.contains("CVE-2") && r.contains("newer version 1.5.0")));
}

#[test]
fn active_checks_follow_support_and_lookup_state() {
    let config = SafePkgsConfig::default();
    let npm = supported_checks(RegistryKind::Npm);
    let all = enabled_checks("npm", &npm, PackageLookupState::Ready, &config);
    assert_eq!(all.len(), 7);
    assert_eq!(all[0], CheckKind::Existence);
    let missing = enabled_checks("npm", &npm, PackageLookupState::MissingPackage, &config);
    assert_eq!(missing, vec![CheckKind::Existence]);
    let cargo = supported_checks(RegistryKind::Cargo);
    assert!(!enabled_checks("cargo", &cargo, PackageLookupState::Ready, &config).contains(&CheckKind::InstallScript));
    let needs = runtime_requirements_for_registry("npm", &npm, &config);
    assert!(needs.needs_weekly_downloads && needs.needs_advisories);
    let plan = data_plan(&config, "npm", &npm, false, false);
    assert!(!plan.needs_weekly_downloads && !plan.needs_advisories);
}

#[test]
fn lockfile_of_project_without_dependencies_is_allowed() {
    let specs = collect_cargo_manifest(&Vec::new());
    let audit = LockfileAudit::new();
    assert!(specs.is_empty());
    let response = audit.finish();
    assert!(response.allow);
    assert_eq!(response.risk, Severity::Low);
    assert_eq!(response.total, 0);
    assert_eq!(response.denied, 0);
    assert!(response.packages.is_empty());
}

#[test]
fn resolve_version_prefers_latest_when_omitted_or_latest_literal() {
    let record = record("demo", "2.0.0", vec![version("1.0.0", 5), version("2.0.0", 5)]);
    assert_eq!(record.resolve_version(None).map(|v| v.version.as_str()), Some("2.0.0"));
    assert_eq!(record.resolve_version(Some("latest")).map(|v| v.version.as_str()), Some("2.0.0"));
    assert_eq!(record.resolve_version(Some("1.0.0")).map(|v| v.version.as_str()), Some("1.0.0"));
    assert!(record.resolve_version(Some("9.9.9")).is_none());
}
