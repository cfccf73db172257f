use safe_pkgs::config::{
    append_unique, normalize_check_id, normalize_registry_key, sanitize_positive_i64,
    sanitize_positive_u64, ChecksConfig, RegistryChecksConfig, SafePkgsConfig,
    DEFAULT_CACHE_TTL_MINUTES, DEFAULT_MIN_VERSION_AGE_DAYS, DEFAULT_MIN_WEEKLY_DOWNLOADS,
    DEFAULT_WARN_AGE_DAYS, DEFAULT_WARN_MAJOR_VERSIONS_BEHIND, DEFAULT_WARN_MINOR_VERSIONS_BEHIND,
};
use safe_pkgs::config::{ChecksOverlay, ConfigOverlay, DenylistConfig, StalenessOverlay};
use safe_pkgs::model::{RegistryEcosystem, Severity};

#[test]
fn normalize_check_id_converts_hyphens_to_underscores() {
    assert_eq!(normalize_check_id("check-id"), "check_id");
}

#[test]
fn normalize_check_id_normalizes_case() {
    assert_eq!(normalize_check_id("MiXeD-Case-Id"), "mixed_case_id");
}

#[test]
fn normalize_check_id_trims_whitespace() {
    assert_eq!(normalize_check_id("  Check-ID  "), "check_id");
}

#[test]
fn normalize_check_id_is_idempotent_on_samples() {
    for raw in ["  Install-Script ", "TYPO-squat", "", " - ", "a\u{2003}b"] {
        let once = normalize_check_id(raw);
        assert_eq!(normalize_check_id(&once), once);
    }
}

#[test]
fn registry_ecosystem_osv_names_are_stable() {
    assert_eq!(RegistryEcosystem::Npm.osv_name(), "npm");
    assert_eq!(RegistryEcosystem::CratesIo.osv_name(), "crates.io");
    assert_eq!(RegistryEcosystem::PyPI.osv_name(), "PyPI");
}

#[test]
fn checks_config_honors_global_and_registry_disables() {
    let mut checks = ChecksConfig {
        disable: vec!["typosquat".to_string(), "unknown-check".to_string()],
        ..ChecksConfig::default()
    };
    checks.registry.insert(
        "cargo".to_string(),
        RegistryChecksConfig {
            disable: vec!["popularity".to_string()],
        },
    );
    let supported = [
        "existence",
        "version_age",
        "staleness",
        "popularity",
        "typosquat",
        "advisory",
    ];

    assert!(!checks.is_enabled_for_registry("cargo", "typosquat", &supported));
    assert!(!checks.is_enabled_for_registry("cargo", "popularity", &supported));
    assert!(!checks.is_enabled_for_registry("CARGO", "popularity", &supported));
    assert!(checks.is_enabled_for_registry("cargo", "advisory", &supported));
    assert!(!checks.is_enabled_for_registry("cargo", "install_script", &supported));
}

#[test]
fn config_missing_config_uses_defaults() {
    let config = SafePkgsConfig::default();
    assert_eq!(config.min_version_age_days, DEFAULT_MIN_VERSION_AGE_DAYS);
    assert_eq!(config.min_weekly_downloads, DEFAULT_MIN_WEEKLY_DOWNLOADS);
    assert_eq!(config.max_risk, Severity::Medium);
    assert_eq!(
        config.staleness.warn_major_versions_behind,
        DEFAULT_WARN_MAJOR_VERSIONS_BEHIND
    );
    assert_eq!(
        config.staleness.warn_minor_versions_behind,
        DEFAULT_WARN_MINOR_VERSIONS_BEHIND
    );
    assert_eq!(config.staleness.warn_age_days, DEFAULT_WARN_AGE_DAYS);
    assert!(config.checks.disable.is_empty());
    assert!(config.checks.registry.entries.is_empty());
    assert_eq!(config.cache.ttl_minutes, DEFAULT_CACHE_TTL_MINUTES);
}

#[test]
fn merge_helpers_follow_configuration_rules() {
    let mut target = vec!["a".to_string(), "b".to_string()];
    append_unique(&mut target, vec!["b".to_string(), "c".to_string(), "c".to_string()]);
    assert_eq!(target, vec!["a", "b", "c"]);
    assert_eq!(sanitize_positive_u64(0, 30), 30);
    assert_eq!(sanitize_positive_u64(5, 30), 5);
    assert_eq!(sanitize_positive_i64(-3, 7), 7);
    assert_eq!(sanitize_positive_i64(0, 7), 7);
    assert_eq!(sanitize_positive_i64(9, 7), 9);
    assert_eq!(normalize_registry_key("NpM"), "npm");
}

#[test]
fn registry_toggles_replace_earlier_entry() {
    let mut checks = ChecksConfig::default();
    checks.registry.insert("npm".to_string(), RegistryChecksConfig { disable: vec!["advisory".to_string()] });
    checks.registry.insert("npm".to_string(), RegistryChecksConfig { disable: vec![] });
    assert_eq!(checks.registry.entries.len(), 1);
    assert!(checks.is_enabled_for_registry("npm", "Advisory", &["advisory"]));
}

#[test]
fn overlay_merges_scalars_lists_and_registry_toggles() {
    let mut config = SafePkgsConfig::default();
    config.apply_overlay(ConfigOverlay {
        min_version_age_days: Some(-1),
        min_weekly_downloads: Some(500),
        max_risk: Some(Severity::High),
        allowlist: None,
        denylist: Some(DenylistConfig { packages: vec!["evil".to_string()], publishers: vec![] }),
        staleness: Some(StalenessOverlay {
            warn_major_versions_behind: Some(0),
            warn_minor_versions_behind: Some(5),
            warn_age_days: None,
            ignore_for: Some(vec!["legacy".to_string()]),
        }),
        checks: Some(ChecksOverlay {
            disable: Some(vec!["popularity".to_string()]),
            registry: vec![("CARGO".to_string(), Some(vec!["typosquat".to_string()]))],
        }),
        cache_ttl_minutes: Some(0),
    });
    config.apply_overlay(ConfigOverlay {
        min_version_age_days: Some(3),
        min_weekly_downloads: Some(0),
        max_risk: None,
        allowlist: None,
        denylist: Some(DenylistConfig { packages: vec!["evil".to_string(), "worse".to_string()], publishers: vec![] }),
        staleness: None,
        checks: Some(ChecksOverlay {
            disable: None,
            registry: vec![("cargo".to_string(), Some(vec!["typosquat".to_string(), "advisory".to_string()]))],
        }),
        cache_ttl_minutes: Some(5),
    });
    assert_eq!(config.min_version_age_days, 3);
    assert_eq!(config.min_weekly_downloads, DEFAULT_MIN_WEEKLY_DOWNLOADS);
    assert_eq!(config.max_risk, Severity::High);
    assert_eq!(config.denylist.packages, vec!["evil", "worse"]);
    assert_eq!(config.staleness.warn_major_versions_behind, DEFAULT_WARN_MAJOR_VERSIONS_BEHIND);
    assert_eq!(config.staleness.warn_minor_versions_behind, 5);
    assert_eq!(config.staleness.ignore_for, vec!["legacy"]);
    assert_eq!(config.checks.disable, vec!["popularity"]);
    assert_eq!(config.cache.ttl_minutes, 5);
    assert_eq!(config.checks.registry.entries.len(), 1);
    assert_eq!(config.checks.registry.entries[0].0, "cargo");
    assert_eq!(config.checks.registry.entries[0].1.disable, vec!["typosquat", "advisory"]);
}
