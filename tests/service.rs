use safe_pkgs::cache::{entry_is_live, expiry_for, ttl_seconds};
use safe_pkgs::catalog::{
    check_support_rows, default_lockfile_registry_key, default_package_registry_key,
    supported_checks, supported_lockfile_files_for_registry, supported_lockfile_registry_keys,
    supported_package_registry_keys, validate_lockfile_request, validate_lockfile_request_for,
    PathKind, RegistryKind,
};
use safe_pkgs::cli::{normalize_cli_package_input, parse_inline_package_version};
use safe_pkgs::model::{CheckFinding, Metadata, Severity};
use safe_pkgs::pipeline::{check_descriptors, report_from_findings, CheckDescriptor};
use safe_pkgs::registry_data::{
    add_popular_page, cargo_record, collect_publishers, finish_popular, install_scripts, page_size,
    popular_from_cache, pypi_record, OsvAffected, OsvEvent, OsvRange, OsvVulnerability, PypiInfo,
};
use safe_pkgs::service::{
    cache_key_for_package, conclude, invalid_registry_error, is_audit_log_failure, AuditRecord,
    LockfileAudit, PackageDecision, ToolResponse,
};
use safe_pkgs::support_map::{
    flags_for_check, is_supported_for_registry, render_support_map, support_cell,
};

fn empty_metadata() -> Metadata {
    Metadata {
        latest: None,
        requested: None,
        published: None,
        weekly_downloads: None,
    }
}

#[test]
fn cache_key_uses_latest_when_version_is_missing() {
    assert_eq!(
        cache_key_for_package("abc123", "npm", "demo", None),
        "check_package:abc123:npm:demo@latest"
    );
    assert_eq!(
        cache_key_for_package("abc123", "npm", "demo", Some("1.2.3")),
        "check_package:abc123:npm:demo@1.2.3"
    );
    assert_eq!(
        cache_key_for_package("", "npm", "demo", None),
        "check_package:npm:demo@latest"
    );
}

#[test]
fn invalid_registry_error_mentions_supported_registries() {
    let err = invalid_registry_error("package", "unknown", &["npm", "cargo"]);
    let text = err.to_string();
    assert!(text.contains("unsupported package registry 'unknown'"));
    assert!(text.contains("npm, cargo"));
}

#[test]
fn audit_log_failure_detector_matches_context_string() {
    let err = anyhow::Error::msg("failed to append audit log record: permission denied");
    assert!(is_audit_log_failure(&err.to_string()));

    let other = anyhow::Error::msg("some unrelated failure");
    assert!(!is_audit_log_failure(&other.to_string()));
}

#[test]
fn package_decision_contains_expected_fields() {
    let record = AuditRecord::package_decision(PackageDecision {
        context: "check_package",
        package: "demo",
        requested: Some("1.0.0"),
        registry: "npm",
        allow: true,
        risk: Severity::Low,
        reasons: vec!["ok".to_string()],
        metadata: None,
        cached: false,
    });

    let json: serde_json::Value = serde_json::from_str(&record.to_json()).expect("serialize record");
    assert_eq!(json["context"], "check_package");
    assert_eq!(json["package"], "demo");
    assert_eq!(json["requested"], "1.0.0");
    assert_eq!(json["registry"], "npm");
    assert_eq!(json["allow"], true);
    assert_eq!(json["risk"], "low");
    assert_eq!(json["cached"], false);
}

#[test]
fn audit_line_marks_cached_decisions_and_escapes_text() {
    let record = AuditRecord::package_decision(PackageDecision {
        context: "check_package",
        package: "de\"mo\n",
        requested: None,
        registry: "npm",
        allow: false,
        risk: Severity::High,
        reasons: vec!["reason \\ one".to_string(), "tab\there\u{1}".to_string()],
        metadata: Some(Metadata {
            latest: Some("2.0.0".to_string()),
            requested: None,
            published: None,
            weekly_downloads: Some(10),
        }),
        cached: true,
    });
    let line = record.to_json();
    assert!(!line.contains('\n'));
    let json: serde_json::Value = serde_json::from_str(&line).expect("valid json line");
    assert_eq!(json["package"], "de\"mo\n");
    assert_eq!(json["cached"], true);
    assert_eq!(json["requested"], serde_json::Value::Null);
    assert_eq!(json["reasons"][1], "tab\there\u{1}");
    assert_eq!(json["metadata"]["weekly_downloads"], 10);
    assert!(json["metadata"].get("published").is_none());
}

#[test]
fn cached_response_round_trips_through_json() {
    let response = ToolResponse {
        allow: false,
        risk: Severity::Critical,
        reasons: vec!["a \"quoted\" reason".to_string()],
        metadata: Metadata {
            latest: Some("1.0.1".to_string()),
            requested: Some("1.0.0".to_string()),
            published: Some("2024-01-01T00:00:00+00:00".to_string()),
            weekly_downloads: Some(1_000_000),
        },
    };
    let encoded = response.to_json();
    let decoded: serde_json::Value = serde_json::from_str(&encoded).expect("json");
    assert_eq!(decoded["allow"], false);
    assert_eq!(decoded["risk"], "critical");
    assert_eq!(decoded["reasons"][0], "a \"quoted\" reason");
    assert_eq!(decoded["metadata"]["latest"], "1.0.1");
    assert_eq!(decoded["metadata"]["requested"], "1.0.0");
    assert_eq!(decoded["metadata"]["published"], "2024-01-01T00:00:00+00:00");
    assert_eq!(decoded["metadata"]["weekly_downloads"], 1_000_000);
    assert_eq!(serde_json::to_string(&decoded).unwrap(), serde_json::to_string(&serde_json::from_str::<serde_json::Value>(&response.to_json()).unwrap()).unwrap());
}

#[test]
fn cache_expiry_rules() {
    assert_eq!(ttl_seconds(0), Some(60));
    assert_eq!(ttl_seconds(30), Some(1800));
    assert_eq!(ttl_seconds(u64::MAX), None);
    assert_eq!(expiry_for(100, 60), Some(160));
    assert_eq!(expiry_for(i64::MAX - 10, 60), None);
    assert!(entry_is_live(160, 159));
    assert!(!entry_is_live(160, 160));
}

#[test]
fn package_without_version_is_accepted() {
    let (name, version) =
        normalize_cli_package_input("lodash", None).expect("normalize package");
    assert_eq!(name, "lodash");
    assert_eq!(version, None);
}

#[test]
fn package_with_inline_version_is_accepted() {
    let (name, version) =
        normalize_cli_package_input("lodash@4.17.21", None).expect("normalize package");
    assert_eq!(name, "lodash");
    assert_eq!(version.as_deref(), Some("4.17.21"));
}

#[test]
fn scoped_package_without_inline_version_is_accepted() {
    let (name, version) =
        normalize_cli_package_input("@types/node", None).expect("normalize package");
    assert_eq!(name, "@types/node");
    assert_eq!(version, None);
}

#[test]
fn scoped_package_with_inline_version_is_accepted() {
    let (name, version) =
        normalize_cli_package_input("@types/node@20.11.0", None).expect("normalize package");
    assert_eq!(name, "@types/node");
    assert_eq!(version.as_deref(), Some("20.11.0"));
}

#[test]
fn conflicting_inline_and_explicit_versions_are_rejected() {
    let err = normalize_cli_package_input("lodash@4.17.21", Some("4.17.20"))
        .expect_err("conflict should fail");
    assert!(
        err.to_string()
            .contains("conflicting versions provided: inline")
    );
}

#[test]
fn trailing_at_symbol_is_rejected() {
    let err = normalize_cli_package_input("lodash@", None).expect_err("should fail");
    assert!(err.to_string().contains("version after '@' is empty"));
}

#[test]
fn cli_input_edge_cases() {
    assert!(normalize_cli_package_input("   ", None).is_err());
    assert_eq!(
        normalize_cli_package_input(" lodash ", Some(" 1.0.0 ")).unwrap(),
        ("lodash".to_string(), Some("1.0.0".to_string()))
    );
    assert_eq!(
        parse_inline_package_version("a@b@1").unwrap(),
        ("a@b".to_string(), Some("1".to_string()))
    );
}

#[test]
fn supported_lockfile_files_are_exposed_per_registry() {
    let npm_files = supported_lockfile_files_for_registry("npm").expect("npm lockfile files");
    let cargo_files = supported_lockfile_files_for_registry("cargo").expect("cargo lockfile files");
    let pypi_files = supported_lockfile_files_for_registry("pypi").expect("pypi lockfile files");

    assert!(npm_files.contains(&"package-lock.json"));
    assert!(cargo_files.contains(&"Cargo.lock"));
    assert!(pypi_files.contains(&"requirements.txt"));
    assert!(supported_lockfile_files_for_registry("unknown").is_none());
}

#[test]
fn validate_lockfile_request_rejects_unknown_registry_and_empty_path() {
    let unknown = validate_lockfile_request("unknown", None).expect_err("unknown registry");
    assert!(unknown.contains("unsupported lockfile registry"));

    let empty_path =
        validate_lockfile_request("npm", Some(" ")).expect_err("empty path should fail");
    assert!(empty_path.contains("path must not be an empty string"));
}

#[test]
fn validate_lockfile_request_checks_file_names() {
    let err = validate_lockfile_request_for("cargo", Some("/tmp/x/requirements.txt"), PathKind::File)
        .expect_err("unsupported file for cargo");
    assert_eq!(err, "unsupported dependency file 'requirements.txt'; expected one of: Cargo.lock, Cargo.toml");
    assert!(validate_lockfile_request_for("cargo", Some("/tmp/x/Cargo.lock"), PathKind::File).is_ok());
    assert!(validate_lockfile_request_for("cargo", Some("/tmp/x"), PathKind::Directory).is_ok());
    assert!(validate_lockfile_request_for("npm", Some("/dev/null"), PathKind::Other).is_err());
    assert!(validate_lockfile_request_for("  ", None, PathKind::Missing).is_err());
}

#[test]
fn registry_keys_and_defaults() {
    assert_eq!(supported_package_registry_keys(), vec!["npm", "cargo", "pypi"]);
    assert_eq!(supported_lockfile_registry_keys(), vec!["npm", "cargo", "pypi"]);
    assert_eq!(default_package_registry_key(), "npm");
    assert_eq!(default_lockfile_registry_key(), "npm");
    assert!(supported_checks(RegistryKind::Npm).contains(&"install_script"));
    assert!(!supported_checks(RegistryKind::Cargo).contains(&"install_script"));
}

#[test]
fn check_support_map_marks_install_scripts_only_for_npm() {
    let rows = check_support_rows();
    let find = |registry: &str| {
        rows.iter()
            .find(|row| row.registry == registry && row.check == "install_script")
            .expect("row")
            .supported
    };
    assert!(find("npm"));
    assert!(!find("cargo"));
    assert!(!find("pypi"));
}

#[test]
fn check_support_map_has_every_registry_check_pair() {
    let rows = check_support_rows();
    let expected = supported_package_registry_keys().len() * check_descriptors().len();
    assert_eq!(rows.len(), expected);
}

#[test]
fn render_support_map_without_color_includes_sections() {
    let rendered = render_support_map(false);
    assert!(rendered.contains("safe-pkgs support map"));
    assert!(rendered.contains("Registry Coverage"));
    assert!(rendered.contains("Checks"));
    assert!(rendered.contains("npm"));
    assert!(rendered.contains("cargo"));
    assert!(rendered.contains("pypi"));
    assert!(rendered.contains("6/7 (86%)"));
}

#[test]
fn render_support_map_with_color_includes_ansi_codes() {
    let rendered = render_support_map(true);
    assert!(rendered.contains("\x1b["));
}

#[test]
fn flags_for_check_marks_required_inputs() {
    let descriptor = CheckDescriptor {
        id: "demo",
        key: "demo",
        description: "test",
        needs_weekly_downloads: true,
        needs_advisories: false,
    };
    assert_eq!(flags_for_check(descriptor), "W-");

    let descriptor = CheckDescriptor {
        id: "demo",
        key: "demo",
        description: "test",
        needs_weekly_downloads: false,
        needs_advisories: true,
    };
    assert_eq!(flags_for_check(descriptor), "-A");
}

#[test]
fn support_cell_renders_yes_and_no() {
    let yes_plain = support_cell(true, 3, false);
    let no_plain = support_cell(false, 2, false);
    assert_eq!(yes_plain.trim(), "yes");
    assert_eq!(no_plain.trim(), "no");

    let yes_colored = support_cell(true, 3, true);
    let no_colored = support_cell(false, 2, true);
    assert!(yes_colored.contains("\x1b[32m"));
    assert!(no_colored.contains("\x1b[31m"));
}

#[test]
fn support_lookup_matches_registry_and_check() {
    let rows = check_support_rows();
    assert!(is_supported_for_registry(&rows, "npm", "existence"));
    assert!(!is_supported_for_registry(&rows, "cargo", "install_script"));
    assert!(!is_supported_for_registry(&rows, "unknown", "existence"));
}

#[test]
fn multiple_medium_findings_escalate_to_high() {
    let report = report_from_findings(
        vec![
            CheckFinding {
                severity: Severity::Medium,
                reason: "signal a".to_string(),
            },
            CheckFinding {
                severity: Severity::Medium,
                reason: "signal b".to_string(),
            },
        ],
        empty_metadata(),
        Severity::Medium,
    );
    assert_eq!(report.risk, Severity::High);
    assert!(!report.allow);
}

#[test]
fn single_medium_finding_is_allowed_at_default_threshold() {
    let report = report_from_findings(
        vec![CheckFinding { severity: Severity::Medium, reason: "only".to_string() }],
        empty_metadata(),
        Severity::Medium,
    );
    assert_eq!(report.risk, Severity::Medium);
    assert!(report.allow);
    assert_eq!(report.reasons, vec!["only"]);
    let none = report_from_findings(Vec::new(), empty_metadata(), Severity::Low);
    assert_eq!(none.risk, Severity::Low);
    assert!(none.allow);
}

#[test]
fn lockfile_audit_counts_denials_and_failures() {
    let mut audit = LockfileAudit::new();
    audit.record_response(
        "ok".to_string(),
        None,
        ToolResponse { allow: true, risk: Severity::Medium, reasons: Vec::new(), metadata: empty_metadata() },
    );
    audit.record_failure("broken".to_string(), Some("1.0.0".to_string()), "registry request failed: timeout");
    let response = audit.finish();
    assert!(!response.allow);
    assert_eq!(response.risk, Severity::Critical);
    assert_eq!(response.total, 2);
    assert_eq!(response.denied, 1);
    assert_eq!(response.packages[1].reasons, vec!["package check failed: registry request failed: timeout"]);
}

#[test]
fn collect_publishers_deduplicates_and_skips_empty_values() {
    let info = PypiInfo {
        version: Some("1.0.0".to_string()),
        author: Some("Alice".to_string()),
        maintainer: Some(" alice ".to_string()),
    };
    assert_eq!(collect_publishers(&info), vec!["alice"]);
}

#[test]
fn npm_install_hooks_are_listed_in_order() {
    let scripts = vec![
        ("test".to_string(), "jest".to_string()),
        ("postinstall".to_string(), "node post.js".to_string()),
        ("preinstall".to_string(), "node pre.js".to_string()),
    ];
    assert_eq!(install_scripts(&scripts), vec!["preinstall: node pre.js", "postinstall: node post.js"]);
}

#[test]
fn osv_fixed_versions_skip_events_without_fix() {
    let vuln = OsvVulnerability {
        id: "OSV-1".to_string(),
        aliases: vec!["CVE-1".to_string()],
        affected: vec![OsvAffected {
            ranges: vec![OsvRange {
                events: vec![
                    OsvEvent { fixed: None },
                    OsvEvent { fixed: Some("1.2.3".to_string()) },
                ],
            }],
        }],
    };
    assert_eq!(vuln.fixed_versions(), vec!["1.2.3"]);
    let two = OsvVulnerability {
        id: "OSV-2".to_string(),
        aliases: Vec::new(),
        affected: vec![
            OsvAffected { ranges: vec![OsvRange { events: vec![OsvEvent { fixed: Some("1.0.1".to_string()) }] }] },
            OsvAffected {
                ranges: vec![
                    OsvRange { events: vec![OsvEvent { fixed: None }] },
                    OsvRange { events: vec![OsvEvent { fixed: Some("2.0.1".to_string()) }, OsvEvent { fixed: Some("3.0.0".to_string()) }] },
                ],
            },
        ],
    };
    assert_eq!(two.fixed_versions(), vec!["1.0.1", "2.0.1", "3.0.0"]);
    let advisory = vuln.to_advisory();
    assert_eq!(advisory.aliases, vec!["CVE-1"]);
    assert_eq!(advisory.fixed_versions, vec!["1.2.3"]);
}

#[test]
fn server_binary_name_matches_platform() {
    let expected = if std::path::MAIN_SEPARATOR == '\\' {
        "safe-pkgs.exe"
    } else {
        "safe-pkgs"
    };
    assert_eq!(safe_pkgs::cli::server_binary_name(), expected);
}

#[test]
fn pypi_record_trims_for_blankness_and_adds_latest() {
    let info = PypiInfo {
        version: Some("2.0.0".to_string()),
        author: Some("Ann".to_string()),
        maintainer: None,
    };
    let releases = vec![
        ("1.0.0".to_string(), vec![(Some(200), false), (Some(100), true)]),
        ("0.9.0".to_string(), vec![(Some(50), true)]),
    ];
    let record = pypi_record("demo", &info, &releases).expect("record");
    assert_eq!(record.latest, "2.0.0");
    let keys: Vec<&str> = record.versions.iter().map(|v| v.version.as_str()).collect();
    assert_eq!(keys, vec!["0.9.0", "1.0.0", "2.0.0"]);
    assert_eq!(record.versions[1].published, Some(100));
    assert!(!record.versions[1].deprecated);
    assert!(record.versions[0].deprecated);
    assert_eq!(record.versions[2].published, None);
    assert_eq!(record.publishers, vec!["Ann"]);
    let blank = PypiInfo { version: Some("  ".to_string()), author: None, maintainer: None };
    assert!(pypi_record("demo", &blank, &releases).is_err());
    assert!(pypi_record("demo", &info, &Vec::new()).is_err());
}

#[test]
fn cargo_record_prefers_stable_latest() {
    let versions = vec![
        ("1.1.0-beta".to_string(), Some(20), false),
        ("1.0.0".to_string(), Some(10), true),
    ];
    let record = cargo_record("demo", Some("1.0.0".to_string()), Some("1.1.0-beta".to_string()), &versions)
        .expect("record");
    assert_eq!(record.latest, "1.0.0");
    assert!(record.resolve_version(None).expect("latest").deprecated);
    let fallback = cargo_record("demo", Some(String::new()), Some("1.1.0-beta".to_string()), &versions).unwrap();
    assert_eq!(fallback.latest, "1.1.0-beta");
    assert!(cargo_record("demo", None, None, &versions).is_err());
    assert!(cargo_record("demo", Some("1.0.0".to_string()), None, &Vec::new()).is_err());
}

#[test]
fn popular_pages_are_deduplicated_and_capped() {
    let mut names: Vec<String> = Vec::new();
    let page1 = vec!["a".to_string(), "b".to_string(), "a".to_string()];
    assert!(add_popular_page(&mut names, &page1, 3));
    let page2 = vec!["b".to_string(), "c".to_string(), "d".to_string()];
    assert!(!add_popular_page(&mut names, &page2, 3));
    assert_eq!(names, vec!["a", "b", "c"]);
    assert!(!add_popular_page(&mut Vec::new(), &Vec::new(), 3));
    assert!(finish_popular(Vec::new()).is_err());
    assert_eq!(finish_popular(names.clone()).unwrap(), names);
    assert_eq!(page_size(10, 4, 250), 6);
    assert_eq!(page_size(1000, 0, 250), 250);
    assert_eq!(popular_from_cache(&None, 0), Some(Vec::new()));
    assert_eq!(popular_from_cache(&Some(names.clone()), 2), Some(vec!["a".to_string(), "b".to_string()]));
    assert_eq!(popular_from_cache(&Some(names.clone()), 5), None);
}

#[test]
fn conclusion_logs_once_and_caches_only_fresh_decisions() {
    let response = ToolResponse {
        allow: true,
        risk: Severity::Low,
        reasons: vec!["fine".to_string()],
        metadata: empty_metadata(),
    };
    let fresh = conclude("ctx", "npm", "demo", Some("1.0.0"), "check_package:npm:demo@1.0.0", response.clone(), false);
    assert!(!fresh.audit.cached);
    let (key, value) = fresh.store.clone().expect("fresh decisions are cached");
    assert_eq!(key, "check_package:npm:demo@1.0.0");
    assert_eq!(value, response.to_json());
    let served = conclude("ctx", "npm", "demo", Some("1.0.0"), "check_package:npm:demo@1.0.0", response, true);
    assert!(served.audit.cached);
    assert!(served.store.is_none());
    assert_eq!(served.audit.reasons, vec!["fine"]);
}
