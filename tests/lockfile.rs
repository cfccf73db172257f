use safe_pkgs::lockfile::{
    collect_cargo_lock, collect_cargo_manifest, collect_package_lock, collect_package_manifest,
    collect_pyproject, extract_package_name_from_node_modules_path, insert_dependency_spec,
    is_crates_io_source, normalize_cargo_exact_version, normalize_cargo_manifest_version,
    normalize_crate_name, normalize_npm_name_segment, normalize_npm_package_name,
    normalize_poetry_exact_version, normalize_python_exact_version, normalize_python_package_name,
    normalize_requested_version, parse_python_requirement_line, parse_requirements_text,
    CargoLockEntry, CargoLockfileParser, DependencySet, ManifestDependency, NpmLockfileParser,
    PoetryDependency, PypiLockfileParser,
};
use safe_pkgs::catalog::{resolve_input_with, PathKind};
use safe_pkgs::lockfile::split_lines;
use safe_pkgs::model::{DependencySpec, LockfileError};

fn find_version<'a>(deps: &'a [DependencySpec], name: &str) -> Option<&'a str> {
    deps.iter()
        .find(|spec| spec.name == name)
        .and_then(|spec| spec.version.as_deref())
}

#[test]
fn supported_files_lists_cargo_inputs() {
    let parser = CargoLockfileParser::new();
    assert_eq!(parser.supported_files(), ["Cargo.lock", "Cargo.toml"]);
    assert_eq!(NpmLockfileParser::new().supported_files(), ["package-lock.json", "package.json"]);
    assert_eq!(PypiLockfileParser::new().supported_files(), ["requirements.txt", "pyproject.toml"]);
}

#[test]
fn normalize_manifest_version_keeps_exact_pins_only() {
    assert_eq!(
        normalize_cargo_manifest_version("=1.2.3"),
        Some("1.2.3".to_string())
    );
    assert_eq!(
        normalize_cargo_manifest_version("1.2.3"),
        Some("1.2.3".to_string())
    );
    assert_eq!(normalize_cargo_manifest_version("^1.2"), None);
    assert_eq!(normalize_cargo_manifest_version("~1.2"), None);
    assert_eq!(normalize_cargo_manifest_version("*"), None);
}

#[test]
fn cargo_names_versions_and_sources() {
    assert_eq!(normalize_crate_name("  serde_json "), Some("serde_json".to_string()));
    assert_eq!(normalize_crate_name("../evil"), None);
    assert_eq!(normalize_crate_name(""), None);
    assert_eq!(normalize_cargo_exact_version(" 1.0.0 "), Some("1.0.0".to_string()));
    assert_eq!(normalize_cargo_exact_version("1.0 .0"), None);
    assert!(is_crates_io_source(Some("registry+https://github.com/rust-lang/crates.io-index")));
    assert!(is_crates_io_source(Some("registry+sparse+https://index.crates.io/")));
    assert!(!is_crates_io_source(Some("git+https://example.com/x")));
    assert!(!is_crates_io_source(None));
}

#[test]
fn extract_package_name_from_node_modules_path_handles_nested_scopes() {
    assert_eq!(
        extract_package_name_from_node_modules_path("node_modules/react"),
        Some("react".to_string())
    );
    assert_eq!(
        extract_package_name_from_node_modules_path("node_modules/react/node_modules/@scope/pkg"),
        Some("@scope/pkg".to_string())
    );
    assert_eq!(
        extract_package_name_from_node_modules_path("node_modules/"),
        None
    );
    assert_eq!(
        extract_package_name_from_node_modules_path("packages/demo"),
        None
    );
    assert_eq!(
        extract_package_name_from_node_modules_path("node_modules/../../evil"),
        None
    );
}

#[test]
fn normalize_requested_version_only_keeps_exact_versions() {
    assert_eq!(normalize_requested_version(""), None);
    assert_eq!(
        normalize_requested_version(" latest "),
        Some("latest".to_string())
    );
    assert_eq!(
        normalize_requested_version("=1.2.3"),
        Some("1.2.3".to_string())
    );
    assert_eq!(
        normalize_requested_version("1.2.3"),
        Some("1.2.3".to_string())
    );
    assert_eq!(normalize_requested_version("^1.2.3"), None);
}

#[test]
fn normalize_npm_package_name_rejects_traversal_like_values() {
    assert_eq!(normalize_npm_package_name(""), None);
    assert_eq!(normalize_npm_package_name("../evil"), None);
    assert_eq!(normalize_npm_package_name(r"..\evil"), None);
    assert_eq!(normalize_npm_package_name("@scope/../evil"), None);
    assert_eq!(normalize_npm_package_name("pkg/sub"), None);
    assert_eq!(normalize_npm_package_name("@/pkg"), None);
    assert_eq!(normalize_npm_package_name("@scope/"), None);
}

#[test]
fn normalize_npm_package_name_accepts_and_normalizes_valid_names() {
    assert_eq!(
        normalize_npm_package_name("@Scope/Package.Name"),
        Some("@scope/package.name".to_string())
    );
    assert_eq!(
        normalize_npm_package_name("React"),
        Some("react".to_string())
    );
    assert_eq!(normalize_npm_name_segment(".."), None);
}

#[test]
fn npm_normalization_is_idempotent_on_samples() {
    for raw in ["@Scope/Package.Name", " React ", "lodash.merge"] {
        let once = normalize_npm_package_name(raw).expect("valid");
        assert_eq!(normalize_npm_package_name(&once), Some(once.clone()));
    }
}

#[test]
fn parse_python_requirement_line_supports_common_forms() {
    let pinned = parse_python_requirement_line("requests==2.31.0").expect("pinned dep");
    assert_eq!(pinned.name, "requests");
    assert_eq!(pinned.version.as_deref(), Some("2.31.0"));

    let dotted = parse_python_requirement_line("zope.interface==6.4.0").expect("dotted dep");
    assert_eq!(dotted.name, "zope-interface");
    assert_eq!(dotted.version.as_deref(), Some("6.4.0"));

    let ranged = parse_python_requirement_line("urllib3>=2.0").expect("ranged dep");
    assert_eq!(ranged.name, "urllib3");
    assert!(ranged.version.is_none());

    let direct =
        parse_python_requirement_line("demo @ https://example.com/demo.whl").expect("direct");
    assert_eq!(direct.name, "demo");
    assert!(direct.version.is_none());

    assert!(parse_python_requirement_line("# comment").is_none());
    assert!(parse_python_requirement_line("-r other.txt").is_none());
}

#[test]
fn normalize_helpers_reject_invalid_data() {
    assert_eq!(
        normalize_python_package_name("rich[markdown]"),
        Some("rich".to_string())
    );
    assert_eq!(
        normalize_python_package_name("Zope.Interface"),
        Some("zope-interface".to_string())
    );
    assert_eq!(
        normalize_python_package_name("my_pkg-name"),
        Some("my-pkg-name".to_string())
    );
    assert_eq!(normalize_python_package_name(""), None);
    assert_eq!(
        normalize_python_package_name("bad.name"),
        Some("bad-name".to_string())
    );
    assert_eq!(normalize_python_package_name("../evil"), None);
    assert_eq!(normalize_python_package_name(r"..\evil"), None);
    assert_eq!(normalize_python_package_name("..."), None);

    assert_eq!(
        normalize_python_exact_version("2.31.0,>=2"),
        Some("2.31.0".to_string())
    );
    assert_eq!(normalize_python_exact_version("2.*"), None);

    assert_eq!(
        normalize_poetry_exact_version("==1.2.3"),
        Some("1.2.3".to_string())
    );
    assert_eq!(
        normalize_poetry_exact_version("1.2.3"),
        Some("1.2.3".to_string())
    );
    assert_eq!(normalize_poetry_exact_version("^1.2"), None);
    assert_eq!(normalize_poetry_exact_version("*"), None);
}

#[test]
fn python_normalization_is_idempotent_on_samples() {
    for raw in ["Zope.Interface", "my__pkg--name", "-x-"] {
        let once = normalize_python_package_name(raw).expect("valid");
        assert_eq!(normalize_python_package_name(&once), Some(once.clone()));
    }
    let v = normalize_python_exact_version(" 2.31.0 ,<3").expect("pin");
    assert_eq!(normalize_python_exact_version(&v), Some(v.clone()));
}

#[test]
fn insert_dependency_spec_prefers_exact_pin_over_unpinned() {
    let mut deps = DependencySet::new();
    insert_dependency_spec(
        &mut deps,
        DependencySpec {
            name: "demo".to_string(),
            version: None,
        },
    );
    insert_dependency_spec(
        &mut deps,
        DependencySpec {
            name: "demo".to_string(),
            version: Some("1.0.0".to_string()),
        },
    );
    insert_dependency_spec(
        &mut deps,
        DependencySpec {
            name: "demo".to_string(),
            version: None,
        },
    );
    assert_eq!(deps.get("demo"), Some(&Some("1.0.0".to_string())));
}

#[test]
fn cargo_lock_keeps_crates_io_packages_only() {
    let entries = vec![
        CargoLockEntry {
            name: Some("serde".to_string()),
            source: Some("registry+https://github.com/rust-lang/crates.io-index".to_string()),
            version: Some("1.0.200".to_string()),
        },
        CargoLockEntry {
            name: Some("local".to_string()),
            source: None,
            version: Some("0.1.0".to_string()),
        },
    ];
    let deps = collect_cargo_lock(&entries);
    assert_eq!(deps.len(), 1);
    assert_eq!(find_version(&deps, "serde"), Some("1.0.200"));
}

#[test]
fn cargo_manifest_with_no_dependencies_is_empty() {
    let deps = collect_cargo_manifest(&Vec::new());
    assert!(deps.is_empty());
}

#[test]
fn cargo_manifest_reads_supported_dependency_forms() {
    let entries = vec![
        ("serde".to_string(), ManifestDependency::Version("=1.0.0".to_string())),
        (
            "alias".to_string(),
            ManifestDependency::Detailed {
                package: Some("tokio".to_string()),
                version: Some("1.2.3".to_string()),
                path: false,
                git: false,
                workspace: None,
                registry: None,
            },
        ),
        (
            "local".to_string(),
            ManifestDependency::Detailed {
                package: None,
                version: None,
                path: true,
                git: false,
                workspace: None,
                registry: None,
            },
        ),
        ("anyhow".to_string(), ManifestDependency::Version("^1".to_string())),
    ];
    let deps = collect_cargo_manifest(&entries);
    assert_eq!(deps.len(), 3);
    assert_eq!(find_version(&deps, "serde"), Some("1.0.0"));
    assert_eq!(find_version(&deps, "tokio"), Some("1.2.3"));
    assert!(deps.iter().any(|d| d.name == "anyhow" && d.version.is_none()));
}

#[test]
fn package_lock_falls_back_to_packages() {
    let packages = vec![
        ("".to_string(), Some("1.0.0".to_string())),
        ("node_modules/left-pad".to_string(), Some("1.3.0".to_string())),
    ];
    let deps = collect_package_lock(&Vec::new(), &packages);
    assert_eq!(deps.len(), 1);
    assert_eq!(find_version(&deps, "left-pad"), Some("1.3.0"));
}

#[test]
fn parse_manifest_skips_invalid_dependency_names() {
    let entries = vec![
        ("good-pkg".to_string(), Some("1.2.3".to_string())),
        ("../evil".to_string(), Some("9.9.9".to_string())),
        ("@scope/pkg".to_string(), Some("2.0.0".to_string())),
    ];
    let deps = collect_package_manifest(&entries);
    assert_eq!(deps.len(), 2);
    assert_eq!(find_version(&deps, "good-pkg"), Some("1.2.3"));
    assert_eq!(find_version(&deps, "@scope/pkg"), Some("2.0.0"));
    assert!(deps.iter().all(|spec| spec.name != "../evil"));
}

#[test]
fn parse_requirements_file_supports_exact_pins() {
    let deps = parse_requirements_text("requests==2.31.0\r\n# comment\nurllib3>=2\n\nrequests\n");
    assert_eq!(deps.len(), 2);
    assert_eq!(find_version(&deps, "requests"), Some("2.31.0"));
    assert!(deps.iter().any(|d| d.name == "urllib3" && d.version.is_none()));
}

#[test]
fn pyproject_reads_project_and_poetry_sections() {
    let deps = collect_pyproject(
        &vec!["requests==2.31.0".to_string()],
        &vec![
            ("python".to_string(), PoetryDependency::Version("^3.11".to_string())),
            ("Django".to_string(), PoetryDependency::Detailed { version: Some("==4.2.0".to_string()) }),
            ("rich".to_string(), PoetryDependency::Version("^13".to_string())),
        ],
    );
    assert_eq!(deps.len(), 3);
    assert_eq!(find_version(&deps, "django"), Some("4.2.0"));
    assert!(deps.iter().all(|d| d.name != "python"));
}

#[test]
fn lines_follow_str_lines() {
    for text in ["", "a", "a\n", "a\n\n", "\n", "a\r\nb", "a\nb\r\n", "x\r"] {
        let expected: Vec<String> = text.lines().map(str::to_string).collect();
        assert_eq!(split_lines(text), expected, "text {text:?}");
    }
}

#[test]
fn resolve_input_picks_files_by_name_and_order() {
    let supported = ["package-lock.json", "package.json"];
    assert_eq!(
        resolve_input_with("/p/package.json", PathKind::File, &supported, &[false, false]).unwrap(),
        "/p/package.json"
    );
    match resolve_input_with("/p/Cargo.toml", PathKind::File, &supported, &[false, false]) {
        Err(LockfileError::UnsupportedFile { file_name, expected }) => {
            assert_eq!(file_name, "Cargo.toml");
            assert_eq!(expected, "package-lock.json, package.json");
        }
        other => panic!("unexpected result: {other:?}"),
    }
    assert_eq!(
        resolve_input_with("/p", PathKind::Directory, &supported, &[false, true]).unwrap(),
        "/p/package.json"
    );
    assert_eq!(
        resolve_input_with("/p", PathKind::Directory, &supported, &[true, true]).unwrap(),
        "/p/package-lock.json"
    );
    assert!(matches!(
        resolve_input_with("/p", PathKind::Directory, &supported, &[false, false]),
        Err(LockfileError::NoSupportedDependencyFile { .. })
    ));
    assert!(matches!(
        resolve_input_with("/missing", PathKind::Missing, &supported, &[false, false]),
        Err(LockfileError::InputPathDoesNotExist { .. })
    ));
    assert!(matches!(
        resolve_input_with("/dev/null", PathKind::Other, &supported, &[false, false]),
        Err(LockfileError::InvalidInputPath { .. })
    ));
}

#[test]
fn requirement_text_reads_every_line() {
    let deps = parse_requirements_text("flask==3.0.0\r\nrich[markdown]>=13\n-e .\n");
    assert_eq!(deps.len(), 2);
    assert_eq!(find_version(&deps, "flask"), Some("3.0.0"));
    assert!(deps.iter().any(|d| d.name == "rich" && d.version.is_none()));
}
