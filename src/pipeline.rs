//! Evaluation of one package: the list of checks and what each needs, the
//! allowlist and denylist rules, running the checks in priority order, and
//! folding their findings into a decision.
use vstd::prelude::*;
use crate::checks::advisory::{advisory_finding, advisory_ok};
use crate::checks::existence::{existence_findings, existence_ok};
use crate::checks::install_script::{install_script_finding, install_script_ok};
use crate::checks::popularity::{YOUNG_PACKAGE_AGE_DAYS, popularity_finding, popularity_ok};
use crate::checks::staleness::{age_part, deprecated_part, findings_view, gap_part, ignored_spec, staleness_findings};
use crate::checks::typosquat::{typosquat_finding, typosquat_ok};
use crate::checks::version_age::{version_age_finding, version_age_ok};
use crate::clock::{rfc3339_of, rfc3339_text};
use crate::config::{SafePkgsConfig, strings_view};
use crate::model::{
    CheckFinding, CheckPolicy, Metadata, PackageAdvisory, PackageRecord, PackageVersion, Severity,
    opt_str_view, opt_view, own_opt, resolve_key, version_index,
};
use crate::text::{append_str, chars_of, chars_range, eq_chars, last_index_exec, last_index_of, lower_chars, lower_spec};

verus! {

/// The checks this engine runs, in registration order.
#[derive(Debug, Clone, Copy, PartialEq, Eq, Structural)]
pub enum CheckKind {
    Existence,
    VersionAge,
    Staleness,
    Popularity,
    InstallScript,
    Typosquat,
    Advisory,
}

impl CheckKind {
    pub open spec fn id_spec(self) -> Seq<char> {
        match self {
            CheckKind::Existence => "existence"@,
            CheckKind::VersionAge => "version_age"@,
            CheckKind::Staleness => "staleness"@,
            CheckKind::Popularity => "popularity"@,
            CheckKind::InstallScript => "install_script"@,
            CheckKind::Typosquat => "typosquat"@,
            CheckKind::Advisory => "advisory"@,
        }
    }

    /// Stable id used by configuration and the support matrix.
    pub fn id(self) -> (r: &'static str)
        ensures
            r@ == self.id_spec(),
    {
        match self {
            CheckKind::Existence => "existence",
            CheckKind::VersionAge => "version_age",
            CheckKind::Staleness => "staleness",
            CheckKind::Popularity => "popularity",
            CheckKind::InstallScript => "install_script",
            CheckKind::Typosquat => "typosquat",
            CheckKind::Advisory => "advisory",
        }
    }

    /// One-line description.
    pub fn description(self) -> &'static str {
        match self {
            CheckKind::Existence => "Ensures package and requested version exist in the selected registry.",
            CheckKind::VersionAge => "Flags versions newer than the configured minimum package age.",
            CheckKind::Staleness => "Flags deprecated or stale package versions based on age and semver distance.",
            CheckKind::Popularity => "Flags very new packages with low adoption based on weekly downloads.",
            CheckKind::InstallScript => "Flags suspicious package install hooks (preinstall/install/postinstall).",
            CheckKind::Typosquat => "Flags low-adoption package names that are close to popular package names.",
            CheckKind::Advisory => "Flags vulnerability advisories and suggests fixed versions when known.",
        }
    }

    pub open spec fn priority_spec(self) -> u16 {
        match self {
            CheckKind::Existence => 0,
            _ => 100,
        }
    }

    /// Lower runs first.
    pub fn priority(self) -> (r: u16)
        ensures
            r == self.priority_spec(),
    {
        match self {
            CheckKind::Existence => 0,
            _ => 100,
        }
    }

    pub open spec fn always_enabled_spec(self) -> bool {
        self == CheckKind::Existence
    }

    /// Runs whatever the configuration says.
    pub fn always_enabled(self) -> (r: bool)
        ensures
            r == self.always_enabled_spec(),
    {
        match self {
            CheckKind::Existence => true,
            _ => false,
        }
    }

    pub open spec fn runs_on_missing_spec(self) -> bool {
        self == CheckKind::Existence
    }

    /// Runs when the package or the version could not be found.
    pub fn runs_on_missing(self) -> (r: bool)
        ensures
            r == self.runs_on_missing_spec(),
    {
        match self {
            CheckKind::Existence => true,
            _ => false,
        }
    }

    pub open spec fn needs_weekly_downloads_spec(self) -> bool {
        self == CheckKind::Popularity || self == CheckKind::Typosquat
    }

    pub fn needs_weekly_downloads(self) -> (r: bool)
        ensures
            r == self.needs_weekly_downloads_spec(),
    {
        match self {
            CheckKind::Popularity => true,
            CheckKind::Typosquat => true,
            _ => false,
        }
    }

    pub open spec fn needs_advisories_spec(self) -> bool {
        self == CheckKind::Advisory
    }

    pub fn needs_advisories(self) -> (r: bool)
        ensures
            r == self.needs_advisories_spec(),
    {
        match self {
            CheckKind::Advisory => true,
            _ => false,
        }
    }
}

/// The existence check.
#[derive(Debug, Clone, Copy)]
pub struct ExistenceCheck;

/// The version-age check.
#[derive(Debug, Clone, Copy)]
pub struct VersionAgeCheck;

/// The staleness check.
#[derive(Debug, Clone, Copy)]
pub struct StalenessCheck;

/// The popularity check.
#[derive(Debug, Clone, Copy)]
pub struct PopularityCheck;

/// The install-script check.
#[derive(Debug, Clone, Copy)]
pub struct InstallScriptCheck;

/// The typosquat check.
#[derive(Debug, Clone, Copy)]
pub struct TyposquatCheck;

/// The advisory check.
#[derive(Debug, Clone, Copy)]
pub struct AdvisoryCheck;

impl ExistenceCheck {
    pub fn kind(&self) -> (r: CheckKind)
        ensures
            r == CheckKind::Existence,
    {
        CheckKind::Existence
    }
}

impl VersionAgeCheck {
    pub fn kind(&self) -> (r: CheckKind)
        ensures
            r == CheckKind::VersionAge,
    {
        CheckKind::VersionAge
    }
}

impl StalenessCheck {
    pub fn kind(&self) -> (r: CheckKind)
        ensures
            r == CheckKind::Staleness,
    {
        CheckKind::Staleness
    }
}

impl PopularityCheck {
    pub fn kind(&self) -> (r: CheckKind)
        ensures
            r == CheckKind::Popularity,
    {
        CheckKind::Popularity
    }
}

impl InstallScriptCheck {
    pub fn kind(&self) -> (r: CheckKind)
        ensures
            r == CheckKind::InstallScript,
    {
        CheckKind::InstallScript
    }
}

impl TyposquatCheck {
    pub fn kind(&self) -> (r: CheckKind)
        ensures
            r == CheckKind::Typosquat,
    {
        CheckKind::Typosquat
    }
}

impl AdvisoryCheck {
    pub fn kind(&self) -> (r: CheckKind)
        ensures
            r == CheckKind::Advisory,
    {
        CheckKind::Advisory
    }
}

pub open spec fn registered_spec() -> Seq<CheckKind> {
    seq![
        CheckKind::Existence,
        CheckKind::VersionAge,
        CheckKind::Staleness,
        CheckKind::Popularity,
        CheckKind::InstallScript,
        CheckKind::Typosquat,
        CheckKind::Advisory,
    ]
}

/// Every check, in registration order.
pub fn registered_checks() -> (r: Vec<CheckKind>)
    ensures
        r@ == registered_spec(),
{
    let r = vec![
        CheckKind::Existence,
        CheckKind::VersionAge,
        CheckKind::Staleness,
        CheckKind::Popularity,
        CheckKind::InstallScript,
        CheckKind::Typosquat,
        CheckKind::Advisory,
    ];
    assert(r@ =~= registered_spec());
    r
}

/// Descriptor of a check as tooling shows it.
#[derive(Debug, Clone, Copy)]
pub struct CheckDescriptor {
    pub id: &'static str,
    pub key: &'static str,
    pub description: &'static str,
    pub needs_weekly_downloads: bool,
    pub needs_advisories: bool,
}

/// Descriptors of every registered check, in registration order.
pub fn check_descriptors() -> (r: Vec<CheckDescriptor>)
    ensures
        r@.len() == registered_spec().len(),
        forall|i: int|
            0 <= i < r@.len() ==> (#[trigger] r@[i]).id@ == registered_spec()[i].id_spec()
                && r@[i].key@ == registered_spec()[i].id_spec() && r@[i].needs_weekly_downloads
                == registered_spec()[i].needs_weekly_downloads_spec() && r@[i].needs_advisories
                == registered_spec()[i].needs_advisories_spec(),
{
    let checks = registered_checks();
    let mut out: Vec<CheckDescriptor> = Vec::new();
    let mut i: usize = 0;
    while i < checks.len()
        invariant
            checks@ == registered_spec(),
            i <= checks@.len(),
            out@.len() == i,
            forall|j: int|
                0 <= j < i ==> (#[trigger] out@[j]).id@ == registered_spec()[j].id_spec()
                    && out@[j].key@ == registered_spec()[j].id_spec()
                    && out@[j].needs_weekly_downloads
                    == registered_spec()[j].needs_weekly_downloads_spec()
                    && out@[j].needs_advisories == registered_spec()[j].needs_advisories_spec(),
        decreases checks@.len() - i,
    {
        let c = checks[i];
        out.push(
            CheckDescriptor {
                id: c.id(),
                key: c.id(),
                description: c.description(),
                needs_weekly_downloads: c.needs_weekly_downloads(),
                needs_advisories: c.needs_advisories(),
            },
        );
        i = i + 1;
    }
    out
}

/// How far the registry lookup got.
#[derive(Debug, Clone, Copy, PartialEq, Eq, Structural)]
pub enum PackageLookupState {
    MissingPackage,
    MissingVersion,
    Ready,
}

pub open spec fn lookup_state_spec(package_found: bool, version_resolved: bool) -> PackageLookupState {
    if !package_found {
        PackageLookupState::MissingPackage
    } else if !version_resolved {
        PackageLookupState::MissingVersion
    } else {
        PackageLookupState::Ready
    }
}

pub fn package_lookup_state(package_found: bool, version_resolved: bool) -> (r: PackageLookupState)
    ensures
        r == lookup_state_spec(package_found, version_resolved),
{
    if !package_found {
        PackageLookupState::MissingPackage
    } else if !version_resolved {
        PackageLookupState::MissingVersion
    } else {
        PackageLookupState::Ready
    }
}

/// Whether a check is active: switched on (always, or by configuration for
/// this registry), and able to run in this lookup state.
pub open spec fn is_active(
    check: CheckKind,
    config: SafePkgsConfig,
    registry_key: Seq<char>,
    supported: Seq<Seq<char>>,
    state: PackageLookupState,
) -> bool {
    (check.always_enabled_spec() || config.checks.enabled_spec(registry_key, check.id_spec(), supported))
        && (state == PackageLookupState::Ready || check.runs_on_missing_spec())
}

/// The active checks among `checks`, in their order.
pub open spec fn keep_active(
    checks: Seq<CheckKind>,
    config: SafePkgsConfig,
    registry_key: Seq<char>,
    supported: Seq<Seq<char>>,
    state: PackageLookupState,
) -> Seq<CheckKind>
    decreases checks.len(),
{
    if checks.len() == 0 {
        seq![]
    } else {
        let rest = keep_active(checks.drop_last(), config, registry_key, supported, state);
        if is_active(checks.last(), config, registry_key, supported, state) {
            rest.push(checks.last())
        } else {
            rest
        }
    }
}

proof fn lemma_keep_active_sorted(
    checks: Seq<CheckKind>,
    config: SafePkgsConfig,
    registry_key: Seq<char>,
    supported: Seq<Seq<char>>,
    state: PackageLookupState,
)
    requires
        forall|i: int, j: int|
            0 <= i < j < checks.len() ==> (#[trigger] checks[i]).priority_spec() <= (
            #[trigger] checks[j]).priority_spec(),
    ensures
        forall|x: int|
            0 <= x < keep_active(checks, config, registry_key, supported, state).len() ==> exists|
                i: int,
            |
                0 <= i < checks.len() && checks[i] == #[trigger] keep_active(
                    checks,
                    config,
                    registry_key,
                    supported,
                    state,
                )[x],
        forall|x: int, y: int|
            0 <= x < y < keep_active(checks, config, registry_key, supported, state).len() ==> (
            #[trigger] keep_active(checks, config, registry_key, supported, state)[x]).priority_spec()
                <= (#[trigger] keep_active(
                checks,
                config,
                registry_key,
                supported,
                state,
            )[y]).priority_spec(),
    decreases checks.len(),
{
    if checks.len() > 0 {
        let init = checks.drop_last();
        assert forall|i: int, j: int| 0 <= i < j < init.len() implies (#[trigger] init[i]).priority_spec()
            <= (#[trigger] init[j]).priority_spec() by {
            assert(init[i] == checks[i] && init[j] == checks[j]);
        }
        lemma_keep_active_sorted(init, config, registry_key, supported, state);
        let rest = keep_active(init, config, registry_key, supported, state);
        let all = keep_active(checks, config, registry_key, supported, state);
        assert forall|x: int| 0 <= x < rest.len() implies exists|i: int|
            0 <= i < checks.len() && checks[i] == #[trigger] rest[x] by {
            let i = choose|i: int| 0 <= i < init.len() && init[i] == rest[x];
            assert(checks[i] == init[i]);
        }
        if is_active(checks.last(), config, registry_key, supported, state) {
            assert forall|x: int| 0 <= x < all.len() implies exists|i: int|
                0 <= i < checks.len() && checks[i] == #[trigger] all[x] by {
                if x < rest.len() {
                    assert(all[x] == rest[x]);
                } else {
                    assert(all[x] == checks[checks.len() - 1]);
                }
            }
            assert forall|x: int, y: int| 0 <= x < y < all.len() implies (
            #[trigger] all[x]).priority_spec() <= (#[trigger] all[y]).priority_spec() by {
                if y < rest.len() {
                    assert(all[x] == rest[x] && all[y] == rest[y]);
                } else {
                    assert(all[x] == rest[x]);
                    let i = choose|i: int| 0 <= i < checks.len() && checks[i] == #[trigger] rest[x];
                    assert(all[y] == checks[checks.len() - 1]);
                    if i < checks.len() - 1 {
                        assert(checks[i].priority_spec() <= checks[checks.len() - 1].priority_spec());
                    }
                }
            }
        }
    }
}

/// The checks that run for a request, in the order they run: switched on
/// for this registry (or always on), able to run in the lookup state, by
/// ascending priority with registration order among equals.
pub fn enabled_checks(
    registry_key: &str,
    supported_checks: &[&str],
    lookup_state: PackageLookupState,
    config: &SafePkgsConfig,
) -> (r: Vec<CheckKind>)
    requires
        config.well_formed(),
    ensures
        r@ == keep_active(
            registered_spec(),
            *config,
            registry_key@,
            crate::config::strs_view(supported_checks@),
            lookup_state,
        ),
        forall|x: int, y: int|
            0 <= x < y < r@.len() ==> (#[trigger] r@[x]).priority_spec() <= (
            #[trigger] r@[y]).priority_spec(),
{
    let all = registered_checks();
    let mut out: Vec<CheckKind> = Vec::new();
    let mut i: usize = 0;
    while i < all.len()
        invariant
            config.well_formed(),
            all@ == registered_spec(),
            i <= all@.len(),
            out@ == keep_active(
                all@.take(i as int),
                *config,
                registry_key@,
                crate::config::strs_view(supported_checks@),
                lookup_state,
            ),
        decreases all@.len() - i,
    {
        let c = all[i];
        let on = c.always_enabled() || config.checks.is_enabled_for_registry(
            registry_key,
            c.id(),
            supported_checks,
        );
        let fits = match lookup_state {
            PackageLookupState::Ready => true,
            _ => c.runs_on_missing(),
        };
        assert(all@.take(i + 1).drop_last() =~= all@.take(i as int));
        if on && fits {
            out.push(c);
        }
        i = i + 1;
    }
    assert(all@.take(i as int) =~= all@);
    proof {
        lemma_keep_active_sorted(
            registered_spec(),
            *config,
            registry_key@,
            crate::config::strs_view(supported_checks@),
            lookup_state,
        );
    }
    out
}

/// What the active checks need fetched.
#[derive(Debug, Clone, Copy)]
pub struct CheckRuntimeRequirements {
    pub needs_weekly_downloads: bool,
    pub needs_advisories: bool,
}

pub open spec fn any_needs_downloads(checks: Seq<CheckKind>) -> bool {
    exists|i: int| 0 <= i < checks.len() && (#[trigger] checks[i]).needs_weekly_downloads_spec()
}

pub open spec fn any_needs_advisories(checks: Seq<CheckKind>) -> bool {
    exists|i: int| 0 <= i < checks.len() && (#[trigger] checks[i]).needs_advisories_spec()
}

/// The data needs of a list of checks: each flag is the OR over the checks.
pub fn requirements_of(checks: &Vec<CheckKind>) -> (r: CheckRuntimeRequirements)
    ensures
        r.needs_weekly_downloads == any_needs_downloads(checks@),
        r.needs_advisories == any_needs_advisories(checks@),
{
    let mut downloads = false;
    let mut advisories = false;
    let mut i: usize = 0;
    while i < checks.len()
        invariant
            i <= checks@.len(),
            downloads == exists|j: int|
                0 <= j < i && (#[trigger] checks@[j]).needs_weekly_downloads_spec(),
            advisories == exists|j: int|
                0 <= j < i && (#[trigger] checks@[j]).needs_advisories_spec(),
        decreases checks@.len() - i,
    {
        if checks[i].needs_weekly_downloads() {
            downloads = true;
        }
        if checks[i].needs_advisories() {
            advisories = true;
        }
        i = i + 1;
    }
    CheckRuntimeRequirements { needs_weekly_downloads: downloads, needs_advisories: advisories }
}

/// What a registry's lockfile audit should prefetch: the needs of the checks
/// that would run on a fully resolved package.
pub fn runtime_requirements_for_registry(
    registry_key: &str,
    supported_checks: &[&str],
    config: &SafePkgsConfig,
) -> (r: CheckRuntimeRequirements)
    requires
        config.well_formed(),
    ensures
        r.needs_weekly_downloads == any_needs_downloads(
            keep_active(
                registered_spec(),
                *config,
                registry_key@,
                crate::config::strs_view(supported_checks@),
                PackageLookupState::Ready,
            ),
        ),
        r.needs_advisories == any_needs_advisories(
            keep_active(
                registered_spec(),
                *config,
                registry_key@,
                crate::config::strs_view(supported_checks@),
                PackageLookupState::Ready,
            ),
        ),
{
    let checks = enabled_checks(registry_key, supported_checks, PackageLookupState::Ready, config);
    requirements_of(&checks)
}

// ---------------------------------------------------------------------------
// Aggregation
/// The decision for one package.
#[derive(Debug, Clone)]
pub struct CheckReport {
    pub allow: bool,
    pub risk: Severity,
    pub reasons: Vec<String>,
    pub metadata: Metadata,
}

pub open spec fn highest(sevs: Seq<Severity>) -> Severity
    decreases sevs.len(),
{
    if sevs.len() == 0 {
        Severity::Low
    } else {
        crate::model::max_severity(highest(sevs.drop_last()), sevs.last())
    }
}

pub open spec fn medium_count(sevs: Seq<Severity>) -> nat
    decreases sevs.len(),
{
    if sevs.len() == 0 {
        0
    } else {
        medium_count(sevs.drop_last()) + if sevs.last() == Severity::Medium {
            1nat
        } else {
            0nat
        }
    }
}

/// Overall risk: the highest severity (low when none), raised to high when
/// two or more medium findings stand and nothing is high already.
pub open spec fn aggregate_risk(sevs: Seq<Severity>) -> Severity {
    let top = highest(sevs);
    if medium_count(sevs) >= 2 && top.rank() < Severity::High.rank() {
        Severity::High
    } else {
        top
    }
}

pub open spec fn severities(findings: Seq<CheckFinding>) -> Seq<Severity> {
    findings.map_values(|f: CheckFinding| f.severity)
}

pub open spec fn reasons_of(findings: Seq<CheckFinding>) -> Seq<Seq<char>> {
    findings.map_values(|f: CheckFinding| f.reason@)
}

/// Folds findings into a decision: risk as `aggregate_risk`, allowed when
/// the risk is at most `max_risk`, reasons in finding order.
pub fn report_from_findings(findings: Vec<CheckFinding>, metadata: Metadata, max_risk: Severity) -> (r:
    CheckReport)
    ensures
        r.risk == aggregate_risk(severities(findings@)),
        r.allow == (r.risk.rank() <= max_risk.rank()),
        strings_view(r.reasons@) == reasons_of(findings@),
        r.metadata == metadata,
{
    let mut risk = Severity::Low;
    let mut mediums: usize = 0;
    let mut reasons: Vec<String> = Vec::new();
    let mut i: usize = 0;
    while i < findings.len()
        invariant
            i <= findings@.len(),
            mediums as nat == medium_count(severities(findings@.take(i as int))),
            mediums <= i,
            risk == highest(severities(findings@.take(i as int))),
            strings_view(reasons@) == reasons_of(findings@.take(i as int)),
        decreases findings@.len() - i,
    {
        let ghost next = severities(findings@.take(i + 1));
        assert(next.drop_last() =~= severities(findings@.take(i as int)));
        assert(next.last() == findings@[i as int].severity);
        let severity = findings[i].severity;
        if severity == Severity::Medium {
            mediums = mediums + 1;
        }
        risk = risk.max_with(severity);
        let ghost before = reasons@;
        reasons.push(findings[i].reason.clone());
        assert(findings@.take(i + 1) =~= findings@.take(i as int).push(findings@[i as int]));
        assert(strings_view(reasons@) =~= strings_view(before).push(findings@[i as int].reason@));
        assert(reasons_of(findings@.take(i + 1)) =~= reasons_of(findings@.take(i as int)).push(
            findings@[i as int].reason@,
        ));
        assert(strings_view(reasons@) =~= reasons_of(findings@.take(i + 1)));
        i = i + 1;
    }
    assert(findings@.take(i as int) =~= findings@);
    if mediums >= 2 && risk.level() < Severity::High.level() {
        risk = Severity::High;
    }
    CheckReport { allow: risk.at_most(&max_risk), risk, reasons, metadata }
}

/// A decision that denies at critical risk with one reason.
pub fn deny_report(reason: String, metadata: Metadata) -> (r: CheckReport)
    ensures
        !r.allow,
        r.risk == Severity::Critical,
        strings_view(r.reasons@) == seq![reason@],
        r.metadata == metadata,
{
    let mut reasons: Vec<String> = Vec::new();
    reasons.push(reason);
    assert(strings_view(reasons@) =~= seq![reasons@[0]@]);
    CheckReport { allow: false, risk: Severity::Critical, reasons, metadata }
}

/// A decision that allows at low risk with one reason.
pub fn allow_report(reason: String, metadata: Metadata) -> (r: CheckReport)
    ensures
        r.allow,
        r.risk == Severity::Low,
        strings_view(r.reasons@) == seq![reason@],
        r.metadata == metadata,
{
    let mut reasons: Vec<String> = Vec::new();
    reasons.push(reason);
    assert(strings_view(reasons@) =~= seq![reasons@[0]@]);
    CheckReport { allow: true, risk: Severity::Low, reasons, metadata }
}

// ---------------------------------------------------------------------------
// Allowlist and denylist rules

/// A package rule matches: `name@version` when the part after the last `@`
/// (with a nonempty part before it) equals the requested or resolved
/// version, else the whole rule equals the name.
pub open spec fn package_rule_matches(
    rule: Seq<char>,
    name: Seq<char>,
    requested: Option<Seq<char>>,
    resolved: Option<Seq<char>>,
) -> bool {
    match last_index_of(rule, '@') {
        Some(k) => if k > 0 {
            rule.take(k) == name && (requested == Some(rule.skip(k + 1)) || resolved == Some(
                rule.skip(k + 1),
            ))
        } else {
            rule == name
        },
        None => rule == name,
    }
}

/// Index of the first matching rule.
pub open spec fn first_rule(
    rules: Seq<String>,
    name: Seq<char>,
    requested: Option<Seq<char>>,
    resolved: Option<Seq<char>>,
) -> Option<int> {
    if exists|i: int|
        0 <= i < rules.len() && package_rule_matches((#[trigger] rules[i])@, name, requested, resolved) {
        Some(
            choose|i: int|
                0 <= i < rules.len() && package_rule_matches(
                    (#[trigger] rules[i])@,
                    name,
                    requested,
                    resolved,
                ) && forall|j: int|
                    0 <= j < i ==> !package_rule_matches(
                        (#[trigger] rules[j])@,
                        name,
                        requested,
                        resolved,
                    ),
        )
    } else {
        None
    }
}

fn opt_eq(a: Option<&str>, b: &[char]) -> (r: bool)
    ensures
        r == (opt_str_view(a) == Some(b@)),
{
    match a {
        Some(x) => {
            let xc = chars_of(x);
            eq_chars(xc.as_slice(), b)
        },
        None => false,
    }
}

fn rule_matches_exec(rule: &str, name: &str, requested: Option<&str>, resolved: Option<&str>) -> (r:
    bool)
    ensures
        r == package_rule_matches(rule@, name@, opt_str_view(requested), opt_str_view(resolved)),
{
    let rc = chars_of(rule);
    let nc = chars_of(name);
    match last_index_exec(rc.as_slice(), '@') {
        Some(k) => {
            if k > 0 {
                let n = rc.len();
                let rule_name = chars_range(rc.as_slice(), 0, k);
                let rule_version = chars_range(rc.as_slice(), k + 1, n);
                assert(rule_name@ =~= rule@.take(k as int));
                assert(rule_version@ =~= rule@.skip(k + 1));
                eq_chars(rule_name.as_slice(), nc.as_slice()) && (opt_eq(
                    requested,
                    rule_version.as_slice(),
                ) || opt_eq(resolved, rule_version.as_slice()))
            } else {
                eq_chars(rc.as_slice(), nc.as_slice())
            }
        },
        None => eq_chars(rc.as_slice(), nc.as_slice()),
    }
}

proof fn lemma_first_rule(
    rules: Seq<String>,
    name: Seq<char>,
    requested: Option<Seq<char>>,
    resolved: Option<Seq<char>>,
    i: int,
)
    requires
        0 <= i < rules.len(),
        package_rule_matches(rules[i]@, name, requested, resolved),
        forall|j: int| 0 <= j < i ==> !package_rule_matches((#[trigger] rules[j])@, name, requested, resolved),
    ensures
        first_rule(rules, name, requested, resolved) == Some(i),
{
    let k = choose|k: int|
        0 <= k < rules.len() && package_rule_matches((#[trigger] rules[k])@, name, requested, resolved)
            && forall|j: int|
            0 <= j < k ==> !package_rule_matches((#[trigger] rules[j])@, name, requested, resolved);
    assert(0 <= k < rules.len() && package_rule_matches(rules[k]@, name, requested, resolved)
        && forall|j: int|
        0 <= j < k ==> !package_rule_matches((#[trigger] rules[j])@, name, requested, resolved));
    if k < i {
        assert(!package_rule_matches(rules[k]@, name, requested, resolved));
    } else if k > i {
        assert(!package_rule_matches(rules[i]@, name, requested, resolved));
    }
}

/// Index of the first rule in `name` or `name@version` form that matches.
pub fn matching_package_rule(
    rules: &Vec<String>,
    package_name: &str,
    requested_version: Option<&str>,
    resolved_version: Option<&str>,
) -> (r: Option<usize>)
    ensures
        match r {
            Some(k) => k < rules@.len() && first_rule(rules@, package_name@, opt_str_view(requested_version), opt_str_view(resolved_version)) == Some(k as int),
            None => first_rule(rules@, package_name@, opt_str_view(requested_version), opt_str_view(resolved_version)) is None,
        },
{
    let mut i: usize = 0;
    while i < rules.len()
        invariant
            i <= rules@.len(),
            forall|j: int|
                0 <= j < i ==> !package_rule_matches(
                    (#[trigger] rules@[j])@,
                    package_name@,
                    opt_str_view(requested_version),
                    opt_str_view(resolved_version),
                ),
        decreases rules@.len() - i,
    {
        if rule_matches_exec(rules[i].as_str(), package_name, requested_version, resolved_version) {
            proof {
                lemma_first_rule(rules@, package_name@, opt_str_view(requested_version), opt_str_view(resolved_version), i as int);
            }
            return Some(i);
        }
        i = i + 1;
    }
    None
}

/// A denylisted publisher name that equals one of `publishers`, ignoring
/// ASCII case.
pub open spec fn publisher_listed(denied: Seq<char>, publishers: Seq<String>) -> bool {
    exists|j: int| 0 <= j < publishers.len() && lower_spec((#[trigger] publishers[j])@) == lower_spec(denied)
}

pub open spec fn first_publisher(denied: Seq<String>, publishers: Seq<String>) -> Option<int> {
    if exists|i: int| 0 <= i < denied.len() && publisher_listed((#[trigger] denied[i])@, publishers) {
        Some(
            choose|i: int|
                0 <= i < denied.len() && publisher_listed((#[trigger] denied[i])@, publishers)
                    && forall|j: int| 0 <= j < i ==> !publisher_listed((#[trigger] denied[j])@, publishers),
        )
    } else {
        None
    }
}

fn publisher_listed_exec(denied: &str, publishers: &Vec<String>) -> (r: bool)
    ensures
        r == publisher_listed(denied@, publishers@),
{
    let dc = chars_of(denied);
    let dl = lower_chars(dc.as_slice());
    let mut j: usize = 0;
    while j < publishers.len()
        invariant
            j <= publishers@.len(),
            dl@ == lower_spec(denied@),
            forall|x: int| 0 <= x < j ==> lower_spec((#[trigger] publishers@[x])@) != lower_spec(denied@),
        decreases publishers@.len() - j,
    {
        let pc = chars_of(publishers[j].as_str());
        let pl = lower_chars(pc.as_slice());
        if eq_chars(pl.as_slice(), dl.as_slice()) {
            return true;
        }
        j = j + 1;
    }
    false
}

/// Index of the first denylisted publisher that publishes the package.
pub fn matching_publisher(denylist_publishers: &Vec<String>, publishers: &Vec<String>) -> (r: Option<usize>)
    ensures
        match r {
            Some(k) => k < denylist_publishers@.len() && first_publisher(denylist_publishers@, publishers@) == Some(k as int),
            None => first_publisher(denylist_publishers@, publishers@) is None,
        },
{
    let mut i: usize = 0;
    while i < denylist_publishers.len()
        invariant
            i <= denylist_publishers@.len(),
            forall|j: int| 0 <= j < i ==> !publisher_listed((#[trigger] denylist_publishers@[j])@, publishers@),
        decreases denylist_publishers@.len() - i,
    {
        if publisher_listed_exec(denylist_publishers[i].as_str(), publishers) {
            proof {
                let d = denylist_publishers@;
                let k = choose|k: int|
                    0 <= k < d.len() && publisher_listed((#[trigger] d[k])@, publishers@)
                        && forall|j: int| 0 <= j < k ==> !publisher_listed((#[trigger] d[j])@, publishers@);
                assert(0 <= k < d.len() && publisher_listed(d[k]@, publishers@)
                    && forall|j: int| 0 <= j < k ==> !publisher_listed((#[trigger] d[j])@, publishers@));
                if k < i {
                    assert(!publisher_listed(d[k]@, publishers@));
                } else if k > i {
                    assert(!publisher_listed(d[i as int]@, publishers@));
                }
            }
            return Some(i);
        }
        i = i + 1;
    }
    None
}

pub open spec fn denylist_rule_reason(name: Seq<char>, rule: Seq<char>) -> Seq<char> {
    name + " matched denylist package rule '"@ + rule + "'"@
}

pub open spec fn denylist_publisher_reason(name: Seq<char>, publisher: Seq<char>) -> Seq<char> {
    name + " is published by denylisted publisher '"@ + publisher + "'"@
}

pub open spec fn allowlist_rule_reason(name: Seq<char>, rule: Seq<char>) -> Seq<char> {
    name + " matched allowlist package rule '"@ + rule + "'"@
}

fn quoted_reason(name: &str, middle: &str, quoted: &str) -> (r: String)
    ensures
        r@ == name@ + middle@ + quoted@ + "'"@,
{
    let mut reason = String::new();
    append_str(&mut reason, name);
    append_str(&mut reason, middle);
    append_str(&mut reason, quoted);
    append_str(&mut reason, "'");
    reason
}

/// The denial that applies before anything is fetched: a denylist rule on
/// the name alone or on the name and the requested version.
pub fn prefetch_denial(config: &SafePkgsConfig, package_name: &str, requested_version: Option<&str>) -> (r:
    Option<CheckReport>)
    ensures
        match first_rule(config.denylist.packages@, package_name@, opt_str_view(requested_version), None) {
            Some(i) => r is Some && !r.unwrap().allow && r.unwrap().risk == Severity::Critical
                && strings_view(r.unwrap().reasons@) == seq![
                denylist_rule_reason(package_name@, config.denylist.packages@[i]@),
            ] && opt_view(r.unwrap().metadata.requested) == opt_str_view(requested_version)
                && r.unwrap().metadata.latest is None,
            None => r is None,
        },
{
    match matching_package_rule(&config.denylist.packages, package_name, requested_version, None) {
        Some(i) => {
            let reason = quoted_reason(
                package_name,
                " matched denylist package rule '",
                config.denylist.packages[i].as_str(),
            );
            let metadata = Metadata {
                latest: None,
                requested: own_opt(requested_version),
                published: None,
                weekly_downloads: None,
            };
            assert(reason@ == denylist_rule_reason(package_name@, config.denylist.packages@[i as int]@));
            let rep = deny_report(reason, metadata);
            assert(strings_view(rep.reasons@) == seq![denylist_rule_reason(package_name@, config.denylist.packages@[i as int]@)]);
            Some(rep)
        },
        None => None,
    }
}

pub open spec fn published_view(v: PackageVersion) -> Option<Seq<char>> {
    match v.published {
        Some(p) => Some(rfc3339_text(p as int)),
        None => None,
    }
}

/// RFC 3339 text of a version's publish time.
fn published_text(version: &PackageVersion) -> (r: Option<String>)
    ensures
        r is Some ==> version.published is Some && opt_view(r) == published_view(*version),
{
    match version.published {
        Some(p) => rfc3339_of(p),
        None => None,
    }
}

/// What the rules that apply after the fetch decide: the denylist (with the
/// resolved version), then a denylisted publisher, then the allowlist; the
/// first that fires gives the one reason, none firing gives `None`.
pub open spec fn post_rules_ok(
    config: SafePkgsConfig,
    package_name: Seq<char>,
    requested: Option<Seq<char>>,
    package: PackageRecord,
    resolved: PackageVersion,
    r: Option<CheckReport>,
) -> bool {
    let deny = first_rule(config.denylist.packages@, package_name, requested, Some(resolved.version@));
    let publisher = first_publisher(config.denylist.publishers@, package.publishers@);
    let allow = first_rule(config.allowlist.packages@, package_name, requested, Some(resolved.version@));
    &&& deny matches Some(i) ==> r is Some && !r.unwrap().allow && r.unwrap().risk == Severity::Critical
        && strings_view(r.unwrap().reasons@) == seq![denylist_rule_reason(package_name, config.denylist.packages@[i]@)]
    &&& deny is None ==> (publisher matches Some(i) ==> r is Some && !r.unwrap().allow && r.unwrap().risk == Severity::Critical
        && strings_view(r.unwrap().reasons@) == seq![denylist_publisher_reason(package_name, config.denylist.publishers@[i]@)])
    &&& deny is None && publisher is None ==> (allow matches Some(i) ==> r is Some && r.unwrap().allow && r.unwrap().risk == Severity::Low
        && strings_view(r.unwrap().reasons@) == seq![allowlist_rule_reason(package_name, config.allowlist.packages@[i]@)])
    &&& deny is None && publisher is None && allow is None ==> r is None
}

/// The rules that apply once the package and its version are known, in
/// order: denylist rule (now also on the resolved version), denylisted
/// publisher, allowlist rule. The first that applies decides.
pub fn post_fetch_decision(
    config: &SafePkgsConfig,
    package_name: &str,
    requested_version: Option<&str>,
    package: &PackageRecord,
    resolved: &PackageVersion,
) -> (r: Option<CheckReport>)
    ensures
        post_rules_ok(*config, package_name@, opt_str_view(requested_version), *package, *resolved, r),
        r is Some ==> opt_view(r.unwrap().metadata.latest) == Some(package.latest@)
            && opt_view(r.unwrap().metadata.requested) == opt_str_view(requested_version),
{
    let resolved_key = Some(resolved.version.as_str());
    let rule = matching_package_rule(&config.denylist.packages, package_name, requested_version, resolved_key);
    let publisher = if rule.is_none() {
        matching_publisher(&config.denylist.publishers, &package.publishers)
    } else {
        None
    };
    let allowed = if rule.is_none() && publisher.is_none() {
        matching_package_rule(&config.allowlist.packages, package_name, requested_version, resolved_key)
    } else {
        None
    };
    if rule.is_none() && publisher.is_none() && allowed.is_none() {
        return None;
    }
    let metadata = Metadata {
        latest: Some(package.latest.clone()),
        requested: own_opt(requested_version),
        published: published_text(resolved),
        weekly_downloads: None,
    };
    match rule {
        Some(i) => {
            let reason = quoted_reason(package_name, " matched denylist package rule '", config.denylist.packages[i].as_str());
            Some(deny_report(reason, metadata))
        },
        None => match publisher {
            Some(i) => {
                let reason = quoted_reason(package_name, " is published by denylisted publisher '", config.denylist.publishers[i].as_str());
                Some(deny_report(reason, metadata))
            },
            None => match allowed {
                Some(i) => {
                    let reason = quoted_reason(package_name, " matched allowlist package rule '", config.allowlist.packages[i].as_str());
                    Some(allow_report(reason, metadata))
                },
                None => None,
            },
        },
    }
}

// ---------------------------------------------------------------------------
// Running the checks

/// Everything the checks read about one request.
pub struct CheckInputs<'a> {
    pub package_name: &'a str,
    pub requested_version: Option<&'a str>,
    pub package: Option<&'a PackageRecord>,
    pub resolved_version: Option<&'a PackageVersion>,
    pub weekly_downloads: Option<u64>,
    pub advisories: &'a Vec<PackageAdvisory>,
    pub popular_names: &'a Vec<String>,
    pub policy: &'a CheckPolicy,
    pub now: i64,
}

/// The finding of a check that reports at most one, as an option.
pub open spec fn single(out: Seq<CheckFinding>) -> Option<CheckFinding> {
    if out.len() == 0 {
        None
    } else {
        Some(out[0])
    }
}

fn to_vec(o: Option<CheckFinding>) -> (r: Vec<CheckFinding>)
    ensures
        r@.len() <= 1,
        single(r@) == o,
{
    let mut v: Vec<CheckFinding> = Vec::new();
    match o {
        Some(f) => v.push(f),
        None => {},
    }
    v
}

/// What check `kind` reports on `inputs`.
pub open spec fn check_outcome(kind: CheckKind, inputs: CheckInputs, out: Seq<CheckFinding>) -> bool {
    let name = inputs.package_name@;
    match kind {
        CheckKind::Existence => existence_ok(
            name,
            opt_str_view(inputs.requested_version),
            inputs.package is Some,
            inputs.resolved_version is Some,
            out,
        ),
        CheckKind::VersionAge => match inputs.resolved_version {
            None => out.len() == 0,
            Some(v) => out.len() <= 1 && version_age_ok(
                name,
                *v,
                inputs.policy.min_version_age_days,
                inputs.now,
                single(out),
            ),
        },
        CheckKind::Staleness => match (inputs.package, inputs.resolved_version) {
            (Some(p), Some(v)) => findings_view(out) == deprecated_part(p.name@, v.version@, v.deprecated)
                + age_part(
                p.name@,
                v.version@,
                v.published,
                inputs.policy.staleness.warn_age_days,
                ignored_spec(inputs.policy.staleness.ignore_for@, p.name@, v.version@),
                inputs.now,
            ) + gap_part(
                p.name@,
                v.version@,
                p.latest@,
                inputs.policy.staleness,
                ignored_spec(inputs.policy.staleness.ignore_for@, p.name@, v.version@),
            ),
            _ => out.len() == 0,
        },
        CheckKind::Popularity => match inputs.resolved_version {
            None => out.len() == 0,
            Some(v) => out.len() <= 1 && popularity_ok(
                name,
                *v,
                inputs.weekly_downloads,
                inputs.policy.min_weekly_downloads,
                YOUNG_PACKAGE_AGE_DAYS,
                inputs.now,
                single(out),
            ),
        },
        CheckKind::InstallScript => match inputs.resolved_version {
            None => out.len() == 0,
            Some(v) => out.len() <= 1 && install_script_ok(name, *v, single(out)),
        },
        CheckKind::Typosquat => out.len() <= 1 && typosquat_ok(
            name,
            inputs.weekly_downloads,
            inputs.popular_names@,
            single(out),
        ),
        CheckKind::Advisory => match (inputs.package, inputs.resolved_version) {
            (Some(p), Some(v)) => out.len() <= 1 && advisory_ok(
                name,
                v.version@,
                p.latest@,
                inputs.advisories@,
                single(out),
            ),
            _ => out.len() == 0,
        },
    }
}

/// Runs one check.
pub fn run_check(kind: CheckKind, inputs: &CheckInputs) -> (r: Vec<CheckFinding>)
    ensures
        check_outcome(kind, *inputs, r@),
{
    match kind {
        CheckKind::Existence => existence_findings(
            inputs.package_name,
            inputs.requested_version,
            inputs.package.is_some(),
            inputs.resolved_version.is_some(),
        ),
        CheckKind::VersionAge => match inputs.resolved_version {
            None => Vec::new(),
            Some(v) => to_vec(
                version_age_finding(
                    inputs.package_name,
                    v,
                    inputs.policy.min_version_age_days,
                    inputs.now,
                ),
            ),
        },
        CheckKind::Staleness => match (inputs.package, inputs.resolved_version) {
            (Some(p), Some(v)) => staleness_findings(p, v, &inputs.policy.staleness, inputs.now),
            _ => Vec::new(),
        },
        CheckKind::Popularity => match inputs.resolved_version {
            None => Vec::new(),
            Some(v) => to_vec(
                popularity_finding(
                    inputs.package_name,
                    v,
                    inputs.weekly_downloads,
                    inputs.policy.min_weekly_downloads,
                    YOUNG_PACKAGE_AGE_DAYS,
                    inputs.now,
                ),
            ),
        },
        CheckKind::InstallScript => match inputs.resolved_version {
            None => Vec::new(),
            Some(v) => to_vec(install_script_finding(inputs.package_name, v)),
        },
        CheckKind::Typosquat => to_vec(
            typosquat_finding(
                inputs.package_name,
                inputs.weekly_downloads,
                inputs.popular_names.as_slice(),
            ),
        ),
        CheckKind::Advisory => match (inputs.package, inputs.resolved_version) {
            (Some(p), Some(v)) => to_vec(
                advisory_finding(
                    inputs.package_name,
                    v.version.as_str(),
                    p.latest.as_str(),
                    inputs.advisories,
                ),
            ),
            _ => Vec::new(),
        },
    }
}

pub open spec fn concat_all(parts: Seq<Seq<CheckFinding>>) -> Seq<CheckFinding>
    decreases parts.len(),
{
    if parts.len() == 0 {
        seq![]
    } else {
        concat_all(parts.drop_last()) + parts.last()
    }
}

/// Findings of `checks` in order: each check's findings, one check after
/// the other.
pub open spec fn outcomes_ok(checks: Seq<CheckKind>, inputs: CheckInputs, r: Seq<CheckFinding>) -> bool {
    exists|parts: Seq<Seq<CheckFinding>>|
        parts.len() == checks.len() && (forall|i: int|
            0 <= i < checks.len() ==> check_outcome(checks[i], inputs, #[trigger] parts[i]))
            && r == concat_all(parts)
}

/// Runs the checks one after the other and collects their findings.
pub fn run_checks(checks: &Vec<CheckKind>, inputs: &CheckInputs) -> (r: Vec<CheckFinding>)
    ensures
        outcomes_ok(checks@, *inputs, r@),
{
    let mut out: Vec<CheckFinding> = Vec::new();
    let ghost mut parts: Seq<Seq<CheckFinding>> = seq![];
    let mut i: usize = 0;
    while i < checks.len()
        invariant
            i <= checks@.len(),
            parts.len() == i,
            forall|j: int| 0 <= j < i ==> check_outcome(checks@[j], *inputs, #[trigger] parts[j]),
            out@ == concat_all(parts),
        decreases checks@.len() - i,
    {
        let found = run_check(checks[i], inputs);
        let ghost before = out@;
        let ghost old_parts = parts;
        proof {
            parts = parts.push(found@);
        }
        let mut k: usize = 0;
        while k < found.len()
            invariant
                k <= found@.len(),
                out@ == before + found@.take(k as int),
            decreases found@.len() - k,
        {
            out.push(found[k].clone_finding());
            k = k + 1;
            assert(out@ =~= before + found@.take(k as int));
        }
        assert(found@.take(k as int) =~= found@);
        assert(parts.drop_last() =~= old_parts);
        assert(parts.last() == found@);
        i = i + 1;
    }
    out
}

// ---------------------------------------------------------------------------
// One evaluation

/// What must be fetched once the package lookup is done.
#[derive(Debug, Clone, Copy)]
pub struct DataPlan {
    pub needs_weekly_downloads: bool,
    pub needs_advisories: bool,
    pub runs_typosquat: bool,
}

pub open spec fn active_for(
    config: SafePkgsConfig,
    registry_key: Seq<char>,
    supported: Seq<Seq<char>>,
    package_found: bool,
    version_resolved: bool,
) -> Seq<CheckKind> {
    keep_active(
        registered_spec(),
        config,
        registry_key,
        supported,
        lookup_state_spec(package_found, version_resolved),
    )
}

/// Extra data to fetch: weekly downloads and advisories only for a
/// resolved version and only when an active check needs them.
pub fn data_plan(
    config: &SafePkgsConfig,
    registry_key: &str,
    supported_checks: &[&str],
    package_found: bool,
    version_resolved: bool,
) -> (r: DataPlan)
    requires
        config.well_formed(),
    ensures
        ({
            let active = active_for(*config, registry_key@, crate::config::strs_view(supported_checks@), package_found, version_resolved);
            &&& r.needs_weekly_downloads == (version_resolved && any_needs_downloads(active))
            &&& r.needs_advisories == (version_resolved && any_needs_advisories(active))
            &&& r.runs_typosquat == active.contains(CheckKind::Typosquat)
        }),
{
    let state = package_lookup_state(package_found, version_resolved);
    let checks = enabled_checks(registry_key, supported_checks, state, config);
    let needs = requirements_of(&checks);
    let mut typo = false;
    let mut i: usize = 0;
    while i < checks.len()
        invariant
            i <= checks@.len(),
            typo == exists|j: int| 0 <= j < i && checks@[j] == CheckKind::Typosquat,
        decreases checks@.len() - i,
    {
        if checks[i] == CheckKind::Typosquat {
            typo = true;
        }
        i = i + 1;
    }
    DataPlan {
        needs_weekly_downloads: version_resolved && needs.needs_weekly_downloads,
        needs_advisories: version_resolved && needs.needs_advisories,
        runs_typosquat: typo,
    }
}

/// Whether the registry's popular names must be fetched: the typosquat
/// check runs and the package is obscure.
pub fn needs_popular_names(plan: &DataPlan, weekly_downloads: Option<u64>) -> (r: bool)
    ensures
        r == (plan.runs_typosquat && crate::checks::typosquat::downloads_or_zero(weekly_downloads)
            < crate::checks::typosquat::OBSCURE_WEEKLY_DOWNLOADS_THRESHOLD),
{
    plan.runs_typosquat && crate::checks::typosquat::typosquat_needs_popular_names(weekly_downloads)
}

/// Data fetched for an evaluation, as `data_plan` asked.
pub struct GatheredData {
    pub weekly_downloads: Option<u64>,
    pub advisories: Vec<PackageAdvisory>,
    pub popular_names: Vec<String>,
}

/// Whether a fast path (denylist or allowlist) decides before the checks.
pub open spec fn fast_path_applies(
    config: SafePkgsConfig,
    package_name: Seq<char>,
    requested: Option<Seq<char>>,
    package: Option<PackageRecord>,
    resolved: Option<PackageVersion>,
) -> bool {
    first_rule(config.denylist.packages@, package_name, requested, None) is Some || (package is Some
        && resolved is Some && (first_rule(
        config.denylist.packages@,
        package_name,
        requested,
        Some(resolved.unwrap().version@),
    ) is Some || first_publisher(config.denylist.publishers@, package.unwrap().publishers@) is Some
        || first_rule(
        config.allowlist.packages@,
        package_name,
        requested,
        Some(resolved.unwrap().version@),
    ) is Some))
}

pub open spec fn opt_ref<'a, T>(o: Option<&'a T>) -> Option<T> {
    match o {
        Some(x) => Some(*x),
        None => None,
    }
}

/// The version that `requested` resolves to in `package`.
pub open spec fn resolved_of(package: Option<PackageRecord>, requested: Option<Seq<char>>) -> Option<PackageVersion> {
    match package {
        Some(p) => match version_index(p.versions@, resolve_key(p.latest@, requested)) {
            Some(i) => Some(p.versions@[i]),
            None => None,
        },
        None => None,
    }
}

/// Some rule that applies after the fetch fires.
pub open spec fn post_rule_fires(
    config: SafePkgsConfig,
    package_name: Seq<char>,
    requested: Option<Seq<char>>,
    package: PackageRecord,
    resolved: PackageVersion,
) -> bool {
    first_rule(config.denylist.packages@, package_name, requested, Some(resolved.version@)) is Some
        || first_publisher(config.denylist.publishers@, package.publishers@) is Some
        || first_rule(config.allowlist.packages@, package_name, requested, Some(resolved.version@)) is Some
}

/// The policy carries the configuration's thresholds and ignore rules.
pub open spec fn policy_matches(policy: CheckPolicy, config: SafePkgsConfig) -> bool {
    &&& policy.min_version_age_days == config.min_version_age_days
    &&& policy.min_weekly_downloads == config.min_weekly_downloads
    &&& policy.staleness.warn_major_versions_behind == config.staleness.warn_major_versions_behind
    &&& policy.staleness.warn_minor_versions_behind == config.staleness.warn_minor_versions_behind
    &&& policy.staleness.warn_age_days == config.staleness.warn_age_days
    &&& strings_view(policy.staleness.ignore_for@) == strings_view(config.staleness.ignore_for@)
}

/// The inputs the checks see: the request, the record and resolved
/// version, the configuration's policy, and the fetched data, of which
/// downloads and advisories only when an active check needs them and a
/// version resolved.
pub open spec fn inputs_fit(
    inputs: CheckInputs,
    config: SafePkgsConfig,
    package_name: Seq<char>,
    requested: Option<Seq<char>>,
    package: Option<PackageRecord>,
    resolved: Option<PackageVersion>,
    data: GatheredData,
    now: i64,
    active: Seq<CheckKind>,
) -> bool {
    &&& inputs.package_name@ == package_name
    &&& opt_str_view(inputs.requested_version) == requested
    &&& opt_ref(inputs.package) == package
    &&& opt_ref(inputs.resolved_version) == resolved
    &&& inputs.weekly_downloads == if resolved is Some && any_needs_downloads(active) {
        data.weekly_downloads
    } else {
        None
    }
    &&& inputs.advisories@ == if resolved is Some && any_needs_advisories(active) {
        data.advisories@
    } else {
        Seq::<PackageAdvisory>::empty()
    }
    &&& inputs.popular_names@ == data.popular_names@
    &&& policy_matches(*inputs.policy, config)
    &&& inputs.now == now
}

/// The decision for one package, given the registry record (`None` when
/// the registry does not know the package) and the data that `data_plan`
/// asked for. A denylist rule on the name decides first; then, for a
/// resolved version, the denylist (with the resolved version), denylisted
/// publishers and the allowlist; otherwise the active checks run in
/// priority order and their findings are folded by `report_from_findings`.
pub fn evaluate_with_data(
    config: &SafePkgsConfig,
    registry_key: &str,
    supported_checks: &[&str],
    package_name: &str,
    requested_version: Option<&str>,
    package: Option<&PackageRecord>,
    data: &GatheredData,
    now: i64,
) -> (r: CheckReport)
    requires
        config.well_formed(),
    ensures
        ({
            let requested = opt_str_view(requested_version);
            let resolved = resolved_of(opt_ref(package), requested);
            let pre = first_rule(config.denylist.packages@, package_name@, requested, None);
            let active = active_for(*config, registry_key@, crate::config::strs_view(supported_checks@), package is Some, resolved is Some);
            let post = package is Some && resolved is Some && post_rule_fires(*config, package_name@, requested, opt_ref(package).unwrap(), resolved.unwrap());
            &&& pre matches Some(i) ==> !r.allow && r.risk == Severity::Critical && strings_view(r.reasons@) == seq![
                denylist_rule_reason(package_name@, config.denylist.packages@[i]@)]
            &&& pre is None && post ==> post_rules_ok(*config, package_name@, requested, opt_ref(package).unwrap(), resolved.unwrap(), Some(r))
            &&& pre is None && !post ==> {
                &&& r.allow == (r.risk.rank() <= config.max_risk.rank())
                &&& forall|x: int, y: int| 0 <= x < y < active.len() ==> (#[trigger] active[x]).priority_spec() <= (#[trigger] active[y]).priority_spec()
                &&& exists|inputs: CheckInputs, findings: Seq<CheckFinding>| {
                    &&& inputs_fit(inputs, *config, package_name@, requested, opt_ref(package), resolved, *data, now, active)
                    &&& outcomes_ok(active, inputs, findings)
                    &&& r.risk == aggregate_risk(severities(findings))
                    &&& strings_view(r.reasons@) == reasons_of(findings)
                    &&& r.metadata.weekly_downloads == inputs.weekly_downloads
                }
                &&& opt_view(r.metadata.latest) == match package { Some(p) => Some(p.latest@), None => None }
                &&& opt_view(r.metadata.requested) == requested
                &&& (r.metadata.published is Some ==> resolved is Some && opt_view(r.metadata.published) == published_view(resolved.unwrap()))
            }
        }),
{
    match prefetch_denial(config, package_name, requested_version) {
        Some(report) => {
            return report;
        },
        None => {},
    }
    let resolved: Option<&PackageVersion> = match package {
        Some(p) => p.resolve_version(requested_version),
        None => None,
    };
    match (package, resolved) {
        (Some(p), Some(v)) => {
            match post_fetch_decision(config, package_name, requested_version, p, v) {
                Some(report) => {
                    return report;
                },
                None => {},
            }
        },
        _ => {},
    }
    let plan = data_plan(config, registry_key, supported_checks, package.is_some(), resolved.is_some());
    let state = package_lookup_state(package.is_some(), resolved.is_some());
    let checks = enabled_checks(registry_key, supported_checks, state, config);
    let weekly_downloads = if plan.needs_weekly_downloads {
        data.weekly_downloads
    } else {
        None
    };
    let no_advisories: Vec<PackageAdvisory> = Vec::new();
    let advisories = if plan.needs_advisories {
        &data.advisories
    } else {
        &no_advisories
    };
    let policy = crate::config::check_policy_from_config(config);
    let inputs = CheckInputs {
        package_name,
        requested_version,
        package,
        resolved_version: resolved,
        weekly_downloads,
        advisories,
        popular_names: &data.popular_names,
        policy: &policy,
        now,
    };
    let findings = run_checks(&checks, &inputs);
    let metadata = Metadata {
        latest: match package {
            Some(p) => Some(p.latest.clone()),
            None => None,
        },
        requested: own_opt(requested_version),
        published: match resolved {
            Some(v) => published_text(v),
            None => None,
        },
        weekly_downloads,
    };
    let ghost fs = findings@;
    let report = report_from_findings(findings, metadata, config.max_risk);
    proof {
        lemma_keep_active_sorted(
            registered_spec(),
            *config,
            registry_key@,
            crate::config::strs_view(supported_checks@),
            lookup_state_spec(package is Some, resolved is Some),
        );
        assert(inputs_fit(inputs, *config, package_name@, opt_str_view(requested_version), opt_ref(package),
            resolved_of(opt_ref(package), opt_str_view(requested_version)), *data, now, checks@));
        assert(outcomes_ok(checks@, inputs, fs));
    }
    report
}

} // verus!
