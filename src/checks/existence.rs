//! Existence: the package and the requested version must exist.
use vstd::prelude::*;
use crate::model::{CheckFinding, Severity};
use crate::text::append_str;

verus! {

pub open spec fn missing_package_reason(name: Seq<char>) -> Seq<char> {
    name + " does not exist (possible hallucination / slopsquatting)"@
}

pub open spec fn missing_version_reason(name: Seq<char>, version: Seq<char>) -> Seq<char> {
    name + "@"@ + version + " does not exist (possible hallucinated version)"@
}

/// The critical finding for a package that the registry does not know.
pub fn missing_package(package_name: &str) -> (r: CheckFinding)
    ensures
        r.severity == Severity::Critical,
        r.reason@ == missing_package_reason(package_name@),
{
    let mut reason = String::new();
    append_str(&mut reason, package_name);
    append_str(&mut reason, " does not exist (possible hallucination / slopsquatting)");
    CheckFinding { severity: Severity::Critical, reason }
}

/// The critical finding for a version that the package does not have.
pub fn missing_version(package_name: &str, version: &str) -> (r: CheckFinding)
    ensures
        r.severity == Severity::Critical,
        r.reason@ == missing_version_reason(package_name@, version@),
{
    let mut reason = String::new();
    append_str(&mut reason, package_name);
    append_str(&mut reason, "@");
    append_str(&mut reason, version);
    append_str(&mut reason, " does not exist (possible hallucinated version)");
    CheckFinding { severity: Severity::Critical, reason }
}

/// What the existence check reports.
pub open spec fn existence_ok(
    package_name: Seq<char>,
    requested_version: Option<Seq<char>>,
    package_found: bool,
    version_resolved: bool,
    r: Seq<CheckFinding>,
) -> bool {
    &&& !package_found ==> r.len() == 1 && r[0].severity == Severity::Critical && r[0].reason@
        == missing_package_reason(package_name)
    &&& package_found && !version_resolved ==> r.len() == 1 && r[0].severity
        == Severity::Critical && r[0].reason@ == missing_version_reason(
        package_name,
        match requested_version {
            Some(v) => v,
            None => "latest"@,
        },
    )
    &&& package_found && version_resolved ==> r.len() == 0
}

/// Runs the existence check: one critical finding when the package record
/// is absent, one when the version did not resolve, none otherwise.
pub fn existence_findings(
    package_name: &str,
    requested_version: Option<&str>,
    package_found: bool,
    version_resolved: bool,
) -> (r: Vec<CheckFinding>)
    ensures
        existence_ok(package_name@, crate::model::opt_str_view(requested_version), package_found, version_resolved, r@),
{
    let mut out: Vec<CheckFinding> = Vec::new();
    if !package_found {
        out.push(missing_package(package_name));
    } else if !version_resolved {
        let version: &str = match requested_version {
            Some(v) => v,
            None => "latest",
        };
        out.push(missing_version(package_name, version));
    }
    out
}

} // verus!
