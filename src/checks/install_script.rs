//! Install script: install hooks that download or decode code are risky.
use vstd::prelude::*;
use crate::model::{CheckFinding, PackageVersion, Severity};
use crate::text::{append_str, chars_of, contains_chars, contains_spec, lower_chars, lower_spec};

verus! {

/// A lowercased hook text that contains one of the suspicious fragments.
pub open spec fn suspicious_lowered(l: Seq<char>) -> bool {
    contains_spec(l, "curl "@) || contains_spec(l, "wget "@) || contains_spec(l, "http://"@)
        || contains_spec(l, "https://"@) || contains_spec(l, "invoke-webrequest"@)
        || contains_spec(l, "powershell"@) || contains_spec(l, "base64"@) || contains_spec(
        l,
        "eval("@,
    ) || contains_spec(l, "bash -c"@) || contains_spec(l, "sh -c"@) || contains_spec(
        l,
        "certutil"@,
    )
}

pub open spec fn suspicious_spec(script: Seq<char>) -> bool {
    suspicious_lowered(lower_spec(script))
}

fn has_fragment(l: &[char], fragment: &str) -> (r: bool)
    ensures
        r == contains_spec(l@, fragment@),
{
    let f = chars_of(fragment);
    contains_chars(l, f.as_slice())
}

/// Whether a hook's text, ignoring ASCII case, contains a fragment that
/// fetches, decodes or evaluates code.
pub fn is_suspicious(script: &str) -> (r: bool)
    ensures
        r == suspicious_spec(script@),
{
    let cs = chars_of(script);
    let l = lower_chars(cs.as_slice());
    let s = l.as_slice();
    has_fragment(s, "curl ") || has_fragment(s, "wget ") || has_fragment(s, "http://")
        || has_fragment(s, "https://") || has_fragment(s, "invoke-webrequest") || has_fragment(
        s,
        "powershell",
    ) || has_fragment(s, "base64") || has_fragment(s, "eval(") || has_fragment(s, "bash -c")
        || has_fragment(s, "sh -c") || has_fragment(s, "certutil")
}

/// Index of the first suspicious hook.
pub open spec fn first_suspicious(scripts: Seq<String>) -> Option<int> {
    if exists|i: int| 0 <= i < scripts.len() && suspicious_spec((#[trigger] scripts[i])@) {
        Some(
            choose|i: int|
                0 <= i < scripts.len() && suspicious_spec((#[trigger] scripts[i])@) && forall|
                    j: int,
                | 0 <= j < i ==> !suspicious_spec((#[trigger] scripts[j])@),
        )
    } else {
        None
    }
}

pub open spec fn install_script_reason(name: Seq<char>, version: Seq<char>, script: Seq<char>) -> Seq<
    char,
> {
    name + "@"@ + version + " has a suspicious install hook: "@ + script
}

proof fn lemma_first_suspicious(scripts: Seq<String>, i: int)
    requires
        0 <= i < scripts.len(),
        suspicious_spec(scripts[i]@),
        forall|j: int| 0 <= j < i ==> !suspicious_spec((#[trigger] scripts[j])@),
    ensures
        first_suspicious(scripts) == Some(i),
{
    let k = choose|k: int|
        0 <= k < scripts.len() && suspicious_spec((#[trigger] scripts[k])@) && forall|j: int|
            0 <= j < k ==> !suspicious_spec((#[trigger] scripts[j])@);
    assert(0 <= k < scripts.len() && suspicious_spec(scripts[k]@) && forall|j: int|
        0 <= j < k ==> !suspicious_spec((#[trigger] scripts[j])@));
    if k < i {
        assert(!suspicious_spec(scripts[k]@));
    } else if k > i {
        assert(!suspicious_spec(scripts[i]@));
    }
}

/// What the install-script check reports.
pub open spec fn install_script_ok(package_name: Seq<char>, version: PackageVersion, r: Option<CheckFinding>) -> bool {
    match first_suspicious(version.install_scripts@) {
        Some(i) => r is Some && r.unwrap().severity == Severity::High && r.unwrap().reason@
            == install_script_reason(package_name, version.version@, version.install_scripts@[i]@),
        None => r is None,
    }
}

/// Runs the install-script check: one high finding that quotes the first
/// suspicious hook, none when no hook is suspicious.
pub fn install_script_finding(package_name: &str, version: &PackageVersion) -> (r: Option<
    CheckFinding,
>)
    ensures
        install_script_ok(package_name@, *version, r),
{
    let scripts = &version.install_scripts;
    let mut i: usize = 0;
    while i < scripts.len()
        invariant
            scripts == &version.install_scripts,
            i <= scripts@.len(),
            forall|j: int| 0 <= j < i ==> !suspicious_spec((#[trigger] scripts@[j])@),
        decreases scripts@.len() - i,
    {
        if is_suspicious(scripts[i].as_str()) {
            proof {
                lemma_first_suspicious(scripts@, i as int);
            }
            let mut reason = String::new();
            append_str(&mut reason, package_name);
            append_str(&mut reason, "@");
            append_str(&mut reason, version.version.as_str());
            append_str(&mut reason, " has a suspicious install hook: ");
            append_str(&mut reason, scripts[i].as_str());
            return Some(CheckFinding { severity: Severity::High, reason });
        }
        i = i + 1;
    }
    None
}

} // verus!
