//! The package argument of the command line: `name`, `name@version` or a
//! scoped `@scope/name[@version]`, with an optional separate version.
use vstd::prelude::*;
use crate::model::opt_str_view;
use crate::text::{append_str, chars_of, chars_range, last_index_exec, last_index_of, string_of, trim_chars, trim_spec};

verus! {

pub open spec fn inline_spec(p: Seq<char>) -> Result<(Seq<char>, Option<Seq<char>>), Seq<char>> {
    if p.len() > 0 && p.last() == '@' {
        Err("invalid package spec '"@ + p + "': version after '@' is empty"@)
    } else {
        match last_index_of(p, '@') {
            None => Ok((p, None)),
            Some(k) => if k == 0 {
                Ok((p, None))
            } else {
                Ok((p.take(k), Some(p.skip(k + 1))))
            },
        }
    }
}

pub open spec fn pair_view(r: (String, Option<String>)) -> (Seq<char>, Option<Seq<char>>) {
    (r.0@, crate::model::opt_view(r.1))
}

pub open spec fn result_view(r: Result<(String, Option<String>), String>) -> Result<(Seq<char>, Option<Seq<char>>), Seq<char>> {
    match r {
        Ok(x) => Ok(pair_view(x)),
        Err(e) => Err(e@),
    }
}

/// Splits `name@version`; a leading `@` alone marks a scope, not a version.
pub fn parse_inline_package_version(package: &str) -> (r: Result<(String, Option<String>), String>)
    ensures
        result_view(r) == inline_spec(package@),
{
    let cs = chars_of(package);
    let n = cs.len();
    if n > 0 && cs[n - 1] == '@' {
        let mut msg = String::new();
        append_str(&mut msg, "invalid package spec '");
        append_str(&mut msg, package);
        append_str(&mut msg, "': version after '@' is empty");
        return Err(msg);
    }
    match last_index_exec(cs.as_slice(), '@') {
        None => Ok((package.to_owned(), None)),
        Some(k) => {
            if k == 0 {
                Ok((package.to_owned(), None))
            } else {
                let name = string_of(chars_range(cs.as_slice(), 0, k).as_slice());
                let version = string_of(chars_range(cs.as_slice(), k + 1, n).as_slice());
                assert(name@ =~= package@.take(k as int));
                assert(version@ =~= package@.skip(k + 1));
                Ok((name, Some(version)))
            }
        },
    }
}

pub open spec fn explicit_spec(explicit: Option<Seq<char>>) -> Option<Seq<char>> {
    match explicit {
        Some(e) => if trim_spec(e).len() > 0 {
            Some(trim_spec(e))
        } else {
            None
        },
        None => None,
    }
}

/// The name and version that a command line asks about.
pub open spec fn cli_input_spec(raw: Seq<char>, explicit: Option<Seq<char>>) -> Result<(Seq<char>, Option<Seq<char>>), Seq<char>> {
    let p = trim_spec(raw);
    if p.len() == 0 {
        Err("package name cannot be empty"@)
    } else {
        match inline_spec(p) {
            Err(e) => Err(e),
            Ok((name, inline)) => match (inline, explicit_spec(explicit)) {
                (Some(i), Some(e)) => if i != e {
                    Err("conflicting versions provided: inline '"@ + i + "' does not match explicit '"@ + e + "'"@)
                } else {
                    Ok((name, Some(i)))
                },
                (Some(i), None) => Ok((name, Some(i))),
                (None, e) => Ok((name, e)),
            },
        }
    }
}

pub fn normalize_cli_package_input(raw_package: &str, explicit_version: Option<&str>) -> (r: Result<
    (String, Option<String>),
    String,
>)
    ensures
        result_view(r) == cli_input_spec(raw_package@, opt_str_view(explicit_version)),
{
    let rc = chars_of(raw_package);
    let pc = trim_chars(rc.as_slice());
    if pc.len() == 0 {
        return Err("package name cannot be empty".to_owned());
    }
    let package = string_of(pc.as_slice());
    let (name, inline) = match parse_inline_package_version(package.as_str()) {
        Err(e) => return Err(e),
        Ok(x) => x,
    };
    let explicit: Option<String> = match explicit_version {
        Some(e) => {
            let ec = chars_of(e);
            let t = trim_chars(ec.as_slice());
            if t.len() > 0 {
                Some(string_of(t.as_slice()))
            } else {
                None
            }
        },
        None => None,
    };
    match (inline, explicit) {
        (Some(i), Some(e)) => {
            if !crate::text::eq_str(i.as_str(), e.as_str()) {
                let mut msg = String::new();
                append_str(&mut msg, "conflicting versions provided: inline '");
                append_str(&mut msg, i.as_str());
                append_str(&mut msg, "' does not match explicit '");
                append_str(&mut msg, e.as_str());
                append_str(&mut msg, "'");
                Err(msg)
            } else {
                Ok((name, Some(i)))
            }
        },
        (Some(i), None) => Ok((name, Some(i))),
        (None, e) => Ok((name, e)),
    }
}

/// Relies on `std::path::MAIN_SEPARATOR`, which is a backslash on Windows
/// only.
#[verifier::external_body]
fn on_windows() -> (r: bool) {
    std::path::MAIN_SEPARATOR == '\\'
}

/// File name of the server executable on this platform.
pub fn server_binary_name() -> (r: &'static str)
    ensures
        r@ == "safe-pkgs"@ || r@ == "safe-pkgs.exe"@,
{
    if on_windows() {
        "safe-pkgs.exe"
    } else {
        "safe-pkgs"
    }
}

} // verus!
