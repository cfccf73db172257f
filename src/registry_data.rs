//! What registry answers carry that the engine keeps: publishers of a PyPI
//! project, install hooks of an npm version, fixed versions of an OSV entry.
use vstd::prelude::*;
use crate::config::strings_view;
use crate::model::{
    PackageAdvisory, PackageRecord, PackageVersion, RegistryError, entry_for, insert_sorted,
    opt_view, versions_sorted,
};
use crate::text::{append_str, chars_of, eq_chars, lower_chars, lower_spec, string_of, trim_chars, trim_spec};

verus! {

/// The people a PyPI project's metadata names.
#[derive(Debug, Clone)]
pub struct PypiInfo {
    pub version: Option<String>,
    pub author: Option<String>,
    pub maintainer: Option<String>,
}

pub open spec fn trimmed_name(v: Option<Seq<char>>) -> Seq<char> {
    match v {
        Some(x) => trim_spec(x),
        None => seq![],
    }
}

/// Publishers: the maintainer then the author, trimmed, blanks dropped,
/// and an author equal to the maintainer up to ASCII case left out.
pub open spec fn publishers_spec(maintainer: Option<Seq<char>>, author: Option<Seq<char>>) -> Seq<Seq<char>> {
    let m = trimmed_name(maintainer);
    let a = trimmed_name(author);
    let first: Seq<Seq<char>> = if m.len() > 0 {
        seq![m]
    } else {
        seq![]
    };
    if a.len() > 0 && !(m.len() > 0 && lower_spec(m) == lower_spec(a)) {
        first.push(a)
    } else {
        first
    }
}

pub fn collect_publishers(info: &PypiInfo) -> (r: Vec<String>)
    ensures
        strings_view(r@) == publishers_spec(opt_view(info.maintainer), opt_view(info.author)),
{
    let m = match &info.maintainer {
        Some(x) => {
            let cs = chars_of(x.as_str());
            trim_chars(cs.as_slice())
        },
        None => Vec::new(),
    };
    let a = match &info.author {
        Some(x) => {
            let cs = chars_of(x.as_str());
            trim_chars(cs.as_slice())
        },
        None => Vec::new(),
    };
    assert(m@ == trimmed_name(opt_view(info.maintainer)));
    assert(a@ == trimmed_name(opt_view(info.author)));
    let mut out: Vec<String> = Vec::new();
    if m.len() > 0 {
        out.push(string_of(m.as_slice()));
    }
    let ghost first = strings_view(out@);
    assert(first =~= if m@.len() > 0 { seq![m@] } else { Seq::<Seq<char>>::empty() });
    if a.len() > 0 {
        let same = m.len() > 0 && eq_chars(lower_chars(m.as_slice()).as_slice(), lower_chars(a.as_slice()).as_slice());
        if !same {
            let ghost before = out@;
            out.push(string_of(a.as_slice()));
            assert(strings_view(out@) =~= strings_view(before).push(a@));
        }
    }
    out
}

/// How an install hook is shown: `hook: command`.
pub open spec fn hook_line(hook: Seq<char>, command: Seq<char>) -> Seq<char> {
    hook + ": "@ + command
}

/// The command of the first script named `hook`.
pub open spec fn hook_command(scripts: Seq<(String, String)>, hook: Seq<char>) -> Option<Seq<char>> {
    if exists|i: int| 0 <= i < scripts.len() && (#[trigger] scripts[i]).0@ == hook {
        let i = choose|i: int|
            0 <= i < scripts.len() && (#[trigger] scripts[i]).0@ == hook && forall|j: int|
                0 <= j < i ==> (#[trigger] scripts[j]).0@ != hook;
        Some(scripts[i].1@)
    } else {
        None
    }
}

pub open spec fn hook_part(scripts: Seq<(String, String)>, hook: Seq<char>) -> Seq<Seq<char>> {
    match hook_command(scripts, hook) {
        Some(c) => seq![hook_line(hook, c)],
        None => seq![],
    }
}

fn hook_entry(scripts: &Vec<(String, String)>, hook: &str) -> (r: Option<String>)
    ensures
        opt_view(r) == match hook_command(scripts@, hook@) {
            Some(c) => Some(hook_line(hook@, c)),
            None => None,
        },
{
    let mut i: usize = 0;
    while i < scripts.len()
        invariant
            i <= scripts@.len(),
            forall|j: int| 0 <= j < i ==> (#[trigger] scripts@[j]).0@ != hook@,
        decreases scripts@.len() - i,
    {
        if crate::text::eq_str(scripts[i].0.as_str(), hook) {
            proof {
                let k = choose|k: int|
                    0 <= k < scripts@.len() && (#[trigger] scripts@[k]).0@ == hook@ && forall|j: int|
                        0 <= j < k ==> (#[trigger] scripts@[j]).0@ != hook@;
                assert(0 <= k < scripts@.len() && scripts@[k].0@ == hook@ && forall|j: int|
                    0 <= j < k ==> (#[trigger] scripts@[j]).0@ != hook@);
                if k < i {
                } else if k > i {
                    assert(scripts@[i as int].0@ != hook@);
                }
            }
            let mut line = String::new();
            append_str(&mut line, hook);
            append_str(&mut line, ": ");
            append_str(&mut line, scripts[i].1.as_str());
            return Some(line);
        }
        i = i + 1;
    }
    None
}

fn push_some(out: &mut Vec<String>, item: Option<String>)
    ensures
        strings_view(final(out)@) == strings_view(old(out)@) + match opt_view(item) {
            Some(x) => seq![x],
            None => seq![],
        },
{
    let ghost before = out@;
    match item {
        Some(x) => {
            out.push(x);
            assert(strings_view(out@) =~= strings_view(before) + seq![out@.last()@]);
        },
        None => {
            assert(strings_view(out@) =~= strings_view(before) + seq![]);
        },
    }
}

/// Install hooks of an npm version, in the order `preinstall`, `install`,
/// `postinstall`, each as `hook: command`.
pub fn install_scripts(scripts: &Vec<(String, String)>) -> (r: Vec<String>)
    ensures
        strings_view(r@) == hook_part(scripts@, "preinstall"@) + hook_part(scripts@, "install"@)
            + hook_part(scripts@, "postinstall"@),
{
    let mut out: Vec<String> = Vec::new();
    assert(strings_view(out@) =~= seq![]);
    push_some(&mut out, hook_entry(scripts, "preinstall"));
    push_some(&mut out, hook_entry(scripts, "install"));
    push_some(&mut out, hook_entry(scripts, "postinstall"));
    assert(strings_view(out@) =~= hook_part(scripts@, "preinstall"@) + hook_part(scripts@, "install"@)
        + hook_part(scripts@, "postinstall"@));
    out
}

/// One `events` entry of an OSV range.
#[derive(Debug, Clone)]
pub struct OsvEvent {
    pub fixed: Option<String>,
}

#[derive(Debug, Clone)]
pub struct OsvRange {
    pub events: Vec<OsvEvent>,
}

#[derive(Debug, Clone)]
pub struct OsvAffected {
    pub ranges: Vec<OsvRange>,
}

/// One vulnerability of an OSV answer.
#[derive(Debug, Clone)]
pub struct OsvVulnerability {
    pub id: String,
    pub aliases: Vec<String>,
    pub affected: Vec<OsvAffected>,
}

pub open spec fn fixed_in_events(events: Seq<OsvEvent>) -> Seq<Seq<char>>
    decreases events.len(),
{
    if events.len() == 0 {
        seq![]
    } else {
        let rest = fixed_in_events(events.drop_last());
        match events.last().fixed {
            Some(f) => rest.push(f@),
            None => rest,
        }
    }
}

pub open spec fn fixed_in_ranges(ranges: Seq<OsvRange>) -> Seq<Seq<char>>
    decreases ranges.len(),
{
    if ranges.len() == 0 {
        seq![]
    } else {
        fixed_in_ranges(ranges.drop_last()) + fixed_in_events(ranges.last().events@)
    }
}

/// Every `fixed` value, over all affected entries and their ranges, in order.
pub open spec fn fixed_in_affected(affected: Seq<OsvAffected>) -> Seq<Seq<char>>
    decreases affected.len(),
{
    if affected.len() == 0 {
        seq![]
    } else {
        fixed_in_affected(affected.drop_last()) + fixed_in_ranges(affected.last().ranges@)
    }
}

impl OsvVulnerability {
    /// Every `fixed` event, over all affected ranges, in order; events
    /// without one are skipped.
    pub fn fixed_versions(&self) -> (r: Vec<String>)
        ensures
            strings_view(r@) == fixed_in_affected(self.affected@),
    {
        let mut out: Vec<String> = Vec::new();
        let mut a: usize = 0;
        while a < self.affected.len()
            invariant
                a <= self.affected@.len(),
                strings_view(out@) == fixed_in_affected(self.affected@.take(a as int)),
            decreases self.affected@.len() - a,
        {
            let ranges = &self.affected[a].ranges;
            let ghost base = strings_view(out@);
            let mut g: usize = 0;
            while g < ranges.len()
                invariant
                    a < self.affected@.len(),
                    ranges == &self.affected@[a as int].ranges,
                    g <= ranges@.len(),
                    base == fixed_in_affected(self.affected@.take(a as int)),
                    strings_view(out@) == base + fixed_in_ranges(ranges@.take(g as int)),
                decreases ranges@.len() - g,
            {
                let events = &ranges[g].events;
                let ghost mid = strings_view(out@);
                let mut e: usize = 0;
                while e < events.len()
                    invariant
                        g < ranges@.len(),
                        events == &ranges@[g as int].events,
                        e <= events@.len(),
                        mid == base + fixed_in_ranges(ranges@.take(g as int)),
                        strings_view(out@) == mid + fixed_in_events(events@.take(e as int)),
                    decreases events@.len() - e,
                {
                    assert(events@.take(e + 1).drop_last() =~= events@.take(e as int));
                    assert(events@.take(e + 1).last() == events@[e as int]);
                    let ghost before = out@;
                    match &events[e].fixed {
                        Some(f) => {
                            out.push(f.clone());
                            assert(strings_view(out@) =~= strings_view(before).push(f@));
                        },
                        None => {},
                    }
                    e = e + 1;
                    assert(strings_view(out@) =~= mid + fixed_in_events(events@.take(e as int)));
                }
                assert(events@.take(e as int) =~= events@);
                assert(ranges@.take(g + 1).drop_last() =~= ranges@.take(g as int));
                assert(ranges@.take(g + 1).last() == ranges@[g as int]);
                g = g + 1;
                assert(strings_view(out@) =~= base + fixed_in_ranges(ranges@.take(g as int)));
            }
            assert(ranges@.take(g as int) =~= ranges@);
            assert(self.affected@.take(a + 1).drop_last() =~= self.affected@.take(a as int));
            assert(self.affected@.take(a + 1).last() == self.affected@[a as int]);
            a = a + 1;
        }
        assert(self.affected@.take(a as int) =~= self.affected@);
        out
    }

    /// The advisory the checks read.
    pub fn to_advisory(&self) -> (r: PackageAdvisory)
        ensures
            r.id@ == self.id@,
            strings_view(r.aliases@) == strings_view(self.aliases@),
            strings_view(r.fixed_versions@) == fixed_in_affected(self.affected@),
    {
        let mut aliases: Vec<String> = Vec::new();
        let mut i: usize = 0;
        while i < self.aliases.len()
            invariant
                i <= self.aliases@.len(),
                strings_view(aliases@) == strings_view(self.aliases@.take(i as int)),
            decreases self.aliases@.len() - i,
        {
            let ghost before = aliases@;
            aliases.push(self.aliases[i].clone());
            assert(self.aliases@.take(i + 1) =~= self.aliases@.take(i as int).push(self.aliases@[i as int]));
            assert(strings_view(aliases@) =~= strings_view(before).push(self.aliases@[i as int]@));
            i = i + 1;
        }
        assert(self.aliases@.take(i as int) =~= self.aliases@);
        PackageAdvisory { id: self.id.clone(), aliases, fixed_versions: self.fixed_versions() }
    }
}

// ---------------------------------------------------------------------------
// Records built from registry answers

/// The earliest of the upload times that are known.
pub open spec fn min_upload(files: Seq<(Option<i64>, bool)>) -> Option<i64>
    decreases files.len(),
{
    if files.len() == 0 {
        None
    } else {
        let r = min_upload(files.drop_last());
        match (r, files.last().0) {
            (None, x) => x,
            (Some(a), None) => Some(a),
            (Some(a), Some(b)) => Some(if b < a { b } else { a }),
        }
    }
}

/// Every file of a release is yanked (and there is one).
pub open spec fn all_yanked(files: Seq<(Option<i64>, bool)>) -> bool {
    files.len() > 0 && forall|i: int| 0 <= i < files.len() ==> (#[trigger] files[i]).1
}

/// A version entry as a release of `key` with these files gives it.
pub open spec fn release_fits(v: PackageVersion, key: Seq<char>, published: Option<i64>, deprecated: bool) -> bool {
    &&& v.version@ == key
    &&& v.published == published
    &&& v.deprecated == deprecated
    &&& v.install_scripts@.len() == 0
}

/// The entry with key `key` exists and fits the release.
pub open spec fn entry_fits(vs: Seq<PackageVersion>, key: Seq<char>, published: Option<i64>, deprecated: bool) -> bool {
    match entry_for(vs, key) {
        Some(v) => release_fits(v, key, published, deprecated),
        None => false,
    }
}

/// No later element repeats the key at `i`.
pub open spec fn last_with_key<T>(items: Seq<(String, T)>, i: int) -> bool {
    forall|j: int| i < j < items.len() ==> (#[trigger] items[j]).0@ != items[i].0@
}

fn release_files(files: &Vec<(Option<i64>, bool)>) -> (r: (Option<i64>, bool))
    ensures
        r.0 == min_upload(files@),
        r.1 == all_yanked(files@),
{
    let mut earliest: Option<i64> = None;
    let mut yanked = true;
    let mut i: usize = 0;
    while i < files.len()
        invariant
            i <= files@.len(),
            earliest == min_upload(files@.take(i as int)),
            yanked == forall|j: int| 0 <= j < i ==> (#[trigger] files@[j]).1,
        decreases files@.len() - i,
    {
        assert(files@.take(i + 1).drop_last() =~= files@.take(i as int));
        assert(files@.take(i + 1).last() == files@[i as int]);
        earliest = match (earliest, files[i].0) {
            (None, x) => x,
            (Some(a), None) => Some(a),
            (Some(a), Some(b)) => Some(if b < a { b } else { a }),
        };
        if !files[i].1 {
            yanked = false;
        }
        i = i + 1;
    }
    assert(files@.take(i as int) =~= files@);
    (earliest, files.len() > 0 && yanked)
}

fn blank_version(key: &String) -> (r: PackageVersion)
    ensures
        release_fits(r, key@, None, false),
{
    PackageVersion { version: key.clone(), published: None, deprecated: false, install_scripts: Vec::new() }
}

/// The record of a PyPI project: `info.version` is the latest (it must not
/// be blank), each release key becomes a version published at its
/// earliest upload and deprecated when all its files are yanked, and the
/// latest is added when no release carries it. A project without releases
/// is refused.
pub fn pypi_record(name: &str, info: &PypiInfo, releases: &Vec<(String, Vec<(Option<i64>, bool)>)>) -> (r: Result<PackageRecord, RegistryError>)
    ensures
        r is Err <==> (trimmed_name(opt_view(info.version)).len() == 0 || releases@.len() == 0),
        r matches Err(e) ==> e is InvalidResponse,
        r matches Ok(rec) ==> {
            &&& rec.well_formed()
            &&& rec.name@ == name@
            &&& opt_view(info.version) == Some(rec.latest@)
            &&& entry_for(rec.versions@, rec.latest@) is Some
            &&& strings_view(rec.publishers@) == publishers_spec(opt_view(info.maintainer), opt_view(info.author))
            &&& forall|i: int| 0 <= i < releases@.len() && last_with_key(releases@, i) ==> entry_fits(rec.versions@, (#[trigger] releases@[i]).0@, min_upload(releases@[i].1@), all_yanked(releases@[i].1@))
        },
{
    let latest = match &info.version {
        Some(v) => {
            let cs = chars_of(v.as_str());
            if trim_chars(cs.as_slice()).len() == 0 {
                return Err(RegistryError::InvalidResponse { message: "missing package latest version".to_owned() });
            }
            v.clone()
        },
        None => return Err(RegistryError::InvalidResponse { message: "missing package latest version".to_owned() }),
    };
    if releases.len() == 0 {
        return Err(RegistryError::InvalidResponse { message: "package has no releases".to_owned() });
    }
    let mut versions: Vec<PackageVersion> = Vec::new();
    let mut i: usize = 0;
    while i < releases.len()
        invariant
            i <= releases@.len(),
            versions_sorted(versions@),
            forall|x: int| 0 <= x < i && (forall|j: int| x < j < i ==> (#[trigger] releases@[j]).0@ != releases@[x].0@)
                ==> entry_fits(versions@, (#[trigger] releases@[x]).0@, min_upload(releases@[x].1@), all_yanked(releases@[x].1@)),
        decreases releases@.len() - i,
    {
        let (published, deprecated) = release_files(&releases[i].1);
        let v = PackageVersion {
            version: releases[i].0.clone(),
            published,
            deprecated,
            install_scripts: Vec::new(),
        };
        let ghost before = versions@;
        insert_sorted(&mut versions, v, true);
        proof {
            assert forall|x: int| 0 <= x < i + 1 && (forall|j: int| x < j < i + 1 ==> (#[trigger] releases@[j]).0@ != releases@[x].0@)
                implies entry_fits(versions@, (#[trigger] releases@[x]).0@, min_upload(releases@[x].1@), all_yanked(releases@[x].1@)) by {
                if x < i {
                    assert(releases@[i as int].0@ != releases@[x].0@);
                }
            }
        }
        i = i + 1;
    }
    let ghost mid = versions@;
    let fill = blank_version(&latest);
    insert_sorted(&mut versions, fill, false);
    let publishers = collect_publishers(info);
    proof {
        assert forall|x: int| 0 <= x < releases@.len() && last_with_key(releases@, x) implies entry_fits(versions@, (#[trigger] releases@[x]).0@, min_upload(releases@[x].1@), all_yanked(releases@[x].1@)) by {
            assert(forall|j: int| x < j < releases@.len() ==> (#[trigger] releases@[j]).0@ != releases@[x].0@);
        }
    }
    Ok(PackageRecord { name: name.to_owned(), latest, publishers, versions })
}

/// The crates.io latest: the highest stable version when it is not empty,
/// else the highest version.
pub open spec fn cargo_latest(max_stable: Option<Seq<char>>, max_version: Option<Seq<char>>) -> Option<Seq<char>> {
    match max_stable {
        Some(s) => if s.len() > 0 { Some(s) } else { max_version },
        None => max_version,
    }
}

/// The record of a crate: its versions (key, publish time, yanked) in key
/// order, a yanked version counting as deprecated, and the latest added
/// when no version carries it. A crate without versions or without a
/// latest version is refused.
pub fn cargo_record(
    name: &str,
    max_stable: Option<String>,
    max_version: Option<String>,
    versions: &Vec<(String, Option<i64>, bool)>,
) -> (r: Result<PackageRecord, RegistryError>)
    ensures
        r is Err <==> (cargo_latest(opt_view(max_stable), opt_view(max_version)) is None || versions@.len() == 0),
        r matches Err(e) ==> e is InvalidResponse,
        r matches Ok(rec) ==> {
            &&& rec.well_formed()
            &&& rec.name@ == name@
            &&& cargo_latest(opt_view(max_stable), opt_view(max_version)) == Some(rec.latest@)
            &&& entry_for(rec.versions@, rec.latest@) is Some
            &&& rec.publishers@.len() == 0
            &&& forall|i: int| 0 <= i < versions@.len() && (forall|j: int| i < j < versions@.len() ==> (#[trigger] versions@[j]).0@ != versions@[i].0@)
                ==> entry_fits(rec.versions@, (#[trigger] versions@[i]).0@, versions@[i].1, versions@[i].2)
        },
{
    let latest = match max_stable {
        Some(s) => if s.unicode_len() > 0 {
            s
        } else {
            match max_version {
                Some(v) => v,
                None => return Err(RegistryError::InvalidResponse { message: "missing crate latest version".to_owned() }),
            }
        },
        None => match max_version {
            Some(v) => v,
            None => return Err(RegistryError::InvalidResponse { message: "missing crate latest version".to_owned() }),
        },
    };
    if versions.len() == 0 {
        return Err(RegistryError::InvalidResponse { message: "crate has no versions".to_owned() });
    }
    let mut out: Vec<PackageVersion> = Vec::new();
    let mut i: usize = 0;
    while i < versions.len()
        invariant
            i <= versions@.len(),
            versions_sorted(out@),
            forall|x: int| 0 <= x < i && (forall|j: int| x < j < i ==> (#[trigger] versions@[j]).0@ != versions@[x].0@)
                ==> entry_fits(out@, (#[trigger] versions@[x]).0@, versions@[x].1, versions@[x].2),
        decreases versions@.len() - i,
    {
        let v = PackageVersion {
            version: versions[i].0.clone(),
            published: versions[i].1,
            deprecated: versions[i].2,
            install_scripts: Vec::new(),
        };
        insert_sorted(&mut out, v, true);
        proof {
            assert forall|x: int| 0 <= x < i + 1 && (forall|j: int| x < j < i + 1 ==> (#[trigger] versions@[j]).0@ != versions@[x].0@)
                implies entry_fits(out@, (#[trigger] versions@[x]).0@, versions@[x].1, versions@[x].2) by {
                if x < i {
                    assert(versions@[i as int].0@ != versions@[x].0@);
                }
            }
        }
        i = i + 1;
    }
    let fill = blank_version(&latest);
    insert_sorted(&mut out, fill, false);
    Ok(PackageRecord { name: name.to_owned(), latest, publishers: Vec::new(), versions: out })
}

// ---------------------------------------------------------------------------
// Popular-name lists

pub open spec fn distinct(s: Seq<Seq<char>>) -> bool {
    forall|i: int, j: int| 0 <= i < j < s.len() ==> s[i] != s[j]
}

/// `acc` extended with the page's names not seen yet, in order, until it
/// holds `limit` names.
pub open spec fn add_page_spec(acc: Seq<Seq<char>>, page: Seq<Seq<char>>, limit: nat) -> Seq<Seq<char>>
    decreases page.len(),
{
    if page.len() == 0 {
        acc
    } else {
        let a = add_page_spec(acc, page.drop_last(), limit);
        if a.len() >= limit || a.contains(page.last()) {
            a
        } else {
            a.push(page.last())
        }
    }
}

fn holds_name(names: &Vec<String>, name: &str) -> (r: bool)
    ensures
        r == strings_view(names@).contains(name@),
{
    let mut i: usize = 0;
    while i < names.len()
        invariant
            i <= names@.len(),
            forall|j: int| 0 <= j < i ==> (#[trigger] names@[j])@ != name@,
        decreases names@.len() - i,
    {
        if crate::text::eq_str(names[i].as_str(), name) {
            assert(strings_view(names@)[i as int] == name@);
            return true;
        }
        i = i + 1;
    }
    assert(!strings_view(names@).contains(name@)) by {
        if strings_view(names@).contains(name@) {
            let k = choose|k: int| 0 <= k < strings_view(names@).len() && strings_view(names@)[k] == name@;
            assert(names@[k]@ == name@);
        }
    }
    false
}

/// Adds one page of a popularity index to the names collected so far.
/// Returns whether another page is worth asking for: this one was not
/// empty and fewer than `limit` names are held.
pub fn add_popular_page(names: &mut Vec<String>, page: &Vec<String>, limit: usize) -> (more: bool)
    requires
        distinct(strings_view(old(names)@)),
        old(names)@.len() <= limit,
    ensures
        strings_view(final(names)@) == add_page_spec(strings_view(old(names)@), strings_view(page@), limit as nat),
        distinct(strings_view(final(names)@)),
        final(names)@.len() <= limit,
        more == (page@.len() > 0 && final(names)@.len() < limit),
{
    let ghost start = strings_view(names@);
    let mut i: usize = 0;
    while i < page.len()
        invariant
            i <= page@.len(),
            strings_view(names@) == add_page_spec(start, strings_view(page@.take(i as int)), limit as nat),
            distinct(strings_view(names@)),
            names@.len() <= limit,
        decreases page@.len() - i,
    {
        let ghost pv = strings_view(page@.take(i + 1));
        assert(pv.drop_last() =~= strings_view(page@.take(i as int)));
        assert(pv.last() == page@[i as int]@);
        if names.len() < limit && !holds_name(names, page[i].as_str()) {
            let ghost before = names@;
            names.push(page[i].clone());
            assert(strings_view(names@) =~= strings_view(before).push(page@[i as int]@));
            assert(distinct(strings_view(names@))) by {
                assert forall|a: int, b: int| 0 <= a < b < strings_view(names@).len() implies strings_view(names@)[a] != strings_view(names@)[b] by {
                    if b == before.len() {
                        assert(strings_view(before)[a] == strings_view(names@)[a]);
                    } else {
                        assert(strings_view(before)[a] == strings_view(names@)[a]);
                        assert(strings_view(before)[b] == strings_view(names@)[b]);
                    }
                }
            }
        }
        i = i + 1;
    }
    assert(page@.take(i as int) =~= page@);
    page.len() > 0 && names.len() < limit
}

/// The collected names, refused when the index gave none.
pub fn finish_popular(names: Vec<String>) -> (r: Result<Vec<String>, RegistryError>)
    ensures
        r is Err <==> names@.len() == 0,
        r matches Err(e) ==> e is InvalidResponse,
        r matches Ok(v) ==> v@ == names@,
{
    if names.len() == 0 {
        Err(RegistryError::InvalidResponse { message: "popularity index returned no package names".to_owned() })
    } else {
        Ok(names)
    }
}

/// What a cached list can answer for `limit` names: nothing is needed for
/// zero, the first `limit` names when the cache holds enough, else `None`
/// (the index must be asked).
pub fn popular_from_cache(cache: &Option<Vec<String>>, limit: usize) -> (r: Option<Vec<String>>)
    ensures
        limit == 0 ==> (r matches Some(v) && v@.len() == 0),
        limit > 0 ==> match cache {
            Some(c) => if c@.len() >= limit {
                (r matches Some(v) && strings_view(v@) == strings_view(c@.take(limit as int)))
            } else {
                r is None
            },
            None => r is None,
        },
{
    if limit == 0 {
        return Some(Vec::new());
    }
    match cache {
        Some(c) => {
            if c.len() >= limit {
                let mut out: Vec<String> = Vec::new();
                let mut i: usize = 0;
                while i < limit
                    invariant
                        i <= limit,
                        limit <= c@.len(),
                        strings_view(out@) == strings_view(c@.take(i as int)),
                    decreases limit - i,
                {
                    let ghost before = out@;
                    out.push(c[i].clone());
                    assert(c@.take(i + 1) =~= c@.take(i as int).push(c@[i as int]));
                    assert(strings_view(out@) =~= strings_view(before).push(c@[i as int]@));
                    i = i + 1;
                }
                Some(out)
            } else {
                None
            }
        },
        None => None,
    }
}

/// How many names to ask the index for next: a page, or what is missing.
pub fn page_size(limit: usize, have: usize, page_max: usize) -> (r: usize)
    requires
        have <= limit,
    ensures
        r == if page_max < limit - have { page_max } else { (limit - have) as usize },
{
    let missing = limit - have;
    if page_max < missing {
        page_max
    } else {
        missing
    }
}

} // verus!
