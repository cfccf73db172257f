//! Advisory: known vulnerabilities of the resolved version, with the
//! smallest upgrade that fixes them.
use vstd::prelude::*;
use crate::model::{CheckFinding, PackageAdvisory, Severity, seq_less};
use crate::semver_order::{compare_semver, semver_core, semver_less, semver_order};
use crate::text::{append_str, starts_with_spec, starts_with_str};

verus! {

pub open spec fn is_cve(s: Seq<char>) -> bool {
    starts_with_spec(s, "CVE-"@)
}

/// The aliases of an advisory that are CVE identifiers, in order.
pub open spec fn cve_aliases(aliases: Seq<String>) -> Seq<Seq<char>>
    decreases aliases.len(),
{
    if aliases.len() == 0 {
        seq![]
    } else {
        let rest = cve_aliases(aliases.drop_last());
        if is_cve(aliases.last()@) {
            rest.push(aliases.last()@)
        } else {
            rest
        }
    }
}

/// How an advisory is named in a reason: its CVE aliases, else its id.
pub open spec fn advisory_ids(a: PackageAdvisory) -> Seq<Seq<char>> {
    let c = cve_aliases(a.aliases@);
    if c.len() == 0 {
        seq![a.id@]
    } else {
        c
    }
}

pub open spec fn all_ids(advisories: Seq<PackageAdvisory>) -> Seq<Seq<char>>
    decreases advisories.len(),
{
    if advisories.len() == 0 {
        seq![]
    } else {
        all_ids(advisories.drop_last()) + advisory_ids(advisories.last())
    }
}

pub open spec fn join_spec(parts: Seq<Seq<char>>, sep: Seq<char>) -> Seq<char>
    decreases parts.len(),
{
    if parts.len() == 0 {
        seq![]
    } else if parts.len() == 1 {
        parts[0]
    } else {
        join_spec(parts.drop_last(), sep) + sep + parts.last()
    }
}

/// Up to three identifiers joined by `, `, or `OSV advisory` when none.
pub open spec fn identifiers_text(advisories: Seq<PackageAdvisory>) -> Seq<char> {
    let ids = all_ids(advisories);
    let shown = if ids.len() > 3 {
        ids.take(3)
    } else {
        ids
    };
    if shown.len() == 0 {
        "OSV advisory"@
    } else {
        join_spec(shown, ", "@)
    }
}

/// `candidate` is newer than `baseline`: by SemVer when both parse, else by
/// string order.
pub open spec fn version_newer(candidate: Seq<char>, baseline: Seq<char>) -> bool {
    match semver_order(candidate, baseline) {
        Some(o) => o == 1,
        None => seq_less(baseline, candidate),
    }
}

/// `a` is older than `b`: by SemVer when both parse, else by string order.
pub open spec fn version_older(a: Seq<char>, b: Seq<char>) -> bool {
    match semver_order(a, b) {
        Some(o) => o == -1,
        None => seq_less(a, b),
    }
}

/// Every fixed version of every advisory that is newer than `requested`.
pub open spec fn newer_fixed(advisories: Seq<PackageAdvisory>, requested: Seq<char>) -> Seq<
    Seq<char>,
>
    decreases advisories.len(),
{
    if advisories.len() == 0 {
        seq![]
    } else {
        newer_fixed(advisories.drop_last(), requested) + newer_in(
            advisories.last().fixed_versions@,
            requested,
        )
    }
}

pub open spec fn newer_in(fixed: Seq<String>, requested: Seq<char>) -> Seq<Seq<char>>
    decreases fixed.len(),
{
    if fixed.len() == 0 {
        seq![]
    } else {
        let rest = newer_in(fixed.drop_last(), requested);
        if version_newer(fixed.last()@, requested) {
            rest.push(fixed.last()@)
        } else {
            rest
        }
    }
}

pub open spec fn strings_view(v: Seq<String>) -> Seq<Seq<char>> {
    v.map_values(|s: String| s@)
}

proof fn lemma_seq_less_skip(a: Seq<char>, b: Seq<char>, i: int)
    requires
        0 <= i <= a.len(),
        i <= b.len(),
        a.take(i) == b.take(i),
    ensures
        seq_less(a, b) == seq_less(a.skip(i), b.skip(i)),
    decreases i,
{
    if i > 0 {
        assert(a[0] == a.take(i)[0]);
        assert(b[0] == b.take(i)[0]);
        assert(a.drop_first().take(i - 1) =~= a.take(i).drop_first());
        assert(b.drop_first().take(i - 1) =~= b.take(i).drop_first());
        lemma_seq_less_skip(a.drop_first(), b.drop_first(), i - 1);
        assert(a.drop_first().skip(i - 1) =~= a.skip(i));
        assert(b.drop_first().skip(i - 1) =~= b.skip(i));
    } else {
        assert(a.skip(0) =~= a);
        assert(b.skip(0) =~= b);
    }
}

/// String order of `str`, which compares by code point.
pub fn str_less(a: &str, b: &str) -> (r: bool)
    ensures
        r == seq_less(a@, b@),
{
    let x = crate::text::chars_of(a);
    let y = crate::text::chars_of(b);
    let mut i: usize = 0;
    while i < x.len() && i < y.len()
        invariant
            x@ == a@,
            y@ == b@,
            i <= x@.len(),
            i <= y@.len(),
            x@.take(i as int) == y@.take(i as int),
        decreases x@.len() - i,
    {
        if x[i] != y[i] {
            proof {
                lemma_seq_less_skip(x@, y@, i as int);
            }
            return x[i] < y[i];
        }
        assert(x@.take(i + 1) =~= x@.take(i as int).push(x@[i as int]));
        assert(y@.take(i + 1) =~= y@.take(i as int).push(y@[i as int]));
        i = i + 1;
    }
    proof {
        lemma_seq_less_skip(x@, y@, i as int);
    }
    i == x.len() && i < y.len()
}

/// Whether `candidate` is newer than `baseline`.
pub fn is_version_newer(candidate: &str, baseline: &str) -> (r: bool)
    ensures
        r == version_newer(candidate@, baseline@),
{
    match compare_semver(candidate, baseline) {
        Some(o) => o == 1,
        None => str_less(baseline, candidate),
    }
}

fn is_version_older(a: &str, b: &str) -> (r: bool)
    ensures
        r == version_older(a@, b@),
        semver_core(a@) is Some && semver_core(b@) is Some ==> semver_order(a@, b@) is Some,
        r && semver_order(a@, b@) is Some ==> forall|x: Seq<char>|
            semver_less(x, a@) ==> #[trigger] semver_less(x, b@),
        r && semver_order(a@, b@) is Some ==> !semver_less(b@, a@),
{
    match compare_semver(a, b) {
        Some(o) => o == -1,
        None => str_less(a, b),
    }
}

/// Every candidate parses as SemVer.
pub open spec fn all_semver(candidates: Seq<Seq<char>>) -> bool {
    forall|i: int| 0 <= i < candidates.len() ==> (#[trigger] semver_core(candidates[i])) is Some
}

/// Index of the smallest upgrade among `candidates`: the first element
/// that no later element undercuts.
pub fn best_fixed_version(candidates: &Vec<String>) -> (r: Option<usize>)
    ensures
        candidates@.len() == 0 <==> r is None,
        match r {
            Some(i) => i < candidates@.len() && (forall|j: int|
                i < j < candidates@.len() ==> !version_older(
                    (#[trigger] candidates@[j])@,
                    candidates@[i as int]@,
                )) && (all_semver(strings_view(candidates@)) ==> forall|j: int|
                0 <= j < candidates@.len() && candidates@[j]@ != candidates@[i as int]@
                    ==> !semver_less((#[trigger] candidates@[j])@, candidates@[i as int]@)),
            None => true,
        },
{
    if candidates.len() == 0 {
        return None;
    }
    let mut best: usize = 0;
    let mut k: usize = 1;
    while k < candidates.len()
        invariant
            1 <= k <= candidates@.len(),
            best < k,
            forall|j: int|
                best < j < k ==> !version_older(
                    (#[trigger] candidates@[j])@,
                    candidates@[best as int]@,
                ),
            all_semver(strings_view(candidates@.take(k as int))) ==> forall|j: int|
                0 <= j < k && candidates@[j]@ != candidates@[best as int]@ ==> !semver_less(
                    (#[trigger] candidates@[j])@,
                    candidates@[best as int]@,
                ),
        decreases candidates@.len() - k,
    {
        let older = is_version_older(candidates[k].as_str(), candidates[best].as_str());
        let ghost old_best = best;
        if older {
            best = k;
        }
        proof {
            let pre = strings_view(candidates@.take(k as int));
            let post = strings_view(candidates@.take(k + 1));
            if all_semver(post) {
                assert forall|i: int| 0 <= i < pre.len() implies (#[trigger] semver_core(
                    pre[i],
                )) is Some by {
                    assert(pre[i] == post[i]);
                }
                assert(post[k as int] == candidates@[k as int]@);
                assert(post[old_best as int] == candidates@[old_best as int]@);
                assert(semver_core(post[k as int]) is Some);
                assert(semver_core(post[old_best as int]) is Some);
                let ck = candidates@[k as int]@;
                let cb = candidates@[old_best as int]@;
                assert(semver_order(ck, cb) is Some);
                assert forall|j: int|
                    0 <= j < k + 1 && candidates@[j]@ != candidates@[best as int]@ implies !semver_less(
                    (#[trigger] candidates@[j])@,
                    candidates@[best as int]@,
                ) by {
                    if older {
                        if j < k {
                            if candidates@[j]@ == cb {
                            } else {
                                if semver_less(candidates@[j]@, ck) {
                                    assert(semver_less(candidates@[j]@, cb));
                                }
                            }
                        }
                    } else {
                        if j == k {
                        }
                    }
                }
            }
        }
        k = k + 1;
    }
    assert(candidates@.take(k as int) =~= candidates@);
    Some(best)
}

/// Identifiers of one advisory: its CVE aliases, else its id.
pub fn advisory_identifiers(advisory: &PackageAdvisory) -> (r: Vec<String>)
    ensures
        strings_view(r@) == advisory_ids(*advisory),
{
    let mut out: Vec<String> = Vec::new();
    let aliases = &advisory.aliases;
    let mut i: usize = 0;
    while i < aliases.len()
        invariant
            aliases == &advisory.aliases,
            i <= aliases@.len(),
            strings_view(out@) == cve_aliases(aliases@.take(i as int)),
        decreases aliases@.len() - i,
    {
        assert(aliases@.take(i + 1).drop_last() =~= aliases@.take(i as int));
        if starts_with_str(aliases[i].as_str(), "CVE-") {
            out.push(aliases[i].clone());
        }
        assert(strings_view(out@) =~= cve_aliases(aliases@.take(i + 1)));
        i = i + 1;
    }
    assert(aliases@.take(i as int) =~= aliases@);
    if out.len() == 0 {
        let mut single: Vec<String> = Vec::new();
        single.push(advisory.id.clone());
        assert(strings_view(single@) =~= advisory_ids(*advisory));
        return single;
    }
    out
}

/// The identifier text of the advisories: up to three, joined by `, `.
pub fn identifiers_for(advisories: &Vec<PackageAdvisory>) -> (r: String)
    ensures
        r@ == identifiers_text(advisories@),
{
    let mut shown: Vec<String> = Vec::new();
    let mut i: usize = 0;
    while i < advisories.len() && shown.len() < 3
        invariant
            i <= advisories@.len(),
            shown@.len() <= 3,
            shown@.len() < 3 ==> strings_view(shown@) == all_ids(advisories@.take(i as int)),
            shown@.len() == 3 ==> strings_view(shown@) == all_ids(advisories@.take(i as int)).take(3),
            shown@.len() == 3 ==> all_ids(advisories@.take(i as int)).len() >= 3,
        decreases advisories@.len() - i,
    {
        let ids = advisory_identifiers(&advisories[i]);
        let ghost before = strings_view(shown@);
        assert(advisories@.take(i + 1).drop_last() =~= advisories@.take(i as int));
        assert(advisories@.take(i + 1).last() == advisories@[i as int]);
        let ghost all_next = all_ids(advisories@.take(i + 1));
        assert(all_next == all_ids(advisories@.take(i as int)) + strings_view(ids@));
        let mut j: usize = 0;
        while j < ids.len() && shown.len() < 3
            invariant
                j <= ids@.len(),
                shown@.len() <= 3,
                before.len() < 3,
                before == all_ids(advisories@.take(i as int)),
                all_next == before + strings_view(ids@),
                strings_view(shown@) == all_next.take(before.len() + j),
                shown@.len() == before.len() + j,
                before.len() + j <= all_next.len(),
            decreases ids@.len() - j,
        {
            shown.push(ids[j].clone());
            j = j + 1;
            assert(strings_view(shown@) =~= all_next.take(before.len() + j));
        }
        proof {
            if shown@.len() < 3 {
                assert(j == ids@.len());
                assert(all_next.take(before.len() + j) =~= all_next);
            } else {
                assert(all_next.take(before.len() + j) =~= all_next.take(3));
            }
        }
        i = i + 1;
    }
    proof {
        let ids_all = all_ids(advisories@);
        if shown@.len() < 3 {
            assert(advisories@.take(i as int) =~= advisories@);
        } else {
            lemma_all_ids_prefix(advisories@, i as int);
            let part = all_ids(advisories@.take(i as int));
            assert(ids_all.take(part.len() as int).take(3) =~= ids_all.take(3));
            if ids_all.len() == 3 {
                assert(ids_all.take(3) =~= ids_all);
            }
        }
    }
    if shown.len() == 0 {
        return "OSV advisory".to_owned();
    }
    join_with_comma(&shown)
}

proof fn lemma_all_ids_prefix(advisories: Seq<PackageAdvisory>, i: int)
    requires
        0 <= i <= advisories.len(),
    ensures
        all_ids(advisories).len() >= all_ids(advisories.take(i)).len(),
        all_ids(advisories).take(all_ids(advisories.take(i)).len() as int) == all_ids(
            advisories.take(i),
        ),
    decreases advisories.len() - i,
{
    if i < advisories.len() {
        lemma_all_ids_prefix(advisories.drop_last(), i);
        assert(advisories.drop_last().take(i) =~= advisories.take(i));
        let a = all_ids(advisories.drop_last());
        let b = advisory_ids(advisories.last());
        assert((a + b).take(all_ids(advisories.take(i)).len() as int) =~= a.take(
            all_ids(advisories.take(i)).len() as int,
        ));
    } else {
        assert(advisories.take(i) =~= advisories);
        assert(all_ids(advisories).take(all_ids(advisories).len() as int) =~= all_ids(advisories));
    }
}

fn join_with_comma(parts: &Vec<String>) -> (r: String)
    requires
        parts@.len() > 0,
    ensures
        r@ == join_spec(strings_view(parts@), ", "@),
{
    let mut out = parts[0].clone();
    let mut i: usize = 1;
    assert(strings_view(parts@.take(1)) =~= seq![parts@[0]@]);
    while i < parts.len()
        invariant
            1 <= i <= parts@.len(),
            out@ == join_spec(strings_view(parts@.take(i as int)), ", "@),
        decreases parts@.len() - i,
    {
        append_str(&mut out, ", ");
        append_str(&mut out, parts[i].as_str());
        assert(strings_view(parts@.take(i + 1)).drop_last() =~= strings_view(parts@.take(i as int)));
        i = i + 1;
    }
    assert(parts@.take(i as int) =~= parts@);
    out
}

/// Fixed versions newer than `requested`, over all advisories, in order.
pub fn newer_fixed_versions(advisories: &Vec<PackageAdvisory>, requested: &str) -> (r: Vec<String>)
    ensures
        strings_view(r@) == newer_fixed(advisories@, requested@),
{
    let mut out: Vec<String> = Vec::new();
    let mut i: usize = 0;
    while i < advisories.len()
        invariant
            i <= advisories@.len(),
            strings_view(out@) == newer_fixed(advisories@.take(i as int), requested@),
        decreases advisories@.len() - i,
    {
        let fixed = &advisories[i].fixed_versions;
        let ghost before = strings_view(out@);
        let mut j: usize = 0;
        while j < fixed.len()
            invariant
                i < advisories@.len(),
                fixed == &advisories@[i as int].fixed_versions,
                j <= fixed@.len(),
                strings_view(out@) == before + newer_in(fixed@.take(j as int), requested@),
            decreases fixed@.len() - j,
        {
            let ghost t1 = fixed@.take(j + 1);
            assert(t1.drop_last() =~= fixed@.take(j as int));
            assert(t1.last() == fixed@[j as int]);
            let newer = is_version_newer(fixed[j].as_str(), requested);
            let ghost out_before = out@;
            if newer {
                out.push(fixed[j].clone());
                assert(strings_view(out@) =~= strings_view(out_before).push(fixed@[j as int]@));
            }
            assert(newer_in(t1, requested@) == if newer {
                newer_in(fixed@.take(j as int), requested@).push(fixed@[j as int]@)
            } else {
                newer_in(fixed@.take(j as int), requested@)
            });
            assert(strings_view(out@) =~= before + newer_in(fixed@.take(j + 1), requested@));
            j = j + 1;
        }
        assert(fixed@.take(j as int) =~= fixed@);
        assert(advisories@.take(i + 1).drop_last() =~= advisories@.take(i as int));
        i = i + 1;
    }
    assert(advisories@.take(i as int) =~= advisories@);
    out
}

pub open spec fn advisory_reason(
    name: Seq<char>,
    requested: Seq<char>,
    latest: Seq<char>,
    ids: Seq<char>,
    best: Option<Seq<char>>,
) -> Seq<char> {
    match best {
        Some(f) => name + "@"@ + requested + " is affected by "@ + ids
            + "; known CVEs are fixed in newer version "@ + f + " (latest is "@ + latest + ")"@,
        None => name + "@"@ + requested + " is affected by "@ + ids,
    }
}

/// What the advisory check reports.
pub open spec fn advisory_ok(
    package_name: Seq<char>,
    requested_version: Seq<char>,
    latest_version: Seq<char>,
    advisories: Seq<PackageAdvisory>,
    r: Option<CheckFinding>,
) -> bool {
    &&& advisories.len() == 0 ==> r is None
    &&& advisories.len() > 0 ==> r is Some && r.unwrap().severity == Severity::High && exists|
        best: Option<Seq<char>>,
    |
        {
            &&& r.unwrap().reason@ == advisory_reason(
                package_name,
                requested_version,
                latest_version,
                identifiers_text(advisories),
                best,
            )
            &&& (best is None <==> newer_fixed(advisories, requested_version).len() == 0)
            &&& best matches Some(b) ==> newer_fixed(advisories, requested_version).contains(b)
                && forall|j: int|
                0 <= j < newer_fixed(advisories, requested_version).len() && newer_fixed(
                    advisories,
                    requested_version,
                )[j] != b ==> !(all_semver(newer_fixed(advisories, requested_version))
                    && semver_less(#[trigger] newer_fixed(advisories, requested_version)[j], b))
        }
}

/// Runs the advisory check: no finding without advisories; otherwise one
/// high finding that names up to three identifiers and, when some fixed
/// version is newer than the requested one, the smallest such upgrade.
pub fn advisory_finding(
    package_name: &str,
    requested_version: &str,
    latest_version: &str,
    advisories: &Vec<PackageAdvisory>,
) -> (r: Option<CheckFinding>)
    ensures
        advisory_ok(package_name@, requested_version@, latest_version@, advisories@, r),
{
    if advisories.len() == 0 {
        return None;
    }
    let ids = identifiers_for(advisories);
    let fixed = newer_fixed_versions(advisories, requested_version);
    let best = best_fixed_version(&fixed);
    let mut reason = String::new();
    append_str(&mut reason, package_name);
    append_str(&mut reason, "@");
    append_str(&mut reason, requested_version);
    append_str(&mut reason, " is affected by ");
    append_str(&mut reason, ids.as_str());
    match best {
        Some(i) => {
            append_str(&mut reason, "; known CVEs are fixed in newer version ");
            append_str(&mut reason, fixed[i].as_str());
            append_str(&mut reason, " (latest is ");
            append_str(&mut reason, latest_version);
            append_str(&mut reason, ")");
            proof {
                let nf = newer_fixed(advisories@, requested_version@);
                assert(strings_view(fixed@) == nf);
                assert(nf[i as int] == fixed@[i as int]@);
                assert(nf.contains(fixed@[i as int]@));
                assert forall|j: int|
                    0 <= j < nf.len() && nf[j] != fixed@[i as int]@ implies !(all_semver(nf)
                    && semver_less(#[trigger] nf[j], fixed@[i as int]@)) by {
                    assert(nf[j] == fixed@[j]@);
                }
                assert(reason_matches(reason@, package_name@, requested_version@, latest_version@, identifiers_text(advisories@), Some(fixed@[i as int]@)));
            }
        },
        None => {
            proof {
                assert(reason_matches(reason@, package_name@, requested_version@, latest_version@, identifiers_text(advisories@), None));
            }
        },
    }
    Some(CheckFinding { severity: Severity::High, reason })
}

spec fn reason_matches(
    reason: Seq<char>,
    name: Seq<char>,
    requested: Seq<char>,
    latest: Seq<char>,
    ids: Seq<char>,
    best: Option<Seq<char>>,
) -> bool {
    reason == advisory_reason(name, requested, latest, ids, best)
}

} // verus!
