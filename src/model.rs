//! The data that flows through an evaluation: severities, findings, registry
//! records, advisories, dependency specs and the errors of registries and
//! dependency files.
use vstd::prelude::*;

verus! {

/// How serious a finding is; ordered `Low < Medium < High < Critical`.
#[derive(Debug, Clone, Copy, PartialEq, Eq, Structural, Hash)]
pub enum Severity {
    Low,
    Medium,
    High,
    Critical,
}

impl Severity {
    pub open spec fn rank(self) -> nat {
        match self {
            Severity::Low => 0,
            Severity::Medium => 1,
            Severity::High => 2,
            Severity::Critical => 3,
        }
    }

    /// Position in the order `low < medium < high < critical`.
    pub fn level(&self) -> (r: u8)
        ensures
            r as nat == self.rank(),
    {
        match self {
            Severity::Low => 0,
            Severity::Medium => 1,
            Severity::High => 2,
            Severity::Critical => 3,
        }
    }

    /// `self <= other` in the severity order.
    pub fn at_most(&self, other: &Severity) -> (r: bool)
        ensures
            r == (self.rank() <= other.rank()),
    {
        self.level() <= other.level()
    }

    /// The larger of two severities.
    pub fn max_with(self, other: Severity) -> (r: Severity)
        ensures
            r == max_severity(self, other),
    {
        if other.level() > self.level() {
            other
        } else {
            self
        }
    }

    pub open spec fn name_spec(self) -> Seq<char> {
        match self {
            Severity::Low => "low"@,
            Severity::Medium => "medium"@,
            Severity::High => "high"@,
            Severity::Critical => "critical"@,
        }
    }

    /// Lowercase name, as serialised.
    pub fn as_str(&self) -> (r: &'static str)
        ensures
            r@ == self.name_spec(),
    {
        match self {
            Severity::Low => "low",
            Severity::Medium => "medium",
            Severity::High => "high",
            Severity::Critical => "critical",
        }
    }
}

pub open spec fn max_severity(a: Severity, b: Severity) -> Severity {
    if b.rank() > a.rank() {
        b
    } else {
        a
    }
}

/// One signal raised by a check.
#[derive(Debug, Clone)]
pub struct CheckFinding {
    pub severity: Severity,
    pub reason: String,
}

impl CheckFinding {
    /// An exact copy.
    pub fn clone_finding(&self) -> (r: CheckFinding)
        ensures
            r == *self,
    {
        CheckFinding { severity: self.severity, reason: self.reason.clone() }
    }
}

/// Facts about the evaluated package attached to a decision.
#[derive(Debug, Clone)]
pub struct Metadata {
    pub latest: Option<String>,
    pub requested: Option<String>,
    pub published: Option<String>,
    pub weekly_downloads: Option<u64>,
}

pub open spec fn opt_view(o: Option<String>) -> Option<Seq<char>> {
    match o {
        Some(s) => Some(s@),
        None => None,
    }
}

pub open spec fn opt_str_view(o: Option<&str>) -> Option<Seq<char>> {
    match o {
        Some(s) => Some(s@),
        None => None,
    }
}

/// Copies an optional borrowed string into an owned one.
pub fn own_opt(o: Option<&str>) -> (r: Option<String>)
    ensures
        opt_view(r) == opt_str_view(o),
{
    match o {
        Some(s) => Some(s.to_owned()),
        None => None,
    }
}

pub fn copy_opt(o: &Option<String>) -> (r: Option<String>)
    ensures
        opt_view(r) == opt_view(*o),
{
    match o {
        Some(s) => Some(s.clone()),
        None => None,
    }
}

impl Metadata {
    /// Field-by-field copy.
    pub fn copy(&self) -> (r: Metadata)
        ensures
            opt_view(r.latest) == opt_view(self.latest),
            opt_view(r.requested) == opt_view(self.requested),
            opt_view(r.published) == opt_view(self.published),
            r.weekly_downloads == self.weekly_downloads,
    {
        Metadata {
            latest: copy_opt(&self.latest),
            requested: copy_opt(&self.requested),
            published: copy_opt(&self.published),
            weekly_downloads: self.weekly_downloads,
        }
    }
}

/// One release of a package. `published` is in seconds since the Unix epoch.
#[derive(Debug, Clone)]
pub struct PackageVersion {
    pub version: String,
    pub published: Option<i64>,
    pub deprecated: bool,
    pub install_scripts: Vec<String>,
}

/// What a registry knows of a package. `versions` is kept in ascending
/// order of version strings.
#[derive(Debug, Clone)]
pub struct PackageRecord {
    pub name: String,
    pub latest: String,
    pub publishers: Vec<String>,
    pub versions: Vec<PackageVersion>,
}

/// The version key that a request resolves to.
pub open spec fn resolve_key(latest: Seq<char>, requested: Option<Seq<char>>) -> Seq<char> {
    match requested {
        None => latest,
        Some(r) => if r == "latest"@ {
            latest
        } else {
            r
        },
    }
}

/// Index of the first version whose key is `key`.
pub open spec fn version_index(versions: Seq<PackageVersion>, key: Seq<char>) -> Option<int> {
    if exists|i: int| 0 <= i < versions.len() && (#[trigger] versions[i]).version@ == key {
        let i = choose|i: int|
            0 <= i < versions.len() && (#[trigger] versions[i]).version@ == key && forall|j: int|
                0 <= j < i ==> (#[trigger] versions[j]).version@ != key;
        Some(i)
    } else {
        None
    }
}

proof fn lemma_version_index_first(versions: Seq<PackageVersion>, key: Seq<char>, i: int)
    requires
        0 <= i < versions.len(),
        versions[i].version@ == key,
        forall|j: int| 0 <= j < i ==> (#[trigger] versions[j]).version@ != key,
    ensures
        version_index(versions, key) == Some(i),
{
    assert(versions[i].version@ == key);
    let k = choose|k: int|
        0 <= k < versions.len() && (#[trigger] versions[k]).version@ == key && forall|j: int|
            0 <= j < k ==> (#[trigger] versions[j]).version@ != key;
    assert(0 <= k < versions.len() && versions[k].version@ == key && forall|j: int|
        0 <= j < k ==> (#[trigger] versions[j]).version@ != key);
    if k < i {
        assert(versions[k].version@ != key);
    } else if k > i {
        assert(versions[i].version@ != key);
    }
}

impl PackageRecord {
    /// Versions in strictly ascending order of their keys.
    pub open spec fn well_formed(&self) -> bool {
        forall|i: int, j: int|
            0 <= i < j < self.versions.len() ==> seq_less(
                self.versions[i].version@,
                self.versions[j].version@,
            )
    }

    /// The version that `requested` names: the latest for `None` or
    /// `"latest"`, else the version with exactly that key.
    pub fn resolve_version(&self, requested: Option<&str>) -> (r: Option<&PackageVersion>)
        ensures
            match version_index(self.versions@, resolve_key(self.latest@, opt_str_view(requested))) {
                Some(i) => r is Some && *r.unwrap() == self.versions@[i],
                None => r is None,
            },
    {
        let key: &str = match requested {
            None => self.latest.as_str(),
            Some(v) => if crate::text::eq_str(v, "latest") {
                proof {
                    reveal_strlit("latest");
                }
                self.latest.as_str()
            } else {
                v
            },
        };
        proof {
            reveal_strlit("latest");
        }
        assert(key@ == resolve_key(self.latest@, opt_str_view(requested)));
        let mut i: usize = 0;
        while i < self.versions.len()
            invariant
                i <= self.versions@.len(),
                key@ == resolve_key(self.latest@, opt_str_view(requested)),
                forall|j: int| 0 <= j < i ==> (#[trigger] self.versions@[j]).version@ != key@,
            decreases self.versions@.len() - i,
        {
            if crate::text::eq_str(self.versions[i].version.as_str(), key) {
                proof {
                    lemma_version_index_first(self.versions@, key@, i as int);
                }
                return Some(&self.versions[i]);
            }
            i = i + 1;
        }
        None
    }
}

/// Lexicographic order on character sequences (the order of `str`).
pub open spec fn seq_less(a: Seq<char>, b: Seq<char>) -> bool
    decreases a.len(),
{
    if a.len() == 0 {
        b.len() > 0
    } else if b.len() == 0 {
        false
    } else if a[0] != b[0] {
        a[0] < b[0]
    } else {
        seq_less(a.drop_first(), b.drop_first())
    }
}

pub proof fn lemma_seq_less_irreflexive(a: Seq<char>)
    ensures
        !seq_less(a, a),
    decreases a.len(),
{
    if a.len() > 0 {
        lemma_seq_less_irreflexive(a.drop_first());
    }
}

pub proof fn lemma_seq_less_total(a: Seq<char>, b: Seq<char>)
    requires
        a != b,
    ensures
        seq_less(a, b) || seq_less(b, a),
    decreases a.len(),
{
    if a.len() == 0 {
        assert(b.len() > 0) by {
            if b.len() == 0 {
                assert(a =~= b);
            }
        }
    } else if b.len() == 0 {
    } else if a[0] != b[0] {
    } else {
        assert(a.drop_first() != b.drop_first()) by {
            if a.drop_first() == b.drop_first() {
                assert(a =~= seq![a[0]] + a.drop_first());
                assert(b =~= seq![b[0]] + b.drop_first());
            }
        }
        lemma_seq_less_total(a.drop_first(), b.drop_first());
    }
}

pub proof fn lemma_seq_less_transitive(a: Seq<char>, b: Seq<char>, c: Seq<char>)
    requires
        seq_less(a, b),
        seq_less(b, c),
    ensures
        seq_less(a, c),
    decreases a.len(),
{
    if a.len() > 0 && b.len() > 0 && c.len() > 0 {
        if a[0] == b[0] && b[0] == c[0] {
            lemma_seq_less_transitive(a.drop_first(), b.drop_first(), c.drop_first());
        }
    }
}

/// Versions in strictly ascending order of their keys.
pub open spec fn versions_sorted(vs: Seq<PackageVersion>) -> bool {
    forall|i: int, j: int| 0 <= i < j < vs.len() ==> seq_less(vs[i].version@, vs[j].version@)
}

/// The version with key `key`, if any.
pub open spec fn entry_for(vs: Seq<PackageVersion>, key: Seq<char>) -> Option<PackageVersion> {
    match version_index(vs, key) {
        Some(i) => Some(vs[i]),
        None => None,
    }
}

pub proof fn lemma_entry_at(vs: Seq<PackageVersion>, i: int)
    requires
        versions_sorted(vs),
        0 <= i < vs.len(),
    ensures
        entry_for(vs, vs[i].version@) == Some(vs[i]),
{
    assert forall|j: int| 0 <= j < i implies (#[trigger] vs[j]).version@ != vs[i].version@ by {
        lemma_seq_less_irreflexive(vs[i].version@);
    }
    lemma_version_index_first(vs, vs[i].version@, i);
}

/// Position of the first version whose key is not below `key`.
fn position_for(vs: &Vec<PackageVersion>, key: &str) -> (r: usize)
    ensures
        r <= vs@.len(),
        forall|j: int| 0 <= j < r ==> seq_less((#[trigger] vs@[j]).version@, key@),
        r < vs@.len() ==> !seq_less(vs@[r as int].version@, key@),
{
    let mut i: usize = 0;
    while i < vs.len()
        invariant
            i <= vs@.len(),
            forall|j: int| 0 <= j < i ==> seq_less((#[trigger] vs@[j]).version@, key@),
        decreases vs@.len() - i,
    {
        if !crate::checks::advisory::str_less(vs[i].version.as_str(), key) {
            return i;
        }
        i = i + 1;
    }
    i
}

proof fn lemma_insert_keeps_order(old_vs: Seq<PackageVersion>, i: int, v: PackageVersion)
    requires
        versions_sorted(old_vs),
        0 <= i <= old_vs.len(),
        forall|j: int| 0 <= j < i ==> seq_less((#[trigger] old_vs[j]).version@, v.version@),
        i < old_vs.len() ==> seq_less(v.version@, old_vs[i].version@),
    ensures
        versions_sorted(old_vs.insert(i, v)),
        entry_for(old_vs, v.version@) is None,
        entry_for(old_vs.insert(i, v), v.version@) == Some(v),
        forall|k: Seq<char>|
            k != v.version@ ==> #[trigger] entry_for(old_vs.insert(i, v), k) == entry_for(old_vs, k),
{
    let key = v.version@;
    let nv = old_vs.insert(i, v);
    assert(nv[i] == v);
    assert forall|a: int, b: int| 0 <= a < b < nv.len() implies seq_less(nv[a].version@, nv[b].version@) by {
        if b < i {
            assert(nv[a] == old_vs[a] && nv[b] == old_vs[b]);
        } else if b == i {
            assert(nv[a] == old_vs[a]);
        } else if a == i {
            assert(nv[b] == old_vs[b - 1]);
            if b - 1 > i {
                lemma_seq_less_transitive(key, old_vs[i].version@, old_vs[b - 1].version@);
            }
        } else if a < i {
            assert(nv[a] == old_vs[a] && nv[b] == old_vs[b - 1]);
            lemma_seq_less_transitive(old_vs[a].version@, key, old_vs[i].version@);
            if b - 1 > i {
                lemma_seq_less_transitive(old_vs[a].version@, old_vs[i].version@, old_vs[b - 1].version@);
            }
        } else {
            assert(nv[a] == old_vs[a - 1] && nv[b] == old_vs[b - 1]);
        }
    }
    lemma_entry_at(nv, i);
    assert forall|w: int| 0 <= w < old_vs.len() implies (#[trigger] old_vs[w]).version@ != key by {
        lemma_seq_less_irreflexive(key);
        if w > i {
            lemma_seq_less_transitive(key, old_vs[i].version@, old_vs[w].version@);
        }
    }
    assert forall|k: Seq<char>| k != key implies #[trigger] entry_for(nv, k) == entry_for(old_vs, k) by {
        if exists|w: int| 0 <= w < old_vs.len() && (#[trigger] old_vs[w]).version@ == k {
            let w = choose|w: int| 0 <= w < old_vs.len() && (#[trigger] old_vs[w]).version@ == k;
            lemma_entry_at(old_vs, w);
            if w < i {
                assert(nv[w] == old_vs[w]);
                lemma_entry_at(nv, w);
            } else {
                assert(nv[w + 1] == old_vs[w]);
                lemma_entry_at(nv, w + 1);
            }
        } else {
            assert forall|w: int| 0 <= w < nv.len() implies (#[trigger] nv[w]).version@ != k by {
                if w < i {
                    assert(nv[w] == old_vs[w]);
                } else if w > i {
                    assert(nv[w] == old_vs[w - 1]);
                }
            }
        }
    }
}

/// Adds `v` keeping the keys in ascending order. A version with the same
/// key is replaced when `replace`, else kept.
pub fn insert_sorted(vs: &mut Vec<PackageVersion>, v: PackageVersion, replace: bool)
    requires
        versions_sorted(old(vs)@),
    ensures
        versions_sorted(final(vs)@),
        entry_for(final(vs)@, v.version@) == if replace || entry_for(old(vs)@, v.version@) is None {
            Some(v)
        } else {
            entry_for(old(vs)@, v.version@)
        },
        forall|k: Seq<char>|
            k != v.version@ ==> #[trigger] entry_for(final(vs)@, k) == entry_for(old(vs)@, k),
{
    let ghost old_vs = vs@;
    let ghost key = v.version@;
    let n = vs.len();
    let i = position_for(vs, v.version.as_str());
    if i < n && crate::text::eq_str(vs[i].version.as_str(), v.version.as_str()) {
        proof {
            lemma_entry_at(old_vs, i as int);
        }
        if replace {
            vs.set(i, v);
            proof {
                assert forall|a: int, b: int| 0 <= a < b < vs@.len() implies seq_less(vs@[a].version@, vs@[b].version@) by {
                    assert(vs@[a].version@ == old_vs[a].version@);
                    assert(vs@[b].version@ == old_vs[b].version@);
                }
                lemma_entry_at(vs@, i as int);
                assert forall|k: Seq<char>| k != key implies #[trigger] entry_for(vs@, k) == entry_for(old_vs, k) by {
                    lemma_entry_same(old_vs, vs@, k, i as int);
                }
            }
        }
    } else {
        proof {
            if i < n {
                lemma_seq_less_total(old_vs[i as int].version@, key);
            }
            lemma_insert_keeps_order(old_vs, i as int, v);
        }
        vs.insert(i, v);
    }
}

proof fn lemma_entry_same(before: Seq<PackageVersion>, after: Seq<PackageVersion>, k: Seq<char>, i: int)
    requires
        versions_sorted(before),
        versions_sorted(after),
        before.len() == after.len(),
        0 <= i < before.len(),
        before[i].version@ == after[i].version@,
        before[i].version@ != k,
        forall|j: int| 0 <= j < before.len() && j != i ==> before[j] == after[j],
    ensures
        entry_for(after, k) == entry_for(before, k),
{
    if exists|w: int| 0 <= w < before.len() && (#[trigger] before[w]).version@ == k {
        let w = choose|w: int| 0 <= w < before.len() && (#[trigger] before[w]).version@ == k;
        lemma_entry_at(before, w);
        lemma_entry_at(after, w);
    } else {
        assert forall|w: int| 0 <= w < after.len() implies (#[trigger] after[w]).version@ != k by {
            if w != i {
                assert(after[w] == before[w]);
            }
        }
    }
}

/// A known vulnerability of a package.
#[derive(Debug, Clone)]
pub struct PackageAdvisory {
    pub id: String,
    pub aliases: Vec<String>,
    pub fixed_versions: Vec<String>,
}

/// A dependency named by a dependency file; `version` only for exact pins.
#[derive(Debug, Clone)]
pub struct DependencySpec {
    pub name: String,
    pub version: Option<String>,
}

/// The ecosystem names that the vulnerability database knows.
#[derive(Debug, Clone, Copy, PartialEq, Eq, Structural)]
pub enum RegistryEcosystem {
    Npm,
    CratesIo,
    PyPI,
}

impl RegistryEcosystem {
    pub open spec fn osv_name_spec(self) -> Seq<char> {
        match self {
            RegistryEcosystem::Npm => "npm"@,
            RegistryEcosystem::CratesIo => "crates.io"@,
            RegistryEcosystem::PyPI => "PyPI"@,
        }
    }

    pub fn osv_name(self) -> (r: &'static str)
        ensures
            r@ == self.osv_name_spec(),
    {
        match self {
            RegistryEcosystem::Npm => "npm",
            RegistryEcosystem::CratesIo => "crates.io",
            RegistryEcosystem::PyPI => "PyPI",
        }
    }
}

/// Failure of a registry or advisory lookup.
#[derive(Debug, Clone)]
pub enum RegistryError {
    NotFound { registry: String, package: String },
    Transport { message: String },
    InvalidResponse { message: String },
}

/// Failure to locate or read a dependency file.
#[derive(Debug, Clone)]
pub enum LockfileError {
    CurrentDirectory { message: String },
    InvalidInputPath { path: String },
    InputPathDoesNotExist { path: String },
    UnsupportedFile { file_name: String, expected: String },
    NoSupportedDependencyFile { expected: String, path: String },
    ReadFile { path: String, message: String },
    ParseFile { path: String, message: String },
}

/// Thresholds of the staleness check.
#[derive(Debug, Clone)]
pub struct StalenessPolicy {
    pub warn_major_versions_behind: u64,
    pub warn_minor_versions_behind: u64,
    pub warn_age_days: i64,
    pub ignore_for: Vec<String>,
}

/// The part of the configuration that checks read.
#[derive(Debug, Clone)]
pub struct CheckPolicy {
    pub min_version_age_days: i64,
    pub min_weekly_downloads: u64,
    pub staleness: StalenessPolicy,
}

} // verus!
