//! Policy configuration: its defaults, how a configuration file's values
//! are merged in, and which checks are switched on for a registry.
use vstd::prelude::*;
use crate::model::{CheckPolicy, Severity, StalenessPolicy};
use crate::text::{
    chars_of, eq_str, lower_chars, lower_spec, string_of, trim_chars, trim_spec,
};

verus! {

pub const DEFAULT_MIN_VERSION_AGE_DAYS: i64 = 7;
pub const DEFAULT_MIN_WEEKLY_DOWNLOADS: u64 = 50;
pub const DEFAULT_WARN_MAJOR_VERSIONS_BEHIND: u64 = 2;
pub const DEFAULT_WARN_MINOR_VERSIONS_BEHIND: u64 = 3;
pub const DEFAULT_WARN_AGE_DAYS: i64 = 365;
pub const DEFAULT_CACHE_TTL_MINUTES: u64 = 30;

pub open spec fn dash_to_underscore(c: char) -> char {
    if c == '-' {
        '_'
    } else {
        c
    }
}

/// A check id as configuration compares it: trimmed, lowercase, with `_`
/// for `-`.
pub open spec fn normalize_check_id_spec(s: Seq<char>) -> Seq<char> {
    lower_spec(trim_spec(s)).map_values(|c: char| dash_to_underscore(c))
}

pub fn normalize_check_id(raw: &str) -> (r: String)
    ensures
        r@ == normalize_check_id_spec(raw@),
{
    let cs = chars_of(raw);
    let t = trim_chars(cs.as_slice());
    let l = lower_chars(t.as_slice());
    let mut out: Vec<char> = Vec::new();
    let mut i: usize = 0;
    while i < l.len()
        invariant
            i <= l@.len(),
            l@ == lower_spec(trim_spec(raw@)),
            out@ == l@.take(i as int).map_values(|c: char| dash_to_underscore(c)),
        decreases l@.len() - i,
    {
        let c = l[i];
        out.push(if c == '-' {
            '_'
        } else {
            c
        });
        i = i + 1;
        assert(out@ =~= l@.take(i as int).map_values(|c: char| dash_to_underscore(c)));
    }
    assert(l@.take(i as int) =~= l@);
    string_of(out.as_slice())
}

/// A registry key as configuration compares it: ASCII lowercase.
pub fn normalize_registry_key(raw: &str) -> (r: String)
    ensures
        r@ == lower_spec(raw@),
{
    let cs = chars_of(raw);
    let l = lower_chars(cs.as_slice());
    string_of(l.as_slice())
}

/// `fallback` in place of zero.
pub fn sanitize_positive_u64(value: u64, fallback: u64) -> (r: u64)
    ensures
        r == if value == 0 {
            fallback
        } else {
            value
        },
{
    if value == 0 {
        fallback
    } else {
        value
    }
}

/// `fallback` in place of zero or a negative value.
pub fn sanitize_positive_i64(value: i64, fallback: i64) -> (r: i64)
    ensures
        r == if value <= 0 {
            fallback
        } else {
            value
        },
{
    if value <= 0 {
        fallback
    } else {
        value
    }
}

pub open spec fn strings_view(v: Seq<String>) -> Seq<Seq<char>> {
    v.map_values(|s: String| s@)
}

/// `acc` followed by each of `values` that is not already there.
pub open spec fn append_unique_spec(acc: Seq<Seq<char>>, values: Seq<Seq<char>>) -> Seq<Seq<char>>
    decreases values.len(),
{
    if values.len() == 0 {
        acc
    } else {
        let a = append_unique_spec(acc, values.drop_last());
        if a.contains(values.last()) {
            a
        } else {
            a.push(values.last())
        }
    }
}

fn contains_string(v: &Vec<String>, s: &str) -> (r: bool)
    ensures
        r == strings_view(v@).contains(s@),
{
    let mut i: usize = 0;
    while i < v.len()
        invariant
            i <= v@.len(),
            forall|j: int| 0 <= j < i ==> (#[trigger] v@[j])@ != s@,
        decreases v@.len() - i,
    {
        if eq_str(v[i].as_str(), s) {
            assert(strings_view(v@)[i as int] == s@);
            return true;
        }
        i = i + 1;
    }
    assert(!strings_view(v@).contains(s@)) by {
        if strings_view(v@).contains(s@) {
            let k = choose|k: int| 0 <= k < strings_view(v@).len() && strings_view(v@)[k] == s@;
            assert(v@[k]@ == s@);
        }
    }
    false
}

/// Appends each of `values` that `target` does not hold yet.
pub fn append_unique(target: &mut Vec<String>, values: Vec<String>)
    ensures
        strings_view(final(target)@) == append_unique_spec(
            strings_view(old(target)@),
            strings_view(values@),
        ),
{
    let ghost start = strings_view(target@);
    let mut i: usize = 0;
    while i < values.len()
        invariant
            i <= values@.len(),
            strings_view(target@) == append_unique_spec(
                start,
                strings_view(values@.take(i as int)),
            ),
        decreases values@.len() - i,
    {
        let ghost vs = strings_view(values@.take(i + 1));
        assert(vs.drop_last() =~= strings_view(values@.take(i as int)));
        assert(vs.last() == values@[i as int]@);
        let present = contains_string(target, values[i].as_str());
        if !present {
            let ghost before = target@;
            target.push(values[i].clone());
            assert(strings_view(target@) =~= strings_view(before).push(values@[i as int]@));
        }
        i = i + 1;
    }
    assert(values@.take(i as int) =~= values@);
}

/// Package rules in `name` or `name@version` form that allow a package.
#[derive(Debug, Clone)]
pub struct AllowlistConfig {
    pub packages: Vec<String>,
}

/// Package rules and publisher names that deny a package.
#[derive(Debug, Clone)]
pub struct DenylistConfig {
    pub packages: Vec<String>,
    pub publishers: Vec<String>,
}

/// Thresholds of the staleness check.
#[derive(Debug, Clone)]
pub struct StalenessConfig {
    pub warn_major_versions_behind: u64,
    pub warn_minor_versions_behind: u64,
    pub warn_age_days: i64,
    pub ignore_for: Vec<String>,
}

/// How long a decision stays cached.
#[derive(Debug, Clone)]
pub struct CacheConfig {
    pub ttl_minutes: u64,
}

/// Checks switched off for one registry.
#[derive(Debug, Clone)]
pub struct RegistryChecksConfig {
    pub disable: Vec<String>,
}

/// Per-registry check toggles, keyed by registry key; each key at most once.
#[derive(Debug, Clone)]
pub struct RegistryToggles {
    pub entries: Vec<(String, RegistryChecksConfig)>,
}

/// Index of the first entry at or after `start` with key `key`.
pub open spec fn index_from(entries: Seq<(String, RegistryChecksConfig)>, key: Seq<char>, start: int) -> Option<int>
    decreases entries.len() - start,
{
    if start < 0 || start >= entries.len() {
        None
    } else if entries[start].0@ == key {
        Some(start)
    } else {
        index_from(entries, key, start + 1)
    }
}

/// Index of the entry with key `key`.
pub open spec fn toggle_index(entries: Seq<(String, RegistryChecksConfig)>, key: Seq<char>) -> Option<
    int,
> {
    index_from(entries, key, 0)
}

proof fn lemma_index_skip(entries: Seq<(String, RegistryChecksConfig)>, key: Seq<char>, i: int)
    requires
        0 <= i <= entries.len(),
        forall|j: int| 0 <= j < i ==> (#[trigger] entries[j]).0@ != key,
    ensures
        index_from(entries, key, 0) == index_from(entries, key, i),
    decreases i,
{
    if i > 0 {
        lemma_index_skip(entries, key, i - 1);
        assert(entries[i - 1].0@ != key);
    }
}

proof fn lemma_index_some(entries: Seq<(String, RegistryChecksConfig)>, key: Seq<char>, start: int)
    requires
        0 <= start,
        index_from(entries, key, start) is Some,
    ensures
        start <= index_from(entries, key, start).unwrap() < entries.len(),
        entries[index_from(entries, key, start).unwrap()].0@ == key,
    decreases entries.len() - start,
{
    if start < entries.len() && entries[start].0@ != key {
        lemma_index_some(entries, key, start + 1);
    }
}

proof fn lemma_index_none(entries: Seq<(String, RegistryChecksConfig)>, key: Seq<char>, start: int)
    requires
        0 <= start <= entries.len(),
        index_from(entries, key, start) is None,
    ensures
        forall|j: int| start <= j < entries.len() ==> (#[trigger] entries[j]).0@ != key,
    decreases entries.len() - start,
{
    if start < entries.len() {
        lemma_index_none(entries, key, start + 1);
    }
}

proof fn lemma_index_agree(
    before: Seq<(String, RegistryChecksConfig)>,
    after: Seq<(String, RegistryChecksConfig)>,
    key: Seq<char>,
    start: int,
)
    requires
        0 <= start,
        before.len() <= after.len(),
        forall|j: int| start <= j < before.len() ==> ((#[trigger] before[j]).0@ == key) == (after[j].0@ == key),
        forall|j: int| before.len() <= j < after.len() && start <= j ==> (#[trigger] after[j]).0@ != key,
    ensures
        index_from(before, key, start) == index_from(after, key, start),
    decreases after.len() - start,
{
    if start < after.len() {
        lemma_index_agree(before, after, key, start + 1);
        if start < before.len() {
            assert((before[start].0@ == key) == (after[start].0@ == key));
        } else {
            assert(after[start].0@ != key);
        }
    }
}

impl RegistryToggles {
    pub open spec fn well_formed(&self) -> bool {
        forall|i: int, j: int|
            0 <= i < j < self.entries.len() ==> (#[trigger] self.entries[i]).0@ != (
            #[trigger] self.entries[j]).0@
    }

    /// Disabled check ids of registry `key`, empty when it has no entry.
    pub open spec fn disabled_for(&self, key: Seq<char>) -> Seq<Seq<char>> {
        match toggle_index(self.entries@, key) {
            Some(i) => strings_view(self.entries@[i].1.disable@),
            None => seq![],
        }
    }

    pub fn new() -> (r: RegistryToggles)
        ensures
            r.entries@.len() == 0,
    {
        RegistryToggles { entries: Vec::new() }
    }

    /// Position of `key` among the entries.
    pub fn position(&self, key: &str) -> (r: Option<usize>)
        ensures
            match r {
                Some(i) => i < self.entries@.len() && self.entries@[i as int].0@ == key@,
                None => toggle_index(self.entries@, key@) is None && forall|j: int|
                    0 <= j < self.entries@.len() ==> (#[trigger] self.entries@[j]).0@ != key@,
            },
    {
        let mut i: usize = 0;
        while i < self.entries.len()
            invariant
                i <= self.entries@.len(),
                forall|j: int| 0 <= j < i ==> (#[trigger] self.entries@[j]).0@ != key@,
            decreases self.entries@.len() - i,
        {
            if eq_str(self.entries[i].0.as_str(), key) {
                return Some(i);
            }
            i = i + 1;
        }
        proof {
            lemma_index_skip(self.entries@, key@, i as int);
        }
        None
    }

    /// Sets the toggles of registry `key`, replacing an earlier entry.
    pub fn insert(&mut self, key: String, value: RegistryChecksConfig)
        requires
            old(self).well_formed(),
        ensures
            final(self).well_formed(),
            final(self).disabled_for(key@) == strings_view(value.disable@),
            forall|k: Seq<char>|
                k != key@ ==> final(self).disabled_for(k) == old(self).disabled_for(k),
    {
        let ghost k0 = key@;
        let ghost v0 = strings_view(value.disable@);
        let ghost before = self.entries@;
        match self.position(key.as_str()) {
            Some(i) => {
                self.entries.set(i, (key, value));
                proof {
                    assert(self.well_formed()) by {
                        assert forall|a: int, b: int|
                            0 <= a < b < self.entries.len() implies (#[trigger] self.entries[a]).0@ != (
                            #[trigger] self.entries[b]).0@ by {
                            if a != i as int && b != i as int {
                                assert(before[a] == self.entries@[a] && before[b] == self.entries@[b]);
                            } else if a == i as int {
                                assert(before[b] == self.entries@[b]);
                                assert(before[a].0@ != before[b].0@);
                            } else {
                                assert(before[a] == self.entries@[a]);
                                assert(before[a].0@ != before[b].0@);
                            }
                        }
                    }
                    lemma_toggle_index_unique(self.entries@, k0, i as int);
                    assert forall|k: Seq<char>| k != k0 implies self.disabled_for(k)
                        == old(self).disabled_for(k) by {
                        lemma_index_agree(before, self.entries@, k, 0);
                        if toggle_index(before, k) is Some {
                            lemma_index_some(before, k, 0);
                            let j = toggle_index(before, k).unwrap();
                            assert(j != i as int);
                            assert(before[j] == self.entries@[j]);
                        }
                    }
                }
            },
            None => {
                self.entries.push((key, value));
                proof {
                    assert(self.well_formed()) by {
                        assert forall|a: int, b: int|
                            0 <= a < b < self.entries.len() implies (#[trigger] self.entries[a]).0@ != (
                            #[trigger] self.entries[b]).0@ by {
                            assert(self.entries@[a] == before[a] || a == before.len());
                            if b < before.len() {
                                assert(before[a] == self.entries@[a] && before[b] == self.entries@[b]);
                            } else {
                                assert(before[a] == self.entries@[a]);
                                assert(before[a].0@ != k0);
                            }
                        }
                    }
                    lemma_toggle_index_unique(self.entries@, k0, (self.entries@.len() - 1) as int);
                    assert forall|k: Seq<char>| k != k0 implies self.disabled_for(k)
                        == old(self).disabled_for(k) by {
                        lemma_index_agree(before, self.entries@, k, 0);
                        if toggle_index(before, k) is Some {
                            lemma_index_some(before, k, 0);
                            let j = toggle_index(before, k).unwrap();
                            assert(before[j] == self.entries@[j]);
                        }
                    }
                }
            },
        }
    }

    /// Disabled check ids of registry `key`.
    pub fn get(&self, key: &str) -> (r: Option<&RegistryChecksConfig>)
        requires
            self.well_formed(),
        ensures
            match toggle_index(self.entries@, key@) {
                Some(i) => r is Some && *r.unwrap() == self.entries@[i].1,
                None => r is None,
            },
    {
        match self.position(key) {
            Some(i) => {
                proof {
                    lemma_toggle_index_unique(self.entries@, key@, i as int);
                }
                Some(&self.entries[i].1)
            },
            None => None,
        }
    }
}

proof fn lemma_toggle_index_unique(entries: Seq<(String, RegistryChecksConfig)>, key: Seq<char>, i: int)
    requires
        0 <= i < entries.len(),
        entries[i].0@ == key,
        forall|a: int, b: int|
            0 <= a < b < entries.len() ==> (#[trigger] entries[a]).0@ != (#[trigger] entries[b]).0@,
    ensures
        toggle_index(entries, key) == Some(i),
{
    assert forall|j: int| 0 <= j < i implies (#[trigger] entries[j]).0@ != key by {
        assert(entries[j].0@ != entries[i].0@);
    }
    lemma_index_skip(entries, key, i);
}

/// Global and per-registry check switches.
#[derive(Debug, Clone)]
pub struct ChecksConfig {
    pub disable: Vec<String>,
    pub registry: RegistryToggles,
}

impl Default for ChecksConfig {
    fn default() -> (r: ChecksConfig)
        ensures
            r.disable@.len() == 0,
            r.registry.entries@.len() == 0,
    {
        ChecksConfig { disable: Vec::new(), registry: RegistryToggles::new() }
    }
}

/// Some id among `ids` normalizes to `normalized`.
pub open spec fn lists_check(ids: Seq<Seq<char>>, normalized: Seq<char>) -> bool {
    exists|i: int| 0 <= i < ids.len() && normalize_check_id_spec(#[trigger] ids[i]) == normalized
}

pub open spec fn strs_view(v: Seq<&str>) -> Seq<Seq<char>> {
    v.map_values(|s: &str| s@)
}

fn lists_check_exec(ids: &Vec<String>, normalized: &str) -> (r: bool)
    ensures
        r == lists_check(strings_view(ids@), normalized@),
{
    let mut i: usize = 0;
    while i < ids.len()
        invariant
            i <= ids@.len(),
            forall|j: int|
                0 <= j < i ==> normalize_check_id_spec((#[trigger] ids@[j])@) != normalized@,
        decreases ids@.len() - i,
    {
        let n = normalize_check_id(ids[i].as_str());
        if eq_str(n.as_str(), normalized) {
            assert(strings_view(ids@)[i as int] == ids@[i as int]@);
            return true;
        }
        i = i + 1;
    }
    assert(!lists_check(strings_view(ids@), normalized@)) by {
        if lists_check(strings_view(ids@), normalized@) {
            let k = choose|k: int|
                0 <= k < strings_view(ids@).len() && normalize_check_id_spec(
                    #[trigger] strings_view(ids@)[k],
                ) == normalized@;
            assert(strings_view(ids@)[k] == ids@[k]@);
        }
    }
    false
}

fn lists_check_strs(ids: &[&str], normalized: &str) -> (r: bool)
    ensures
        r == lists_check(strs_view(ids@), normalized@),
{
    let mut i: usize = 0;
    while i < ids.len()
        invariant
            i <= ids@.len(),
            forall|j: int|
                0 <= j < i ==> normalize_check_id_spec((#[trigger] ids@[j])@) != normalized@,
        decreases ids@.len() - i,
    {
        let n = normalize_check_id(ids[i]);
        if eq_str(n.as_str(), normalized) {
            assert(strs_view(ids@)[i as int] == ids@[i as int]@);
            return true;
        }
        i = i + 1;
    }
    assert(!lists_check(strs_view(ids@), normalized@)) by {
        if lists_check(strs_view(ids@), normalized@) {
            let k = choose|k: int|
                0 <= k < strs_view(ids@).len() && normalize_check_id_spec(
                    #[trigger] strs_view(ids@)[k],
                ) == normalized@;
            assert(strs_view(ids@)[k] == ids@[k]@);
        }
    }
    false
}

impl ChecksConfig {
    /// A check runs on a registry when the registry supports it and neither
    /// the global nor the registry's own disable list names it; ids are
    /// compared after normalization, registry keys in lowercase.
    pub open spec fn enabled_spec(
        &self,
        registry_key: Seq<char>,
        check: Seq<char>,
        supported: Seq<Seq<char>>,
    ) -> bool {
        let n = normalize_check_id_spec(check);
        lists_check(supported, n) && !lists_check(strings_view(self.disable@), n) && !lists_check(
            self.registry.disabled_for(lower_spec(registry_key)),
            n,
        )
    }

    pub fn is_enabled_for_registry(
        &self,
        registry_key: &str,
        check: &str,
        supported_checks: &[&str],
    ) -> (r: bool)
        requires
            self.registry.well_formed(),
        ensures
            r == self.enabled_spec(registry_key@, check@, strs_view(supported_checks@)),
    {
        let normalized = normalize_check_id(check);
        if !lists_check_strs(supported_checks, normalized.as_str()) {
            return false;
        }
        if lists_check_exec(&self.disable, normalized.as_str()) {
            return false;
        }
        let key = normalize_registry_key(registry_key);
        match self.registry.get(key.as_str()) {
            Some(entry) => !lists_check_exec(&entry.disable, normalized.as_str()),
            None => {
                assert(!lists_check(seq![], normalized@));
                true
            },
        }
    }
}

/// The whole policy configuration.
#[derive(Debug, Clone)]
pub struct SafePkgsConfig {
    pub min_version_age_days: i64,
    pub min_weekly_downloads: u64,
    pub max_risk: Severity,
    pub allowlist: AllowlistConfig,
    pub denylist: DenylistConfig,
    pub staleness: StalenessConfig,
    pub checks: ChecksConfig,
    pub cache: CacheConfig,
}

impl SafePkgsConfig {
    pub open spec fn well_formed(&self) -> bool {
        self.checks.registry.well_formed()
    }

    /// The values that hold when no configuration file says otherwise.
    pub open spec fn is_default(&self) -> bool {
        &&& self.min_version_age_days == DEFAULT_MIN_VERSION_AGE_DAYS
        &&& self.min_weekly_downloads == DEFAULT_MIN_WEEKLY_DOWNLOADS
        &&& self.max_risk == Severity::Medium
        &&& self.allowlist.packages@.len() == 0
        &&& self.denylist.packages@.len() == 0
        &&& self.denylist.publishers@.len() == 0
        &&& self.staleness.warn_major_versions_behind == DEFAULT_WARN_MAJOR_VERSIONS_BEHIND
        &&& self.staleness.warn_minor_versions_behind == DEFAULT_WARN_MINOR_VERSIONS_BEHIND
        &&& self.staleness.warn_age_days == DEFAULT_WARN_AGE_DAYS
        &&& self.staleness.ignore_for@.len() == 0
        &&& self.checks.disable@.len() == 0
        &&& self.checks.registry.entries@.len() == 0
        &&& self.cache.ttl_minutes == DEFAULT_CACHE_TTL_MINUTES
    }
}

impl Default for SafePkgsConfig {
    fn default() -> (r: SafePkgsConfig)
        ensures
            r.is_default(),
            r.well_formed(),
    {
        SafePkgsConfig {
            min_version_age_days: DEFAULT_MIN_VERSION_AGE_DAYS,
            min_weekly_downloads: DEFAULT_MIN_WEEKLY_DOWNLOADS,
            max_risk: Severity::Medium,
            allowlist: AllowlistConfig { packages: Vec::new() },
            denylist: DenylistConfig { packages: Vec::new(), publishers: Vec::new() },
            staleness: StalenessConfig {
                warn_major_versions_behind: DEFAULT_WARN_MAJOR_VERSIONS_BEHIND,
                warn_minor_versions_behind: DEFAULT_WARN_MINOR_VERSIONS_BEHIND,
                warn_age_days: DEFAULT_WARN_AGE_DAYS,
                ignore_for: Vec::new(),
            },
            checks: ChecksConfig::default(),
            cache: CacheConfig { ttl_minutes: DEFAULT_CACHE_TTL_MINUTES },
        }
    }
}

fn copy_strings(v: &Vec<String>) -> (r: Vec<String>)
    ensures
        strings_view(r@) == strings_view(v@),
{
    let mut out: Vec<String> = Vec::new();
    let mut i: usize = 0;
    while i < v.len()
        invariant
            i <= v@.len(),
            strings_view(out@) == strings_view(v@.take(i as int)),
        decreases v@.len() - i,
    {
        let ghost before = out@;
        out.push(v[i].clone());
        assert(v@.take(i + 1) =~= v@.take(i as int).push(v@[i as int]));
        assert(strings_view(out@) =~= strings_view(before).push(v@[i as int]@));
        i = i + 1;
        assert(strings_view(out@) =~= strings_view(v@.take(i as int)));
    }
    assert(v@.take(i as int) =~= v@);
    out
}

/// The policy view that checks read.
pub fn check_policy_from_config(config: &SafePkgsConfig) -> (r: CheckPolicy)
    ensures
        r.min_version_age_days == config.min_version_age_days,
        r.min_weekly_downloads == config.min_weekly_downloads,
        r.staleness.warn_major_versions_behind == config.staleness.warn_major_versions_behind,
        r.staleness.warn_minor_versions_behind == config.staleness.warn_minor_versions_behind,
        r.staleness.warn_age_days == config.staleness.warn_age_days,
        strings_view(r.staleness.ignore_for@) == strings_view(config.staleness.ignore_for@),
{
    CheckPolicy {
        min_version_age_days: config.min_version_age_days,
        min_weekly_downloads: config.min_weekly_downloads,
        staleness: StalenessPolicy {
            warn_major_versions_behind: config.staleness.warn_major_versions_behind,
            warn_minor_versions_behind: config.staleness.warn_minor_versions_behind,
            warn_age_days: config.staleness.warn_age_days,
            ignore_for: copy_strings(&config.staleness.ignore_for),
        },
    }
}

impl RegistryToggles {
    /// Adds `values` to the disable list of registry `key` (created empty
    /// when missing), skipping ids already listed.
    pub fn merge_disable(&mut self, key: String, values: Vec<String>)
        requires
            old(self).well_formed(),
        ensures
            final(self).well_formed(),
            final(self).disabled_for(key@) == append_unique_spec(
                old(self).disabled_for(key@),
                strings_view(values@),
            ),
            forall|k: Seq<char>|
                k != key@ ==> #[trigger] final(self).disabled_for(k) == old(self).disabled_for(k),
    {
        let mut current: Vec<String> = match self.get(key.as_str()) {
            Some(entry) => copy_strings(&entry.disable),
            None => Vec::new(),
        };
        proof {
            if toggle_index(self.entries@, key@) is None {
                assert(strings_view(current@) =~= seq![]);
            }
        }
        append_unique(&mut current, values);
        self.insert(key, RegistryChecksConfig { disable: current });
    }
}

/// Values of one configuration file; `None` leaves a setting as it is.
pub struct ConfigOverlay {
    pub min_version_age_days: Option<i64>,
    pub min_weekly_downloads: Option<u64>,
    pub max_risk: Option<Severity>,
    pub allowlist: Option<AllowlistConfig>,
    pub denylist: Option<DenylistConfig>,
    pub staleness: Option<StalenessOverlay>,
    pub checks: Option<ChecksOverlay>,
    pub cache_ttl_minutes: Option<u64>,
}

/// Staleness settings of one configuration file.
pub struct StalenessOverlay {
    pub warn_major_versions_behind: Option<u64>,
    pub warn_minor_versions_behind: Option<u64>,
    pub warn_age_days: Option<i64>,
    pub ignore_for: Option<Vec<String>>,
}

/// Check switches of one configuration file.
pub struct ChecksOverlay {
    pub disable: Option<Vec<String>>,
    pub registry: Vec<(String, Option<Vec<String>>)>,
}

pub open spec fn list_or_empty(v: Option<Vec<String>>) -> Seq<Seq<char>> {
    match v {
        Some(l) => strings_view(l@),
        None => seq![],
    }
}

fn take_list(v: Option<Vec<String>>) -> (r: Vec<String>)
    ensures
        strings_view(r@) == list_or_empty(v),
{
    match v {
        Some(l) => l,
        None => {
            let e: Vec<String> = Vec::new();
            assert(strings_view(e@) =~= seq![]);
            e
        },
    }
}

/// The disable list of registry `key` after merging `entries` in order:
/// each entry whose lowercased key is `key` appends its ids.
pub open spec fn merged_disabled(
    start: Seq<Seq<char>>,
    entries: Seq<(String, Option<Vec<String>>)>,
    key: Seq<char>,
) -> Seq<Seq<char>>
    decreases entries.len(),
{
    if entries.len() == 0 {
        start
    } else {
        let acc = merged_disabled(start, entries.drop_last(), key);
        if lower_spec(entries.last().0@) == key {
            append_unique_spec(acc, list_or_empty(entries.last().1))
        } else {
            acc
        }
    }
}

/// Merges per-registry disable lists, keys lowercased.
pub fn merge_registry_overlay(toggles: &mut RegistryToggles, entries: Vec<(String, Option<Vec<String>>)>)
    requires
        old(toggles).well_formed(),
    ensures
        final(toggles).well_formed(),
        forall|k: Seq<char>|
            #[trigger] final(toggles).disabled_for(k) == merged_disabled(
                old(toggles).disabled_for(k),
                entries@,
                k,
            ),
{
    let ghost orig = *toggles;
    let n = entries.len();
    let mut i: usize = 0;
    while i < n
        invariant
            toggles.well_formed(),
            n == entries@.len(),
            i <= n,
            forall|k: Seq<char>|
                #[trigger] toggles.disabled_for(k) == merged_disabled(
                    orig.disabled_for(k),
                    entries@.take(i as int),
                    k,
                ),
        decreases n - i,
    {
        let key = normalize_registry_key(entries[i].0.as_str());
        let values = match &entries[i].1 {
            Some(l) => copy_strings(l),
            None => {
                let e: Vec<String> = Vec::new();
                assert(strings_view(e@) =~= seq![]);
                e
            },
        };
        let ghost before = *toggles;
        let ghost kk = key@;
        toggles.merge_disable(key, values);
        proof {
            let t = entries@.take(i + 1);
            assert(t.drop_last() =~= entries@.take(i as int));
            assert(t.last() == entries@[i as int]);
            assert forall|k: Seq<char>| #[trigger] toggles.disabled_for(k) == merged_disabled(
                orig.disabled_for(k),
                t,
                k,
            ) by {
                if k == kk {
                } else {
                    assert(toggles.disabled_for(k) == before.disabled_for(k));
                }
            }
        }
        i = i + 1;
    }
    assert(entries@.take(n as int) =~= entries@);
}

impl SafePkgsConfig {
    /// Merges a configuration file over this configuration: scalars it
    /// sets replace ours (zero or negative thresholds fall back to their
    /// defaults), lists are appended without repeats, registry keys of
    /// check toggles are lowercased.
    pub fn apply_overlay(&mut self, overlay: ConfigOverlay)
        requires
            old(self).well_formed(),
        ensures
            final(self).well_formed(),
            final(self).min_version_age_days == match overlay.min_version_age_days {
                Some(v) => if v <= 0 { DEFAULT_MIN_VERSION_AGE_DAYS } else { v },
                None => old(self).min_version_age_days,
            },
            final(self).min_weekly_downloads == match overlay.min_weekly_downloads {
                Some(v) => if v == 0 { DEFAULT_MIN_WEEKLY_DOWNLOADS } else { v },
                None => old(self).min_weekly_downloads,
            },
            final(self).max_risk == match overlay.max_risk {
                Some(v) => v,
                None => old(self).max_risk,
            },
            strings_view(final(self).allowlist.packages@) == match overlay.allowlist {
                Some(a) => append_unique_spec(strings_view(old(self).allowlist.packages@), strings_view(a.packages@)),
                None => strings_view(old(self).allowlist.packages@),
            },
            strings_view(final(self).denylist.packages@) == match overlay.denylist {
                Some(d) => append_unique_spec(strings_view(old(self).denylist.packages@), strings_view(d.packages@)),
                None => strings_view(old(self).denylist.packages@),
            },
            strings_view(final(self).denylist.publishers@) == match overlay.denylist {
                Some(d) => append_unique_spec(strings_view(old(self).denylist.publishers@), strings_view(d.publishers@)),
                None => strings_view(old(self).denylist.publishers@),
            },
            final(self).staleness.warn_major_versions_behind == match overlay.staleness {
                Some(st) => match st.warn_major_versions_behind {
                    Some(v) => if v == 0 { DEFAULT_WARN_MAJOR_VERSIONS_BEHIND } else { v },
                    None => old(self).staleness.warn_major_versions_behind,
                },
                None => old(self).staleness.warn_major_versions_behind,
            },
            final(self).staleness.warn_minor_versions_behind == match overlay.staleness {
                Some(st) => match st.warn_minor_versions_behind {
                    Some(v) => if v == 0 { DEFAULT_WARN_MINOR_VERSIONS_BEHIND } else { v },
                    None => old(self).staleness.warn_minor_versions_behind,
                },
                None => old(self).staleness.warn_minor_versions_behind,
            },
            final(self).staleness.warn_age_days == match overlay.staleness {
                Some(st) => match st.warn_age_days {
                    Some(v) => if v <= 0 { DEFAULT_WARN_AGE_DAYS } else { v },
                    None => old(self).staleness.warn_age_days,
                },
                None => old(self).staleness.warn_age_days,
            },
            strings_view(final(self).staleness.ignore_for@) == match overlay.staleness {
                Some(st) => append_unique_spec(strings_view(old(self).staleness.ignore_for@), list_or_empty(st.ignore_for)),
                None => strings_view(old(self).staleness.ignore_for@),
            },
            strings_view(final(self).checks.disable@) == match overlay.checks {
                Some(c) => append_unique_spec(strings_view(old(self).checks.disable@), list_or_empty(c.disable)),
                None => strings_view(old(self).checks.disable@),
            },
            forall|k: Seq<char>|
                #[trigger] final(self).checks.registry.disabled_for(k) == match overlay.checks {
                    Some(c) => merged_disabled(old(self).checks.registry.disabled_for(k), c.registry@, k),
                    None => old(self).checks.registry.disabled_for(k),
                },
            final(self).cache.ttl_minutes == match overlay.cache_ttl_minutes {
                Some(v) => if v == 0 { DEFAULT_CACHE_TTL_MINUTES } else { v },
                None => old(self).cache.ttl_minutes,
            },
    {
        let ConfigOverlay {
            min_version_age_days,
            min_weekly_downloads,
            max_risk,
            allowlist,
            denylist,
            staleness,
            checks,
            cache_ttl_minutes,
        } = overlay;
        if let Some(v) = min_version_age_days {
            self.min_version_age_days = sanitize_positive_i64(v, DEFAULT_MIN_VERSION_AGE_DAYS);
        }
        if let Some(v) = min_weekly_downloads {
            self.min_weekly_downloads = sanitize_positive_u64(v, DEFAULT_MIN_WEEKLY_DOWNLOADS);
        }
        if let Some(v) = max_risk {
            self.max_risk = v;
        }
        if let Some(a) = allowlist {
            append_unique(&mut self.allowlist.packages, a.packages);
        }
        if let Some(d) = denylist {
            append_unique(&mut self.denylist.packages, d.packages);
            append_unique(&mut self.denylist.publishers, d.publishers);
        }
        if let Some(st) = staleness {
            if let Some(v) = st.warn_major_versions_behind {
                self.staleness.warn_major_versions_behind = sanitize_positive_u64(v, DEFAULT_WARN_MAJOR_VERSIONS_BEHIND);
            }
            if let Some(v) = st.warn_minor_versions_behind {
                self.staleness.warn_minor_versions_behind = sanitize_positive_u64(v, DEFAULT_WARN_MINOR_VERSIONS_BEHIND);
            }
            if let Some(v) = st.warn_age_days {
                self.staleness.warn_age_days = sanitize_positive_i64(v, DEFAULT_WARN_AGE_DAYS);
            }
            append_unique(&mut self.staleness.ignore_for, take_list(st.ignore_for));
        }
        if let Some(c) = checks {
            let ChecksOverlay { disable, registry } = c;
            append_unique(&mut self.checks.disable, take_list(disable));
            merge_registry_overlay(&mut self.checks.registry, registry);
        }
        if let Some(v) = cache_ttl_minutes {
            self.cache.ttl_minutes = sanitize_positive_u64(v, DEFAULT_CACHE_TTL_MINUTES);
        }
    }
}

} // verus!
