//! Dependency files: the name and version rules of each ecosystem, and the
//! merge of the dependencies a file lists into one set.
use vstd::prelude::*;
use crate::model::{DependencySpec, opt_view};
use crate::text::{
    ascii_lower, chars_of, chars_range, contains_spec, is_white_space, eq_chars, has_char, has_char_exec,
    is_ascii_alnum, lower_chars, lower_spec, occurs_at, occurs_at_exec, starts_with_spec,
    string_of, trim_chars, trim_spec,
};

verus! {

// ---------------------------------------------------------------------------
// Names and versions

pub open spec fn is_crate_char(c: char) -> bool {
    is_ascii_alnum(c) || c == '-' || c == '_'
}

pub open spec fn is_npm_char(c: char) -> bool {
    is_ascii_alnum(c) || c == '-' || c == '_' || c == '.'
}

pub open spec fn all_chars(s: Seq<char>, kind: int) -> bool {
    forall|i: int|
        0 <= i < s.len() ==> if kind == 0 {
            is_crate_char(#[trigger] s[i])
        } else {
            is_npm_char(s[i])
        }
}

fn all_chars_exec(s: &[char], kind: u8) -> (r: bool)
    requires
        kind <= 1,
    ensures
        r == all_chars(s@, kind as int),
{
    let mut i: usize = 0;
    while i < s.len()
        invariant
            kind <= 1,
            i <= s@.len(),
            forall|j: int|
                0 <= j < i ==> if kind == 0 {
                    is_crate_char(#[trigger] s@[j])
                } else {
                    is_npm_char(s@[j])
                },
        decreases s@.len() - i,
    {
        let c = s[i];
        let alnum = ('a' <= c && c <= 'z') || ('A' <= c && c <= 'Z') || ('0' <= c && c <= '9');
        let ok = if kind == 0 {
            alnum || c == '-' || c == '_'
        } else {
            alnum || c == '-' || c == '_' || c == '.'
        };
        if !ok {
            return false;
        }
        i = i + 1;
    }
    true
}

/// A crate name: trimmed, nonempty, of ASCII letters, digits, `-` and `_`.
pub open spec fn crate_name_spec(raw: Seq<char>) -> Option<Seq<char>> {
    let t = trim_spec(raw);
    if t.len() > 0 && all_chars(t, 0) {
        Some(t)
    } else {
        None
    }
}

pub fn normalize_crate_name(raw: &str) -> (r: Option<String>)
    ensures
        opt_view(r) == crate_name_spec(raw@),
{
    let cs = chars_of(raw);
    let t = trim_chars(cs.as_slice());
    if t.len() > 0 && all_chars_exec(t.as_slice(), 0) {
        Some(string_of(t.as_slice()))
    } else {
        None
    }
}

/// A locked Cargo version: trimmed, nonempty, without spaces.
pub open spec fn cargo_exact_spec(raw: Seq<char>) -> Option<Seq<char>> {
    let t = trim_spec(raw);
    if t.len() > 0 && !has_char(t, ' ') {
        Some(t)
    } else {
        None
    }
}

pub fn normalize_cargo_exact_version(raw: &str) -> (r: Option<String>)
    ensures
        opt_view(r) == cargo_exact_spec(raw@),
{
    let cs = chars_of(raw);
    let t = trim_chars(cs.as_slice());
    if t.len() > 0 && !has_char_exec(t.as_slice(), ' ') {
        Some(string_of(t.as_slice()))
    } else {
        None
    }
}

pub open spec fn has_any(s: Seq<char>, set: Seq<char>) -> bool {
    exists|i: int| 0 <= i < set.len() && has_char(s, #[trigger] set[i])
}

fn has_any_exec(s: &[char], set: &[char]) -> (r: bool)
    ensures
        r == has_any(s@, set@),
{
    let mut i: usize = 0;
    while i < set.len()
        invariant
            i <= set@.len(),
            forall|j: int| 0 <= j < i ==> !has_char(s@, #[trigger] set@[j]),
        decreases set@.len() - i,
    {
        if has_char_exec(s, set[i]) {
            return true;
        }
        i = i + 1;
    }
    false
}

fn has_any_str(s: &[char], set: &str) -> (r: bool)
    ensures
        r == has_any(s@, set@),
{
    let cs = chars_of(set);
    has_any_exec(s, cs.as_slice())
}

pub open spec fn strip_one(s: Seq<char>, c: char) -> Seq<char> {
    if s.len() > 0 && s[0] == c {
        s.drop_first()
    } else {
        s
    }
}

/// A Cargo manifest requirement kept only when it pins one version:
/// `1.2.3` or `=1.2.3`, no wildcard, range, caret or tilde.
pub open spec fn cargo_manifest_spec(raw: Seq<char>) -> Option<Seq<char>> {
    let t = trim_spec(raw);
    if t.len() == 0 || t == "*"@ {
        None
    } else {
        let exact = trim_spec(strip_one(t, '='));
        if exact.len() == 0 || has_any(exact, "* ^~<>,|"@) {
            None
        } else {
            Some(exact)
        }
    }
}

fn strip_one_exec(s: &[char], c: char) -> (r: Vec<char>)
    ensures
        r@ == strip_one(s@, c),
{
    if s.len() > 0 && s[0] == c {
        let n = s.len();
        let v = chars_range(s, 1, n);
        assert(v@ =~= s@.drop_first());
        v
    } else {
        let n = s.len();
        let v = chars_range(s, 0, n);
        assert(v@ =~= s@);
        v
    }
}

fn is_star(t: &[char]) -> (r: bool)
    ensures
        r == (t@ == "*"@),
{
    proof {
        reveal_strlit("*");
    }
    let star = chars_of("*");
    eq_chars(t, star.as_slice())
}

pub fn normalize_cargo_manifest_version(raw: &str) -> (r: Option<String>)
    ensures
        opt_view(r) == cargo_manifest_spec(raw@),
{
    let cs = chars_of(raw);
    let t = trim_chars(cs.as_slice());
    if t.len() == 0 || is_star(t.as_slice()) {
        return None;
    }
    let stripped = strip_one_exec(t.as_slice(), '=');
    let exact = trim_chars(stripped.as_slice());
    if exact.len() == 0 || has_any_str(exact.as_slice(), "* ^~<>,|") {
        return None;
    }
    Some(string_of(exact.as_slice()))
}

/// A Cargo.lock source that is the crates.io registry.
pub open spec fn crates_io_source_spec(raw: Option<Seq<char>>) -> bool {
    match raw {
        None => false,
        Some(v) => {
            let t = trim_spec(v);
            starts_with_spec(t, "registry+"@) && (contains_spec(t, "crates.io"@) || contains_spec(
                t,
                "index.crates.io"@,
            ))
        },
    }
}

pub fn is_crates_io_source(raw: Option<&str>) -> (r: bool)
    ensures
        r == crates_io_source_spec(crate::model::opt_str_view(raw)),
{
    match raw {
        None => false,
        Some(v) => {
            let t = crate::text::trim_string(v);
            crate::text::starts_with_str(t.as_str(), "registry+") && (crate::text::contains_str(
                t.as_str(),
                "crates.io",
            ) || crate::text::contains_str(t.as_str(), "index.crates.io"))
        },
    }
}

/// One segment of an npm name: trimmed, not `.` or `..`, of ASCII letters,
/// digits, `-`, `_` and `.`; lowercased.
pub open spec fn npm_segment_spec(raw: Seq<char>) -> Option<Seq<char>> {
    let t = trim_spec(raw);
    if t.len() == 0 || t == "."@ || t == ".."@ || !all_chars(t, 1) {
        None
    } else {
        Some(lower_spec(t))
    }
}

fn is_dots(t: &[char]) -> (r: bool)
    ensures
        r == (t@ == "."@ || t@ == ".."@),
{
    proof {
        reveal_strlit(".");
        reveal_strlit("..");
    }
    let one = chars_of(".");
    let two = chars_of("..");
    eq_chars(t, one.as_slice()) || eq_chars(t, two.as_slice())
}

fn npm_segment_chars(raw: &[char]) -> (r: Option<Vec<char>>)
    ensures
        match r {
            Some(v) => npm_segment_spec(raw@) == Some(v@),
            None => npm_segment_spec(raw@) is None,
        },
{
    let t = trim_chars(raw);
    if t.len() == 0 || is_dots(t.as_slice()) || !all_chars_exec(t.as_slice(), 1) {
        return None;
    }
    Some(lower_chars(t.as_slice()))
}

pub fn normalize_npm_name_segment(raw: &str) -> (r: Option<String>)
    ensures
        opt_view(r) == npm_segment_spec(raw@),
{
    let cs = chars_of(raw);
    match npm_segment_chars(cs.as_slice()) {
        Some(v) => Some(string_of(v.as_slice())),
        None => None,
    }
}

/// An npm package name: a plain segment, or `@scope/name` with two
/// segments; no backslash anywhere, no other `/`.
pub open spec fn npm_name_spec(raw: Seq<char>) -> Option<Seq<char>> {
    let t = trim_spec(raw);
    if t.len() == 0 || has_char(t, '\\') {
        None
    } else if t[0] == '@' {
        match crate::text::first_index_of(t, '/') {
            None => None,
            Some(k) => {
                let scope = t.take(k);
                let name = t.skip(k + 1);
                if scope.len() <= 1 || name.len() == 0 || has_char(name, '/') {
                    None
                } else {
                    match (npm_segment_spec(scope.drop_first()), npm_segment_spec(name)) {
                        (Some(s), Some(n)) => Some(seq!['@'] + s + seq!['/'] + n),
                        _ => None,
                    }
                }
            },
        }
    } else if has_char(t, '/') {
        None
    } else {
        npm_segment_spec(t)
    }
}

fn npm_name_chars(raw: &[char]) -> (r: Option<Vec<char>>)
    ensures
        match r {
            Some(v) => npm_name_spec(raw@) == Some(v@),
            None => npm_name_spec(raw@) is None,
        },
{
    let t = trim_chars(raw);
    if t.len() == 0 || has_char_exec(t.as_slice(), '\\') {
        return None;
    }
    if t[0] == '@' {
        let k = match crate::text::first_index_exec(t.as_slice(), '/') {
            None => return None,
            Some(k) => k,
        };
        let n = t.len();
        let scope = chars_range(t.as_slice(), 0, k);
        let name = chars_range(t.as_slice(), k + 1, n);
        assert(scope@ =~= t@.take(k as int));
        assert(name@ =~= t@.skip(k + 1));
        if scope.len() <= 1 || name.len() == 0 || has_char_exec(name.as_slice(), '/') {
            return None;
        }
        let scope_tail = chars_range(scope.as_slice(), 1, scope.len());
        assert(scope_tail@ =~= scope@.drop_first());
        let s = match npm_segment_chars(scope_tail.as_slice()) {
            None => return None,
            Some(s) => s,
        };
        let m = match npm_segment_chars(name.as_slice()) {
            None => return None,
            Some(m) => m,
        };
        let mut out: Vec<char> = Vec::new();
        out.push('@');
        let mut i: usize = 0;
        while i < s.len()
            invariant
                i <= s@.len(),
                out@ == seq!['@'] + s@.take(i as int),
            decreases s@.len() - i,
        {
            out.push(s[i]);
            i = i + 1;
            assert(out@ =~= seq!['@'] + s@.take(i as int));
        }
        out.push('/');
        let mut j: usize = 0;
        assert(s@.take(i as int) =~= s@);
        while j < m.len()
            invariant
                j <= m@.len(),
                out@ == seq!['@'] + s@ + seq!['/'] + m@.take(j as int),
            decreases m@.len() - j,
        {
            out.push(m[j]);
            j = j + 1;
            assert(out@ =~= seq!['@'] + s@ + seq!['/'] + m@.take(j as int));
        }
        assert(m@.take(j as int) =~= m@);
        return Some(out);
    }
    if has_char_exec(t.as_slice(), '/') {
        return None;
    }
    npm_segment_chars(t.as_slice())
}

pub fn normalize_npm_package_name(raw: &str) -> (r: Option<String>)
    ensures
        opt_view(r) == npm_name_spec(raw@),
{
    let cs = chars_of(raw);
    match npm_name_chars(cs.as_slice()) {
        Some(v) => Some(string_of(v.as_slice())),
        None => None,
    }
}

/// Start of the last occurrence of `pat` in `s`.
pub open spec fn last_occurrence(s: Seq<char>, pat: Seq<char>) -> Option<int> {
    if exists|i: int| occurs_at(s, pat, i) {
        Some(choose|i: int| occurs_at(s, pat, i) && forall|j: int| i < j ==> !occurs_at(s, pat, j))
    } else {
        None
    }
}

/// The package that a `node_modules/...` path in package-lock.json names:
/// what follows the last `node_modules/`, read as an npm name.
pub open spec fn node_modules_name_spec(path: Seq<char>) -> Option<Seq<char>> {
    match last_occurrence(path, "node_modules/"@) {
        None => None,
        Some(k) => {
            let rest = path.skip(k + "node_modules/"@.len());
            if rest.len() == 0 {
                None
            } else {
                npm_name_spec(rest)
            }
        },
    }
}

pub fn extract_package_name_from_node_modules_path(node_path: &str) -> (r: Option<String>)
    ensures
        opt_view(r) == node_modules_name_spec(node_path@),
{
    let s = chars_of(node_path);
    proof {
        reveal_strlit("node_modules/");
    }
    let marker = chars_of("node_modules/");
    let n = s.len();
    let m = marker.len();
    if m > n {
        assert forall|j: int| !occurs_at(s@, marker@, j) by {}
        return None;
    }
    let mut i: usize = n - m + 1;
    while i > 0
        invariant
            m <= n,
            n == s@.len(),
            m == marker@.len(),
            i <= n - m + 1,
            s@ == node_path@,
            marker@ == "node_modules/"@,
            forall|j: int| i <= j ==> !occurs_at(s@, marker@, j),
        decreases i,
    {
        if occurs_at_exec(s.as_slice(), marker.as_slice(), i - 1) {
            let k = i - 1;
            proof {
                let c = choose|c: int| occurs_at(s@, marker@, c) && forall|j: int| c < j ==> !occurs_at(s@, marker@, j);
                assert(occurs_at(s@, marker@, c) && forall|j: int| c < j ==> !occurs_at(s@, marker@, j));
                if c < k {
                    assert(!occurs_at(s@, marker@, k as int));
                }
                assert(c == k);
            }
            let rest = chars_range(s.as_slice(), k + m, n);
            assert(rest@ =~= s@.skip(k + m));
            if rest.len() == 0 {
                return None;
            }
            return match npm_name_chars(rest.as_slice()) {
                Some(v) => Some(string_of(v.as_slice())),
                None => None,
            };
        }
        i = i - 1;
    }
    None
}

/// PEP 503: lowercase, each run of `-`, `_`, `.` becomes one `-`.
pub open spec fn collapse_spec(s: Seq<char>) -> Seq<char>
    decreases s.len(),
{
    if s.len() == 0 {
        seq![]
    } else {
        let r = collapse_spec(s.drop_last());
        let c = s.last();
        if is_ascii_alnum(c) {
            r.push(ascii_lower(c))
        } else if r.len() > 0 && r.last() == '-' {
            r
        } else {
            r.push('-')
        }
    }
}

pub open spec fn strip_dashes_start(s: Seq<char>) -> Seq<char>
    decreases s.len(),
{
    if s.len() > 0 && s[0] == '-' {
        strip_dashes_start(s.drop_first())
    } else {
        s
    }
}

pub open spec fn strip_dashes_end(s: Seq<char>) -> Seq<char>
    decreases s.len(),
{
    if s.len() > 0 && s.last() == '-' {
        strip_dashes_end(s.drop_last())
    } else {
        s
    }
}

/// Part of `s` before the first `c`, or all of it.
pub open spec fn before_first(s: Seq<char>, c: char) -> Seq<char> {
    match crate::text::first_index_of(s, c) {
        Some(k) => s.take(k),
        None => s,
    }
}

/// A PyPI project name normalized per PEP 503, without extras; names with
/// path separators or other characters are refused.
pub open spec fn python_name_spec(raw: Seq<char>) -> Option<Seq<char>> {
    let t = trim_spec(before_first(raw, '['));
    if t.len() == 0 || has_char(t, '/') || has_char(t, '\\') || !all_chars(t, 1) {
        None
    } else {
        let n = strip_dashes_end(strip_dashes_start(collapse_spec(t)));
        if n.len() == 0 {
            None
        } else {
            Some(n)
        }
    }
}

fn before_first_exec(s: &[char], c: char) -> (r: Vec<char>)
    ensures
        r@ == before_first(s@, c),
{
    let n = s.len();
    match crate::text::first_index_exec(s, c) {
        Some(k) => chars_range(s, 0, k),
        None => {
            let v = chars_range(s, 0, n);
            assert(v@ =~= s@);
            v
        },
    }
}

fn collapse_exec(t: &[char]) -> (r: Vec<char>)
    ensures
        r@ == collapse_spec(t@),
{
    let mut out: Vec<char> = Vec::new();
    let mut i: usize = 0;
    while i < t.len()
        invariant
            i <= t@.len(),
            out@ == collapse_spec(t@.take(i as int)),
        decreases t@.len() - i,
    {
        assert(t@.take(i + 1).drop_last() =~= t@.take(i as int));
        assert(t@.take(i + 1).last() == t@[i as int]);
        let c = t[i];
        if ('a' <= c && c <= 'z') || ('A' <= c && c <= 'Z') || ('0' <= c && c <= '9') {
            out.push(crate::text::lower_char(c));
        } else if out.len() > 0 && out[out.len() - 1] == '-' {
        } else {
            out.push('-');
        }
        i = i + 1;
    }
    assert(t@.take(i as int) =~= t@);
    out
}

proof fn lemma_strip_start(s: Seq<char>, k: int)
    requires
        0 <= k <= s.len(),
        forall|j: int| 0 <= j < k ==> s[j] == '-',
    ensures
        strip_dashes_start(s) == strip_dashes_start(s.skip(k)),
    decreases k,
{
    if k > 0 {
        lemma_strip_start(s.drop_first(), k - 1);
        assert(s.drop_first().skip(k - 1) =~= s.skip(k));
    } else {
        assert(s.skip(0) =~= s);
    }
}

proof fn lemma_strip_end(s: Seq<char>, k: int)
    requires
        0 <= k <= s.len(),
        forall|j: int| k <= j < s.len() ==> s[j] == '-',
    ensures
        strip_dashes_end(s) == strip_dashes_end(s.take(k)),
    decreases s.len() - k,
{
    if k < s.len() {
        lemma_strip_end(s.drop_last(), k);
        assert(s.drop_last().take(k) =~= s.take(k));
    } else {
        assert(s.take(k) =~= s);
    }
}

fn strip_dashes_exec(s: &[char]) -> (r: Vec<char>)
    ensures
        r@ == strip_dashes_end(strip_dashes_start(s@)),
{
    let n = s.len();
    let mut a: usize = 0;
    while a < n && s[a] == '-'
        invariant
            a <= n,
            n == s@.len(),
            forall|j: int| 0 <= j < a ==> s@[j] == '-',
        decreases n - a,
    {
        a = a + 1;
    }
    proof {
        lemma_strip_start(s@, a as int);
    }
    let rest = chars_range(s, a, n);
    assert(rest@ =~= s@.skip(a as int));
    assert(strip_dashes_start(rest@) == rest@);
    let mut b: usize = rest.len();
    while b > 0 && rest[b - 1] == '-'
        invariant
            b <= rest@.len(),
            forall|j: int| b <= j < rest@.len() ==> rest@[j] == '-',
        decreases b,
    {
        b = b - 1;
    }
    proof {
        lemma_strip_end(rest@, b as int);
    }
    let out = chars_range(rest.as_slice(), 0, b);
    assert(out@ =~= rest@.take(b as int));
    assert(strip_dashes_end(out@) == out@);
    out
}

pub fn normalize_python_package_name(raw: &str) -> (r: Option<String>)
    ensures
        opt_view(r) == python_name_spec(raw@),
{
    let cs = chars_of(raw);
    let without_extras = before_first_exec(cs.as_slice(), '[');
    let t = trim_chars(without_extras.as_slice());
    if t.len() == 0 || has_char_exec(t.as_slice(), '/') || has_char_exec(t.as_slice(), '\\')
        || !all_chars_exec(t.as_slice(), 1) {
        return None;
    }
    let collapsed = collapse_exec(t.as_slice());
    let n = strip_dashes_exec(collapsed.as_slice());
    if n.len() == 0 {
        return None;
    }
    Some(string_of(n.as_slice()))
}

/// A `==` pin of a requirement: what precedes the first `,`, trimmed,
/// with no wildcard, space, marker or range character.
pub open spec fn python_exact_spec(raw: Seq<char>) -> Option<Seq<char>> {
    let t = trim_spec(before_first(raw, ','));
    if t.len() == 0 || has_any(t, "* ;<>~!^"@) {
        None
    } else {
        Some(t)
    }
}

fn python_exact_chars(raw: &[char]) -> (r: Option<Vec<char>>)
    ensures
        match r {
            Some(v) => python_exact_spec(raw@) == Some(v@),
            None => python_exact_spec(raw@) is None,
        },
{
    let head = before_first_exec(raw, ',');
    let t = trim_chars(head.as_slice());
    if t.len() == 0 || has_any_str(t.as_slice(), "* ;<>~!^") {
        return None;
    }
    Some(t)
}

pub fn normalize_python_exact_version(raw: &str) -> (r: Option<String>)
    ensures
        opt_view(r) == python_exact_spec(raw@),
{
    let cs = chars_of(raw);
    match python_exact_chars(cs.as_slice()) {
        Some(v) => Some(string_of(v.as_slice())),
        None => None,
    }
}

/// A Poetry requirement kept only when it pins one version: `1.2.3`,
/// `=1.2.3` or `==1.2.3`.
pub open spec fn poetry_exact_spec(raw: Seq<char>) -> Option<Seq<char>> {
    let t = trim_spec(raw);
    if t.len() == 0 || t == "*"@ {
        None
    } else if starts_with_spec(t, "=="@) {
        python_exact_spec(t.skip(2))
    } else if starts_with_spec(t, "="@) {
        python_exact_spec(t.skip(1))
    } else if has_any(t, ",|<>~!^*"@) {
        None
    } else {
        Some(t)
    }
}

pub fn normalize_poetry_exact_version(raw: &str) -> (r: Option<String>)
    ensures
        opt_view(r) == poetry_exact_spec(raw@),
{
    let cs = chars_of(raw);
    let t = trim_chars(cs.as_slice());
    if t.len() == 0 || is_star(t.as_slice()) {
        return None;
    }
    let eqeq = chars_of("==");
    let eq = chars_of("=");
    let n = t.len();
    if occurs_at_exec(t.as_slice(), eqeq.as_slice(), 0) {
        proof {
            reveal_strlit("==");
        }
        let rest = chars_range(t.as_slice(), 2, n);
        assert(rest@ =~= t@.skip(2));
        return match python_exact_chars(rest.as_slice()) {
            Some(v) => Some(string_of(v.as_slice())),
            None => None,
        };
    }
    if occurs_at_exec(t.as_slice(), eq.as_slice(), 0) {
        proof {
            reveal_strlit("=");
        }
        let rest = chars_range(t.as_slice(), 1, n);
        assert(rest@ =~= t@.skip(1));
        return match python_exact_chars(rest.as_slice()) {
            Some(v) => Some(string_of(v.as_slice())),
            None => None,
        };
    }
    if has_any_str(t.as_slice(), ",|<>~!^*") {
        return None;
    }
    Some(string_of(t.as_slice()))
}

// ---------------------------------------------------------------------------
// Merging

/// Dependencies of one file, each name once, in first-seen order.
pub struct DependencySet {
    pub specs: Vec<DependencySpec>,
}

pub open spec fn spec_index(specs: Seq<DependencySpec>, name: Seq<char>) -> Option<int> {
    if exists|i: int| 0 <= i < specs.len() && (#[trigger] specs[i]).name@ == name {
        Some(choose|i: int| 0 <= i < specs.len() && (#[trigger] specs[i]).name@ == name)
    } else {
        None
    }
}

impl DependencySet {
    pub open spec fn well_formed(&self) -> bool {
        forall|i: int, j: int|
            0 <= i < j < self.specs.len() ==> (#[trigger] self.specs[i]).name@ != (
            #[trigger] self.specs[j]).name@
    }

    /// The version recorded for `name`: `None` when the name is absent,
    /// `Some(None)` when it is listed without a pin.
    pub open spec fn version_of(&self, name: Seq<char>) -> Option<Option<Seq<char>>> {
        match spec_index(self.specs@, name) {
            Some(i) => Some(opt_view(self.specs@[i].version)),
            None => None,
        }
    }

    pub fn new() -> (r: DependencySet)
        ensures
            r.well_formed(),
            r.specs@.len() == 0,
    {
        DependencySet { specs: Vec::new() }
    }

    fn position(&self, name: &str) -> (r: Option<usize>)
        requires
            self.well_formed(),
        ensures
            match r {
                Some(i) => i < self.specs@.len() && self.specs@[i as int].name@ == name@
                    && spec_index(self.specs@, name@) == Some(i as int),
                None => spec_index(self.specs@, name@) is None && forall|j: int|
                    0 <= j < self.specs@.len() ==> (#[trigger] self.specs@[j]).name@ != name@,
            },
    {
        let mut i: usize = 0;
        while i < self.specs.len()
            invariant
                self.well_formed(),
                i <= self.specs@.len(),
                forall|j: int| 0 <= j < i ==> (#[trigger] self.specs@[j]).name@ != name@,
            decreases self.specs@.len() - i,
        {
            if crate::text::eq_str(self.specs[i].name.as_str(), name) {
                proof {
                    let k = choose|k: int| 0 <= k < self.specs@.len() && (#[trigger] self.specs@[k]).name@ == name@;
                    assert(0 <= k < self.specs@.len() && self.specs@[k].name@ == name@);
                    if k < i as int {
                        assert(self.specs[k].name@ != self.specs[i as int].name@);
                    } else if k > i as int {
                        assert(self.specs[i as int].name@ != self.specs[k].name@);
                    }
                }
                return Some(i);
            }
            i = i + 1;
        }
        None
    }

    /// Adds a dependency; for a name already present, a pinned version
    /// replaces a missing one and nothing else changes.
    pub fn insert(&mut self, spec: DependencySpec)
        requires
            old(self).well_formed(),
        ensures
            final(self).well_formed(),
            final(self).version_of(spec.name@) == Some(
                match old(self).version_of(spec.name@) {
                    Some(Some(v)) => Some(v),
                    _ => opt_view(spec.version),
                },
            ),
            forall|n: Seq<char>|
                n != spec.name@ ==> #[trigger] final(self).version_of(n) == old(self).version_of(n),
    {
        let ghost before = self.specs@;
        let ghost key = spec.name@;
        let ghost newv = opt_view(spec.version);
        match self.position(spec.name.as_str()) {
            Some(i) => {
                if self.specs[i].version.is_none() && spec.version.is_some() {
                    let name = self.specs[i].name.clone();
                    self.specs.set(i, DependencySpec { name, version: spec.version });
                }
                proof {
                    assert(self.well_formed()) by {
                        assert forall|a: int, b: int| 0 <= a < b < self.specs.len() implies (
                        #[trigger] self.specs[a]).name@ != (#[trigger] self.specs[b]).name@ by {
                            assert(self.specs@[a].name@ == before[a].name@);
                            assert(self.specs@[b].name@ == before[b].name@);
                        }
                    }
                    assert(self.specs@[i as int].name@ == key);
                    lemma_spec_index_unique(self.specs@, key, i as int);
                    assert forall|n: Seq<char>| n != key implies #[trigger] self.version_of(n)
                        == old(self).version_of(n) by {
                        lemma_spec_index_same(before, self.specs@, n);
                    }
                }
            },
            None => {
                self.specs.push(spec);
                proof {
                    assert(self.well_formed()) by {
                        assert forall|a: int, b: int| 0 <= a < b < self.specs.len() implies (
                        #[trigger] self.specs[a]).name@ != (#[trigger] self.specs[b]).name@ by {
                            if b < before.len() {
                                assert(self.specs@[a] == before[a] && self.specs@[b] == before[b]);
                            } else {
                                assert(self.specs@[a] == before[a]);
                            }
                        }
                    }
                    lemma_spec_index_unique(self.specs@, key, (self.specs@.len() - 1) as int);
                    assert forall|n: Seq<char>| n != key implies #[trigger] self.version_of(n)
                        == old(self).version_of(n) by {
                        lemma_spec_index_same(before, self.specs@, n);
                    }
                }
            },
        }
    }

    /// The recorded version of `name`.
    pub fn get(&self, name: &str) -> (r: Option<&Option<String>>)
        requires
            self.well_formed(),
        ensures
            match self.version_of(name@) {
                Some(v) => r is Some && opt_view(*r.unwrap()) == v,
                None => r is None,
            },
    {
        match self.position(name) {
            Some(i) => Some(&self.specs[i].version),
            None => None,
        }
    }

    pub fn into_vec(self) -> (r: Vec<DependencySpec>)
        ensures
            r@ == self.specs@,
    {
        self.specs
    }
}

proof fn lemma_spec_index_unique(specs: Seq<DependencySpec>, name: Seq<char>, i: int)
    requires
        0 <= i < specs.len(),
        specs[i].name@ == name,
        forall|a: int, b: int|
            0 <= a < b < specs.len() ==> (#[trigger] specs[a]).name@ != (#[trigger] specs[b]).name@,
    ensures
        spec_index(specs, name) == Some(i),
{
    let k = choose|k: int| 0 <= k < specs.len() && (#[trigger] specs[k]).name@ == name;
    assert(0 <= k < specs.len() && specs[k].name@ == name);
    if k < i {
        assert(specs[k].name@ != specs[i].name@);
    } else if k > i {
        assert(specs[i].name@ != specs[k].name@);
    }
}

proof fn lemma_spec_index_same(before: Seq<DependencySpec>, after: Seq<DependencySpec>, name: Seq<char>)
    requires
        before.len() <= after.len(),
        forall|a: int, b: int|
            0 <= a < b < before.len() ==> (#[trigger] before[a]).name@ != (#[trigger] before[b]).name@,
        forall|a: int, b: int|
            0 <= a < b < after.len() ==> (#[trigger] after[a]).name@ != (#[trigger] after[b]).name@,
        forall|j: int| 0 <= j < before.len() ==> (#[trigger] after[j]).name@ == before[j].name@,
        forall|j: int|
            0 <= j < before.len() && before[j].name@ == name ==> #[trigger] after[j] == before[j],
        forall|j: int| before.len() <= j < after.len() ==> (#[trigger] after[j]).name@ != name,
    ensures
        match spec_index(before, name) {
            Some(i) => spec_index(after, name) == Some(i) && after[i] == before[i],
            None => spec_index(after, name) is None,
        },
{
    if exists|i: int| 0 <= i < before.len() && (#[trigger] before[i]).name@ == name {
        let i = choose|i: int| 0 <= i < before.len() && (#[trigger] before[i]).name@ == name;
        lemma_spec_index_unique(before, name, i);
        assert(after[i].name@ == name);
        lemma_spec_index_unique(after, name, i);
    } else {
        if exists|i: int| 0 <= i < after.len() && (#[trigger] after[i]).name@ == name {
            let i = choose|i: int| 0 <= i < after.len() && (#[trigger] after[i]).name@ == name;
            if i < before.len() {
                assert(before[i].name@ == name);
            }
        }
    }
}

/// Adds a dependency to a set (see `DependencySet::insert`).
pub fn insert_dependency_spec(dependencies: &mut DependencySet, spec: DependencySpec)
    requires
        old(dependencies).well_formed(),
    ensures
        final(dependencies).well_formed(),
        final(dependencies).version_of(spec.name@) == Some(
            match old(dependencies).version_of(spec.name@) {
                Some(Some(v)) => Some(v),
                _ => opt_view(spec.version),
            },
        ),
        forall|n: Seq<char>|
            n != spec.name@ ==> #[trigger] final(dependencies).version_of(n) == old(
                dependencies,
            ).version_of(n),
{
    dependencies.insert(spec);
}

// ---------------------------------------------------------------------------
// requirements.txt lines

/// Start of the first occurrence of `pat` in `s`.
pub open spec fn first_occurrence(s: Seq<char>, pat: Seq<char>) -> Option<int> {
    if exists|i: int| occurs_at(s, pat, i) {
        Some(choose|i: int| occurs_at(s, pat, i) && forall|j: int| j < i ==> !occurs_at(s, pat, j))
    } else {
        None
    }
}

fn first_occurrence_exec(s: &[char], pat: &str) -> (r: Option<usize>)
    ensures
        match r {
            Some(i) => first_occurrence(s@, pat@) == Some(i as int) && i + pat@.len() <= s@.len(),
            None => first_occurrence(s@, pat@) is None,
        },
{
    let p = chars_of(pat);
    if p.len() > s.len() {
        assert forall|j: int| !occurs_at(s@, p@, j) by {}
        return None;
    }
    if p.len() == 0 {
        assert(s@.subrange(0, 0) =~= p@);
        assert(occurs_at(s@, p@, 0));
        proof {
            let c = choose|c: int| occurs_at(s@, p@, c) && forall|j: int| j < c ==> !occurs_at(s@, p@, j);
            assert(occurs_at(s@, p@, c) && forall|j: int| j < c ==> !occurs_at(s@, p@, j));
            if c > 0 {
                assert(!occurs_at(s@, p@, 0));
            }
        }
        return Some(0);
    }
    let last = s.len() - p.len();
    assert(last < usize::MAX);
    let mut i: usize = 0;
    while i <= last
        invariant
            p@ == pat@,
            0 < p@.len() <= s@.len(),
            last == s@.len() - p@.len(),
            last < usize::MAX,
            i <= last + 1,
            forall|j: int| j < i ==> !occurs_at(s@, p@, j),
        decreases last + 1 - i,
    {
        if occurs_at_exec(s, p.as_slice(), i) {
            proof {
                let c = choose|c: int| occurs_at(s@, p@, c) && forall|j: int| j < c ==> !occurs_at(s@, p@, j);
                assert(occurs_at(s@, p@, c) && forall|j: int| j < c ==> !occurs_at(s@, p@, j));
                if c > i {
                    assert(!occurs_at(s@, p@, i as int));
                }
            }
            return Some(i);
        }
        i = i + 1;
    }
    assert forall|j: int| !occurs_at(s@, p@, j) by {
        if j >= i {
        }
    }
    None
}

/// The first requirement operator that occurs in `s`, in the order
/// `===`, `==`, `~=`, `>=`, `<=`, `!=`, `<`, `>`, with its position.
pub open spec fn find_operator_from(s: Seq<char>, j: int) -> Option<(int, Seq<char>)>
    decreases 8 - j,
{
    if j < 0 || j >= 8 {
        None
    } else {
        match first_occurrence(s, operators()[j]) {
            Some(k) => Some((k, operators()[j])),
            None => find_operator_from(s, j + 1),
        }
    }
}

pub open spec fn find_operator(s: Seq<char>) -> Option<(int, Seq<char>)> {
    find_operator_from(s, 0)
}

/// One line of a requirements file: comments, options and blank lines give
/// nothing; `name @ url` gives an unpinned name; `name==v` (or `===`) gives
/// a pin; other operators give an unpinned name.
pub open spec fn requirement_spec(line: Seq<char>) -> Option<(Seq<char>, Option<Seq<char>>)> {
    let c0 = trim_spec(line);
    if c0.len() == 0 || c0[0] == '#' {
        None
    } else {
        let c1 = trim_spec(before_first(c0, ';'));
        let c2 = trim_spec(before_first(c1, '#'));
        if c2.len() == 0 || c2[0] == '-' {
            None
        } else {
            match first_occurrence(c2, " @ "@) {
                Some(k) => match python_name_spec(c2.take(k)) {
                    Some(n) => Some((n, None)),
                    None => None,
                },
                None => match find_operator(c2) {
                    Some((k, op)) => match python_name_spec(trim_spec(c2.take(k))) {
                        Some(n) => Some(
                            (
                                n,
                                if op == "=="@ || op == "==="@ {
                                    python_exact_spec(trim_spec(c2.skip(k + op.len())))
                                } else {
                                    None
                                },
                            ),
                        ),
                        None => None,
                    },
                    None => match python_name_spec(c2) {
                        Some(n) => Some((n, None)),
                        None => None,
                    },
                },
            }
        }
    }
}

pub open spec fn operators() -> Seq<Seq<char>> {
    seq!["==="@, "=="@, "~="@, ">="@, "<="@, "!="@, "<"@, ">"@]
}

proof fn lemma_operators()
    ensures
        operators()[0].len() == 3,
        operators()[1].len() == 2,
        forall|j: int| 2 <= j < 8 ==> operators()[j] != "=="@ && operators()[j] != "==="@,
        operators()[0] == "==="@,
        operators()[1] == "=="@,
{
    reveal_strlit("===");
    reveal_strlit("==");
    reveal_strlit("~=");
    reveal_strlit(">=");
    reveal_strlit("<=");
    reveal_strlit("!=");
    reveal_strlit("<");
    reveal_strlit(">");
    assert forall|j: int| 2 <= j < 8 implies operators()[j] != "=="@ && operators()[j] != "==="@ by {
        if j == 2 || j == 3 || j == 4 || j == 5 {
            assert(operators()[j][1] == '=');
            assert(operators()[j][0] != '=');
        } else {
            assert(operators()[j].len() == 1);
        }
    }
}

fn operator_text(j: usize) -> (r: &'static str)
    requires
        j < 8,
    ensures
        r@ == operators()[j as int],
{
    if j == 0 {
        "==="
    } else if j == 1 {
        "=="
    } else if j == 2 {
        "~="
    } else if j == 3 {
        ">="
    } else if j == 4 {
        "<="
    } else if j == 5 {
        "!="
    } else if j == 6 {
        "<"
    } else {
        ">"
    }
}

fn find_operator_exec(s: &[char]) -> (r: Option<(usize, usize)>)
    ensures
        match r {
            Some((k, j)) => j < 8 && find_operator(s@) == Some((k as int, operators()[j as int]))
                && k + operators()[j as int].len() <= s@.len(),
            None => find_operator(s@) is None,
        },
{
    let mut j: usize = 0;
    while j < 8
        invariant
            j <= 8,
            find_operator(s@) == find_operator_from(s@, j as int),
        decreases 8 - j,
    {
        match first_occurrence_exec(s, operator_text(j)) {
            Some(k) => {
                return Some((k, j));
            },
            None => {},
        }
        j = j + 1;
    }
    None
}

pub open spec fn spec_view(d: DependencySpec) -> (Seq<char>, Option<Seq<char>>) {
    (d.name@, opt_view(d.version))
}

fn python_name_chars(raw: &[char]) -> (r: Option<String>)
    ensures
        opt_view(r) == python_name_spec(raw@),
{
    let s = string_of(raw);
    normalize_python_package_name(s.as_str())
}

/// Reads one line of a requirements file.
pub fn parse_python_requirement_line(line: &str) -> (r: Option<DependencySpec>)
    ensures
        match r {
            Some(d) => requirement_spec(line@) == Some(spec_view(d)),
            None => requirement_spec(line@) is None,
        },
{
    let lc = chars_of(line);
    let c0 = trim_chars(lc.as_slice());
    if c0.len() == 0 || c0[0] == '#' {
        return None;
    }
    let b1 = before_first_exec(c0.as_slice(), ';');
    let c1 = trim_chars(b1.as_slice());
    let b2 = before_first_exec(c1.as_slice(), '#');
    let c2 = trim_chars(b2.as_slice());
    if c2.len() == 0 || c2[0] == '-' {
        return None;
    }
    let n2 = c2.len();
    match first_occurrence_exec(c2.as_slice(), " @ ") {
        Some(k) => {
            let head = chars_range(c2.as_slice(), 0, k);
            assert(head@ =~= c2@.take(k as int));
            return match python_name_chars(head.as_slice()) {
                Some(n) => Some(DependencySpec { name: n, version: None }),
                None => None,
            };
        },
        None => {},
    }
    match find_operator_exec(c2.as_slice()) {
        Some((k, j)) => {
            proof {
                lemma_operators();
            }
            let head = chars_range(c2.as_slice(), 0, k);
            assert(head@ =~= c2@.take(k as int));
            let th = trim_chars(head.as_slice());
            let name = match python_name_chars(th.as_slice()) {
                Some(n) => n,
                None => return None,
            };
            let version = if j == 0 || j == 1 {
                let oplen: usize = if j == 0 {
                    3
                } else {
                    2
                };
                let tail = chars_range(c2.as_slice(), k + oplen, n2);
                assert(tail@ =~= c2@.skip(k + oplen));
                let tt = trim_chars(tail.as_slice());
                match python_exact_chars(tt.as_slice()) {
                    Some(v) => Some(string_of(v.as_slice())),
                    None => None,
                }
            } else {
                None
            };
            return Some(DependencySpec { name, version });
        },
        None => {},
    }
    match python_name_chars(c2.as_slice()) {
        Some(n) => Some(DependencySpec { name: n, version: None }),
        None => None,
    }
}

// ---------------------------------------------------------------------------
// Files, as lists of what they declare

/// Names a result holds, each once.
pub open spec fn names_unique(r: Seq<DependencySpec>) -> bool {
    forall|i: int, j: int| 0 <= i < j < r.len() ==> (#[trigger] r[i]).name@ != (#[trigger] r[j]).name@
}

pub open spec fn has_name(r: Seq<DependencySpec>, name: Seq<char>) -> bool {
    exists|i: int| 0 <= i < r.len() && (#[trigger] r[i]).name@ == name
}

proof fn lemma_has_name_version_of(set: DependencySet, name: Seq<char>)
    requires
        has_name(set.specs@, name),
    ensures
        set.version_of(name) is Some,
{
}

proof fn lemma_version_of_has_name(set: DependencySet, name: Seq<char>)
    requires
        set.version_of(name) is Some,
    ensures
        has_name(set.specs@, name),
{
    let i = choose|i: int| 0 <= i < set.specs@.len() && (#[trigger] set.specs@[i]).name@ == name;
    assert(set.specs@[i].name@ == name);
}

/// The locked version an entry gives, if any.
pub open spec fn lock_version(e: CargoLockEntry) -> Option<Seq<char>> {
    match e.version {
        Some(v) => cargo_exact_spec(v@),
        None => None,
    }
}

/// One `[[package]]` of Cargo.lock.
pub struct CargoLockEntry {
    pub name: Option<String>,
    pub source: Option<String>,
    pub version: Option<String>,
}

pub open spec fn lock_entry_name(e: CargoLockEntry) -> Option<Seq<char>> {
    match e.name {
        Some(n) => if crates_io_source_spec(opt_view(e.source)) {
            crate_name_spec(n@)
        } else {
            None
        },
        None => None,
    }
}

/// The crates.io packages of a Cargo.lock, each name once; a locked
/// version is kept when it has no space.
pub fn collect_cargo_lock(entries: &Vec<CargoLockEntry>) -> (r: Vec<DependencySpec>)
    ensures
        names_unique(r@),
        forall|n: Seq<char>| #[trigger] has_name(r@, n) ==> exists|x: int| 0 <= x < entries@.len() && lock_entry_name(entries@[x]) == Some(n),
        forall|i: int|
            0 <= i < entries@.len() && lock_entry_name(#[trigger] entries@[i]) is Some ==> has_name(
                r@,
                lock_entry_name(entries@[i]).unwrap(),
            ),
        forall|k: int| 0 <= k < r@.len() && (#[trigger] r@[k]).version is Some ==> exists|x: int|
            0 <= x < entries@.len() && lock_entry_name(entries@[x]) == Some(r@[k].name@)
                && lock_version(entries@[x]) == opt_view(r@[k].version),
        forall|x: int| 0 <= x < entries@.len() && lock_entry_name(#[trigger] entries@[x]) is Some
            && lock_version(entries@[x]) is Some ==> exists|k: int| 0 <= k < r@.len()
                && r@[k].name@ == lock_entry_name(entries@[x]).unwrap() && r@[k].version is Some,
{
    let mut set = DependencySet::new();
    let mut i: usize = 0;
    while i < entries.len()
        invariant
            i <= entries@.len(),
            set.well_formed(),
            forall|n: Seq<char>| #[trigger] set.version_of(n) is Some ==> exists|x: int| 0 <= x < i && lock_entry_name(entries@[x]) == Some(n),
            forall|x: int|
                0 <= x < i && lock_entry_name(#[trigger] entries@[x]) is Some ==> set.version_of(
                    lock_entry_name(entries@[x]).unwrap(),
                ) is Some,
            forall|n: Seq<char>| #[trigger] pinned(set.version_of(n)) ==> exists|x: int| 0 <= x < i
                && lock_entry_name(entries@[x]) == Some(n) && Some(lock_version(entries@[x])) == set.version_of(n),
            forall|x: int| 0 <= x < i && lock_entry_name(#[trigger] entries@[x]) is Some
                && lock_version(entries@[x]) is Some ==> pinned(set.version_of(lock_entry_name(entries@[x]).unwrap())),
        decreases entries@.len() - i,
    {
        let e = &entries[i];
        let name = match &e.name {
            Some(n) => {
                let src = match &e.source {
                    Some(s) => Some(s.as_str()),
                    None => None,
                };
                if is_crates_io_source(src) {
                    normalize_crate_name(n.as_str())
                } else {
                    None
                }
            },
            None => None,
        };
        match name {
            Some(n) => {
                let version = match &e.version {
                    Some(v) => normalize_cargo_exact_version(v.as_str()),
                    None => None,
                };
                let ghost key = n@;
                let ghost before = set;
                assert(opt_view(version) == lock_version(entries@[i as int]));
                assert(lock_entry_name(entries@[i as int]) == Some(key));
                set.insert(DependencySpec { name: n, version });
                assert(set.version_of(key) is Some);
                proof {
                    assert forall|nn: Seq<char>| #[trigger] pinned(set.version_of(nn)) implies exists|x: int| 0 <= x < i + 1
                        && lock_entry_name(entries@[x]) == Some(nn) && Some(lock_version(entries@[x])) == set.version_of(nn) by {
                        if nn != key {
                            assert(set.version_of(nn) == before.version_of(nn));
                        }
                    }
                    assert forall|x: int| 0 <= x < i + 1 && lock_entry_name(#[trigger] entries@[x]) is Some
                        && lock_version(entries@[x]) is Some implies pinned(set.version_of(lock_entry_name(entries@[x]).unwrap())) by {
                        let nx = lock_entry_name(entries@[x]).unwrap();
                        if nx != key {
                            assert(set.version_of(nx) == before.version_of(nx));
                        }
                    }
                }
            },
            None => {},
        }
        i = i + 1;
    }
    proof {
        assert forall|k: int| 0 <= k < set.specs@.len() && (#[trigger] set.specs@[k]).version is Some implies exists|x: int|
            0 <= x < entries@.len() && lock_entry_name(entries@[x]) == Some(set.specs@[k].name@)
                && lock_version(entries@[x]) == opt_view(set.specs@[k].version) by {
            lemma_spec_index_unique(set.specs@, set.specs@[k].name@, k);
            assert(pinned(set.version_of(set.specs@[k].name@)));
        }
        assert forall|x: int| 0 <= x < entries@.len() && lock_entry_name(#[trigger] entries@[x]) is Some
            && lock_version(entries@[x]) is Some implies exists|k: int| 0 <= k < set.specs@.len()
                && set.specs@[k].name@ == lock_entry_name(entries@[x]).unwrap() && set.specs@[k].version is Some by {
            let nx = lock_entry_name(entries@[x]).unwrap();
            assert(pinned(set.version_of(nx)));
            let w = choose|w: int| 0 <= w < set.specs@.len() && (#[trigger] set.specs@[w]).name@ == nx;
            lemma_spec_index_unique(set.specs@, nx, w);
        }
        assert forall|n: Seq<char>| #[trigger] has_name(set.specs@, n) implies exists|x: int| 0 <= x < entries@.len() && lock_entry_name(entries@[x]) == Some(n) by {
            lemma_has_name_version_of(set, n);
        }
        assert forall|x: int|
            0 <= x < entries@.len() && lock_entry_name(#[trigger] entries@[x]) is Some implies has_name(
            set.specs@,
            lock_entry_name(entries@[x]).unwrap(),
        ) by {
            lemma_version_of_has_name(set, lock_entry_name(entries@[x]).unwrap());
        }
    }
    set.into_vec()
}

/// How Cargo.toml declares one dependency.
pub enum ManifestDependency {
    Version(String),
    Detailed {
        package: Option<String>,
        version: Option<String>,
        path: bool,
        git: bool,
        workspace: Option<bool>,
        registry: Option<String>,
    },
    Other,
}

/// A dependency that crates.io serves: no path or git source, not
/// inherited from the workspace, and no registry other than `crates-io`.
pub open spec fn from_crates_io(path: bool, git: bool, workspace: Option<bool>, registry: Option<Seq<char>>) -> bool {
    !path && !git && workspace != Some(true) && match registry {
        Some(r) => lower_spec(r) == "crates-io"@,
        None => true,
    }
}

pub open spec fn manifest_name(declared: Seq<char>, d: ManifestDependency) -> Option<Seq<char>> {
    match d {
        ManifestDependency::Version(_) => crate_name_spec(declared),
        ManifestDependency::Detailed { package, version, path, git, workspace, registry } => {
            if !from_crates_io(path, git, workspace, opt_view(registry)) {
                None
            } else {
                match package {
                    Some(p) => match crate_name_spec(p@) {
                        Some(n) => Some(n),
                        None => crate_name_spec(declared),
                    },
                    None => crate_name_spec(declared),
                }
            }
        },
        ManifestDependency::Other => None,
    }
}

fn is_crates_io_registry(registry: &Option<String>) -> (r: bool)
    ensures
        r == match opt_view(*registry) {
            Some(x) => lower_spec(x) == "crates-io"@,
            None => true,
        },
{
    match registry {
        Some(x) => {
            let cs = chars_of(x.as_str());
            let l = lower_chars(cs.as_slice());
            let target = chars_of("crates-io");
            eq_chars(l.as_slice(), target.as_slice())
        },
        None => true,
    }
}

/// The pinned version a Cargo.toml entry gives, if any.
pub open spec fn manifest_version(d: ManifestDependency) -> Option<Seq<char>> {
    match d {
        ManifestDependency::Version(v) => cargo_manifest_spec(v@),
        ManifestDependency::Detailed { package, version, path, git, workspace, registry } => match version {
            Some(v) => cargo_manifest_spec(v@),
            None => None,
        },
        ManifestDependency::Other => None,
    }
}

pub open spec fn pinned(o: Option<Option<Seq<char>>>) -> bool {
    match o {
        Some(Some(_)) => true,
        _ => false,
    }
}

fn manifest_entry(declared: &str, d: &ManifestDependency) -> (r: Option<DependencySpec>)
    ensures
        match r {
            Some(spec) => manifest_name(declared@, *d) == Some(spec.name@) && opt_view(spec.version) == manifest_version(*d),
            None => manifest_name(declared@, *d) is None,
        },
{
    match d {
        ManifestDependency::Version(v) => match normalize_crate_name(declared) {
            Some(n) => Some(DependencySpec { name: n, version: normalize_cargo_manifest_version(v.as_str()) }),
            None => None,
        },
        ManifestDependency::Detailed { package, version, path, git, workspace, registry } => {
            let ws = match workspace {
                Some(b) => *b,
                None => false,
            };
            if *path || *git || ws || !is_crates_io_registry(registry) {
                return None;
            }
            let from_package = match package {
                Some(p) => normalize_crate_name(p.as_str()),
                None => None,
            };
            let name = match from_package {
                Some(n) => Some(n),
                None => normalize_crate_name(declared),
            };
            match name {
                Some(n) => {
                    let v = match version {
                        Some(x) => normalize_cargo_manifest_version(x.as_str()),
                        None => None,
                    };
                    Some(DependencySpec { name: n, version: v })
                },
                None => None,
            }
        },
        ManifestDependency::Other => None,
    }
}

/// The crates.io dependencies that a Cargo.toml declares (all sections
/// flattened into `entries`), each name once.
pub fn collect_cargo_manifest(entries: &Vec<(String, ManifestDependency)>) -> (r: Vec<DependencySpec>)
    ensures
        names_unique(r@),
        forall|n: Seq<char>| #[trigger] has_name(r@, n) ==> exists|x: int| 0 <= x < entries@.len() && manifest_name(entries@[x].0@, entries@[x].1) == Some(n),
        forall|i: int|
            0 <= i < entries@.len() && manifest_name((#[trigger] entries@[i]).0@, entries@[i].1) is Some
                ==> has_name(r@, manifest_name(entries@[i].0@, entries@[i].1).unwrap()),
        forall|k: int| 0 <= k < r@.len() && (#[trigger] r@[k]).version is Some ==> exists|x: int|
            0 <= x < entries@.len() && manifest_name(entries@[x].0@, entries@[x].1) == Some(r@[k].name@)
                && manifest_version(entries@[x].1) == opt_view(r@[k].version),
        forall|x: int| 0 <= x < entries@.len() && manifest_name((#[trigger] entries@[x]).0@, entries@[x].1) is Some
            && manifest_version(entries@[x].1) is Some ==> exists|k: int| 0 <= k < r@.len()
                && r@[k].name@ == manifest_name(entries@[x].0@, entries@[x].1).unwrap() && r@[k].version is Some,
{
    let mut set = DependencySet::new();
    let mut i: usize = 0;
    while i < entries.len()
        invariant
            i <= entries@.len(),
            set.well_formed(),
            forall|n: Seq<char>| #[trigger] set.version_of(n) is Some ==> exists|x: int| 0 <= x < i && manifest_name(entries@[x].0@, entries@[x].1) == Some(n),
            forall|x: int|
                0 <= x < i && manifest_name((#[trigger] entries@[x]).0@, entries@[x].1) is Some
                    ==> set.version_of(manifest_name(entries@[x].0@, entries@[x].1).unwrap()) is Some,
            forall|n: Seq<char>| #[trigger] pinned(set.version_of(n)) ==> exists|x: int| 0 <= x < i
                && manifest_name(entries@[x].0@, entries@[x].1) == Some(n)
                && Some(manifest_version(entries@[x].1)) == set.version_of(n),
            forall|x: int| 0 <= x < i && manifest_name((#[trigger] entries@[x]).0@, entries@[x].1) is Some
                && manifest_version(entries@[x].1) is Some ==> pinned(set.version_of(manifest_name(entries@[x].0@, entries@[x].1).unwrap())),
        decreases entries@.len() - i,
    {
        match manifest_entry(entries[i].0.as_str(), &entries[i].1) {
            Some(spec) => {
                let ghost key = spec.name@;
                let ghost before = set;
                set.insert(spec);
                assert(set.version_of(key) is Some);
                proof {
                    assert forall|n: Seq<char>| #[trigger] pinned(set.version_of(n)) implies exists|x: int| 0 <= x < i + 1
                        && manifest_name(entries@[x].0@, entries@[x].1) == Some(n)
                        && Some(manifest_version(entries@[x].1)) == set.version_of(n) by {
                        if n != key {
                            assert(set.version_of(n) == before.version_of(n));
                        } else if !pinned(before.version_of(n)) {
                            assert(manifest_name(entries@[i as int].0@, entries@[i as int].1) == Some(n));
                        }
                    }
                    assert forall|x: int| 0 <= x < i + 1 && manifest_name((#[trigger] entries@[x]).0@, entries@[x].1) is Some
                        && manifest_version(entries@[x].1) is Some implies pinned(set.version_of(manifest_name(entries@[x].0@, entries@[x].1).unwrap())) by {
                        let nx = manifest_name(entries@[x].0@, entries@[x].1).unwrap();
                        if nx != key {
                            assert(set.version_of(nx) == before.version_of(nx));
                        }
                    }
                }
            },
            None => {},
        }
        i = i + 1;
    }
    proof {
        assert forall|k: int| 0 <= k < set.specs@.len() && (#[trigger] set.specs@[k]).version is Some implies exists|x: int|
            0 <= x < entries@.len() && manifest_name(entries@[x].0@, entries@[x].1) == Some(set.specs@[k].name@)
                && manifest_version(entries@[x].1) == opt_view(set.specs@[k].version) by {
            lemma_spec_index_unique(set.specs@, set.specs@[k].name@, k);
            assert(pinned(set.version_of(set.specs@[k].name@)));
        }
        assert forall|x: int| 0 <= x < entries@.len() && manifest_name((#[trigger] entries@[x]).0@, entries@[x].1) is Some
            && manifest_version(entries@[x].1) is Some implies exists|k: int| 0 <= k < set.specs@.len()
                && set.specs@[k].name@ == manifest_name(entries@[x].0@, entries@[x].1).unwrap() && set.specs@[k].version is Some by {
            let nx = manifest_name(entries@[x].0@, entries@[x].1).unwrap();
            let k = spec_index(set.specs@, nx).unwrap();
            assert(pinned(set.version_of(nx)));
            let w = choose|w: int| 0 <= w < set.specs@.len() && (#[trigger] set.specs@[w]).name@ == nx;
            lemma_spec_index_unique(set.specs@, nx, w);
        }
        assert forall|n: Seq<char>| #[trigger] has_name(set.specs@, n) implies exists|x: int| 0 <= x < entries@.len() && manifest_name(entries@[x].0@, entries@[x].1) == Some(n) by {
            lemma_has_name_version_of(set, n);
        }
        assert forall|x: int|
            0 <= x < entries@.len() && manifest_name((#[trigger] entries@[x]).0@, entries@[x].1) is Some
                implies has_name(set.specs@, manifest_name(entries@[x].0@, entries@[x].1).unwrap()) by {
            lemma_version_of_has_name(set, manifest_name(entries@[x].0@, entries@[x].1).unwrap());
        }
    }
    set.into_vec()
}

/// An npm requirement kept only when it names one version: `latest`, or
/// `v` / `=v` for a SemVer version `v`.
pub open spec fn npm_requested_spec(raw: Seq<char>) -> Option<Seq<char>> {
    let t = trim_spec(raw);
    if t.len() == 0 {
        None
    } else if lower_spec(t) == "latest"@ {
        Some("latest"@)
    } else {
        let c = strip_one(t, '=');
        if crate::semver_order::semver_core(c) is Some {
            Some(c)
        } else {
            None
        }
    }
}

pub fn normalize_requested_version(raw: &str) -> (r: Option<String>)
    ensures
        opt_view(r) == npm_requested_spec(raw@),
        r matches Some(v) ==> npm_requested_spec(v@) == Some(v@),
{
    let cs = chars_of(raw);
    let t = trim_chars(cs.as_slice());
    if t.len() == 0 {
        return None;
    }
    let l = lower_chars(t.as_slice());
    let latest = chars_of("latest");
    if eq_chars(l.as_slice(), latest.as_slice()) {
        let out = "latest".to_owned();
        proof {
            reveal_strlit("latest");
            let lt = "latest"@;
            assert(!is_white_space(lt[0]) && !is_white_space(lt.last()));
            crate::text::lemma_trim_noop(lt);
            assert(lower_spec(lt) =~= lt);
        }
        return Some(out);
    }
    let c = strip_one_exec(t.as_slice(), '=');
    let cand = string_of(c.as_slice());
    match crate::semver_order::parse_core(cand.as_str()) {
        Some(_) => {
            proof {
                let v = cand@;
                assert(crate::semver_order::semver_text_char(v[0]));
                assert(crate::semver_order::semver_text_char(v.last()));
                crate::text::lemma_trim_noop(v);
                reveal_strlit("latest");
                assert(lower_spec(v) != "latest"@) by {
                    assert(lower_spec(v)[0] == ascii_lower(v[0]));
                }
                assert(strip_one(v, '=') == v);
            }
            Some(cand)
        },
        None => None,
    }
}

fn opt_normalized(v: &Option<String>) -> (r: Option<String>)
    ensures
        opt_view(r) == match opt_view(*v) {
            Some(x) => npm_requested_spec(x),
            None => None,
        },
{
    match v {
        Some(x) => normalize_requested_version(x.as_str()),
        None => None,
    }
}

/// The dependencies of a package-lock.json: its top-level `dependencies`
/// (name, version), or when there are none, the `packages` map (path,
/// version) read through `node_modules/` paths.
pub fn collect_package_lock(
    dependencies: &Vec<(String, Option<String>)>,
    packages: &Vec<(String, Option<String>)>,
) -> (r: Vec<DependencySpec>)
    ensures
        names_unique(r@),
        forall|i: int|
            0 <= i < dependencies@.len() && npm_name_spec((#[trigger] dependencies@[i]).0@) is Some
                ==> has_name(r@, npm_name_spec(dependencies@[i].0@).unwrap()),
        forall|n: Seq<char>| #[trigger] has_name(r@, n) ==> (exists|x: int| 0 <= x < dependencies@.len() && npm_name_spec(dependencies@[x].0@) == Some(n)) || (exists|y: int|
            0 <= y < packages@.len() && node_modules_name_spec(packages@[y].0@) == Some(n)),
{
    let mut set = DependencySet::new();
    let mut i: usize = 0;
    while i < dependencies.len()
        invariant
            i <= dependencies@.len(),
            set.well_formed(),
            forall|n: Seq<char>| #[trigger] set.version_of(n) is Some ==> exists|x: int| 0 <= x < i && npm_name_spec(dependencies@[x].0@) == Some(n),
            forall|x: int|
                0 <= x < i && npm_name_spec((#[trigger] dependencies@[x]).0@) is Some ==> set.version_of(
                    npm_name_spec(dependencies@[x].0@).unwrap(),
                ) is Some,
        decreases dependencies@.len() - i,
    {
        match normalize_npm_package_name(dependencies[i].0.as_str()) {
            Some(n) => {
                let ghost key = n@;
                let version = opt_normalized(&dependencies[i].1);
                set.insert(DependencySpec { name: n, version });
                assert(set.version_of(key) is Some);
            },
            None => {},
        }
        i = i + 1;
    }
    if set.specs.len() == 0 {
        let mut j: usize = 0;
        while j < packages.len()
            invariant
                j <= packages@.len(),
                set.well_formed(),
                forall|n: Seq<char>| #[trigger] set.version_of(n) is Some ==> (exists|x: int| 0 <= x < dependencies@.len() && npm_name_spec(dependencies@[x].0@) == Some(n)) || (exists|y: int|
                    0 <= y < j && node_modules_name_spec(packages@[y].0@) == Some(n)),
                forall|x: int|
                    0 <= x < dependencies@.len() && npm_name_spec((#[trigger] dependencies@[x]).0@) is Some
                        ==> set.version_of(npm_name_spec(dependencies@[x].0@).unwrap()) is Some,
            decreases packages@.len() - j,
        {
            match extract_package_name_from_node_modules_path(packages[j].0.as_str()) {
                Some(n) => {
                    let version = opt_normalized(&packages[j].1);
                    set.insert(DependencySpec { name: n, version });
                },
                None => {},
            }
            j = j + 1;
        }
    }
    proof {
        assert forall|n: Seq<char>| #[trigger] has_name(set.specs@, n) implies (exists|x: int| 0 <= x < dependencies@.len() && npm_name_spec(dependencies@[x].0@) == Some(n)) || (exists|y: int|
            0 <= y < packages@.len() && node_modules_name_spec(packages@[y].0@) == Some(n)) by {
            lemma_has_name_version_of(set, n);
        }
        assert forall|x: int|
            0 <= x < dependencies@.len() && npm_name_spec((#[trigger] dependencies@[x]).0@) is Some
                implies has_name(set.specs@, npm_name_spec(dependencies@[x].0@).unwrap()) by {
            lemma_version_of_has_name(set, npm_name_spec(dependencies@[x].0@).unwrap());
        }
    }
    set.into_vec()
}

/// The dependencies that a package.json declares (its dependency sections
/// flattened into `entries` of name and requirement).
pub fn collect_package_manifest(entries: &Vec<(String, Option<String>)>) -> (r: Vec<DependencySpec>)
    ensures
        names_unique(r@),
        forall|i: int|
            0 <= i < entries@.len() && npm_name_spec((#[trigger] entries@[i]).0@) is Some ==> has_name(
                r@,
                npm_name_spec(entries@[i].0@).unwrap(),
            ),
        forall|n: Seq<char>| #[trigger] has_name(r@, n) ==> exists|x: int| 0 <= x < entries@.len() && npm_name_spec(entries@[x].0@) == Some(n),
{
    let none: Vec<(String, Option<String>)> = Vec::new();
    collect_package_lock(entries, &none)
}

/// `s` cut at every line feed (always at least one piece).
pub open spec fn split_spec(s: Seq<char>) -> Seq<Seq<char>>
    decreases s.len(),
{
    if s.len() == 0 {
        seq![seq![]]
    } else {
        let rest = split_spec(s.drop_first());
        if s[0] == '\n' {
            seq![seq![]] + rest
        } else {
            rest.update(0, seq![s[0]] + rest[0])
        }
    }
}

pub open spec fn strip_cr(l: Seq<char>) -> Seq<char> {
    if l.len() > 0 && l.last() == '\r' {
        l.drop_last()
    } else {
        l
    }
}

/// The lines of a text as `str::lines` gives them: a final line feed ends
/// the last line, and a carriage return before a line feed is dropped.
pub open spec fn lines_spec(s: Seq<char>) -> Seq<Seq<char>> {
    if s.len() == 0 {
        seq![]
    } else {
        let ends = s.last() == '\n';
        let body = if ends {
            s.drop_last()
        } else {
            s
        };
        let pieces = split_spec(body);
        Seq::new(
            pieces.len(),
            |i: int|
                if i < pieces.len() - 1 || ends {
                    strip_cr(pieces[i])
                } else {
                    pieces[i]
                },
        )
    }
}

proof fn lemma_split_nonempty(s: Seq<char>)
    ensures
        split_spec(s).len() >= 1,
    decreases s.len(),
{
    if s.len() > 0 {
        lemma_split_nonempty(s.drop_first());
    }
}

/// Characters before the next line feed join the first piece.
proof fn lemma_split_prefix(s: Seq<char>, a: int, b: int)
    requires
        0 <= a <= b <= s.len(),
        forall|j: int| a <= j < b ==> s[j] != '\n',
    ensures
        split_spec(s.skip(a)) == split_spec(s.skip(b)).update(
            0,
            s.subrange(a, b) + split_spec(s.skip(b))[0],
        ),
    decreases b - a,
{
    lemma_split_nonempty(s.skip(b));
    if a == b {
        assert(s.subrange(a, b) + split_spec(s.skip(b))[0] =~= split_spec(s.skip(b))[0]);
        assert(split_spec(s.skip(b)).update(0, split_spec(s.skip(b))[0]) =~= split_spec(s.skip(b)));
    } else {
        lemma_split_prefix(s, a + 1, b);
        let t = s.skip(a);
        assert(t.drop_first() =~= s.skip(a + 1));
        assert(t[0] == s[a]);
        lemma_split_nonempty(s.skip(a + 1));
        let rest = split_spec(s.skip(a + 1));
        let tail = split_spec(s.skip(b));
        assert(rest == tail.update(0, s.subrange(a + 1, b) + tail[0]));
        assert(seq![s[a]] + (s.subrange(a + 1, b) + tail[0]) =~= s.subrange(a, b) + tail[0]);
        assert(rest.update(0, seq![s[a]] + rest[0]) =~= tail.update(0, s.subrange(a, b) + tail[0]));
    }
}

/// Splits `body` at every line feed.
fn split_body(body: &[char]) -> (r: Vec<String>)
    ensures
        r@.map_values(|l: String| l@) == split_spec(body@),
{
    let n = body.len();
    let mut out: Vec<String> = Vec::new();
    let mut start: usize = 0;
    let mut i: usize = 0;
    assert(body@.skip(0) =~= body@);
    assert(out@.map_values(|l: String| l@) + split_spec(body@) =~= split_spec(body@));
    while i < n
        invariant
            n == body@.len(),
            start <= i <= n,
            forall|j: int| start <= j < i ==> body@[j] != '\n',
            split_spec(body@) == out@.map_values(|l: String| l@) + split_spec(body@.skip(start as int)),
        decreases n - i,
    {
        if body[i] == '\n' {
            proof {
                lemma_split_prefix(body@, start as int, i as int);
                let t = body@.skip(i as int);
                assert(t.drop_first() =~= body@.skip(i + 1));
                assert(t[0] == '\n');
                lemma_split_nonempty(body@.skip(i + 1));
                let tail = split_spec(body@.skip(i as int));
                assert(tail == seq![Seq::<char>::empty()] + split_spec(body@.skip(i + 1)));
                assert(tail.update(0, body@.subrange(start as int, i as int) + tail[0]) =~= seq![
                    body@.subrange(start as int, i as int),
                ] + split_spec(body@.skip(i + 1)));
            }
            let ghost before = out@;
            out.push(crate::text::string_of_range(body, start, i));
            assert(out@.map_values(|l: String| l@) =~= before.map_values(|l: String| l@).push(
                body@.subrange(start as int, i as int),
            ));
            start = i + 1;
        }
        i = i + 1;
    }
    proof {
        lemma_split_prefix(body@, start as int, n as int);
        assert(body@.skip(n as int) =~= seq![]);
        let tail = split_spec(body@.skip(n as int));
        assert(tail == seq![Seq::<char>::empty()]);
        assert(tail.update(0, body@.subrange(start as int, n as int) + tail[0]) =~= seq![
            body@.subrange(start as int, n as int),
        ]);
    }
    let ghost before = out@;
    out.push(crate::text::string_of_range(body, start, n));
    assert(out@.map_values(|l: String| l@) =~= before.map_values(|l: String| l@).push(
        body@.subrange(start as int, n as int),
    ));
    out
}

fn strip_cr_exec(l: &str) -> (r: String)
    ensures
        r@ == strip_cr(l@),
{
    let cs = chars_of(l);
    let n = cs.len();
    if n > 0 && cs[n - 1] == '\r' {
        let v = chars_range(cs.as_slice(), 0, n - 1);
        assert(v@ =~= l@.drop_last());
        string_of(v.as_slice())
    } else {
        string_of(cs.as_slice())
    }
}

/// The lines of a text, as `str::lines` gives them.
pub fn split_lines(text: &str) -> (r: Vec<String>)
    ensures
        r@.map_values(|l: String| l@) == lines_spec(text@),
{
    let cs = chars_of(text);
    let n = cs.len();
    if n == 0 {
        let e: Vec<String> = Vec::new();
        assert(e@.map_values(|l: String| l@) =~= lines_spec(text@));
        return e;
    }
    let end = if cs[n - 1] == '\n' {
        n - 1
    } else {
        n
    };
    let body = chars_range(cs.as_slice(), 0, end);
    assert(body@ =~= (if text@.last() == '\n' {
        text@.drop_last()
    } else {
        text@
    }));
    let pieces = split_body(body.as_slice());
    let ends = cs[n - 1] == '\n';
    let ghost pv = pieces@.map_values(|l: String| l@);
    let m = pieces.len();
    let mut out: Vec<String> = Vec::new();
    let mut i: usize = 0;
    while i < m
        invariant
            m == pieces@.len(),
            pv == pieces@.map_values(|l: String| l@),
            i <= m,
            out@.len() == i,
            forall|j: int|
                0 <= j < i ==> (#[trigger] out@[j])@ == if j < m - 1 || ends {
                    strip_cr(pv[j])
                } else {
                    pv[j]
                },
        decreases m - i,
    {
        assert(pv[i as int] == pieces@[i as int]@);
        if i + 1 < m || ends {
            out.push(strip_cr_exec(pieces[i].as_str()));
        } else {
            out.push(string_of(chars_of(pieces[i].as_str()).as_slice()));
        }
        i = i + 1;
    }
    assert(out@.map_values(|l: String| l@) =~= lines_spec(text@));
    out
}

/// The dependencies of a requirements file, each name once.
pub fn parse_requirements_text(text: &str) -> (r: Vec<DependencySpec>)
    ensures
        names_unique(r@),
        forall|i: int|
            0 <= i < lines_spec(text@).len() && requirement_spec(#[trigger] lines_spec(text@)[i]) is Some
                ==> has_name(r@, requirement_spec(lines_spec(text@)[i]).unwrap().0),
        forall|n: Seq<char>| #[trigger] has_name(r@, n) ==> (exists|x: int| 0 <= x < lines_spec(text@).len() && requirement_spec(lines_spec(text@)[x]) is Some && requirement_spec(lines_spec(text@)[x]).unwrap().0 == n),
{
    let lines = split_lines(text);
    let ghost lv = lines@.map_values(|l: String| l@);
    let mut set = DependencySet::new();
    let mut i: usize = 0;
    while i < lines.len()
        invariant
            i <= lines@.len(),
            lv == lines@.map_values(|l: String| l@),
            lv == lines_spec(text@),
            set.well_formed(),
            forall|n: Seq<char>| #[trigger] set.version_of(n) is Some ==> exists|x: int| 0 <= x < i && requirement_spec(lv[x]) is Some && requirement_spec(lv[x]).unwrap().0 == n,
            forall|x: int|
                0 <= x < i && requirement_spec(#[trigger] lv[x]) is Some ==> set.version_of(
                    requirement_spec(lv[x]).unwrap().0,
                ) is Some,
        decreases lines@.len() - i,
    {
        match parse_python_requirement_line(lines[i].as_str()) {
            Some(spec) => {
                let ghost key = spec.name@;
                set.insert(spec);
                assert(set.version_of(key) is Some);
            },
            None => {},
        }
        assert(lv[i as int] == lines@[i as int]@);
        i = i + 1;
    }
    proof {
        assert forall|n: Seq<char>| #[trigger] has_name(set.specs@, n) implies (exists|x: int| 0 <= x < lines_spec(text@).len() && requirement_spec(lines_spec(text@)[x]) is Some && requirement_spec(lines_spec(text@)[x]).unwrap().0 == n) by {
            lemma_has_name_version_of(set, n);
        }
        assert forall|x: int|
            0 <= x < lv.len() && requirement_spec(#[trigger] lv[x]) is Some implies has_name(
            set.specs@,
            requirement_spec(lv[x]).unwrap().0,
        ) by {
            lemma_version_of_has_name(set, requirement_spec(lv[x]).unwrap().0);
        }
    }
    set.into_vec()
}

/// The name a Poetry entry contributes: none for `python`, else its
/// normalized name.
pub open spec fn poetry_name(name: Seq<char>) -> Option<Seq<char>> {
    if lower_spec(name) == "python"@ {
        None
    } else {
        python_name_spec(name)
    }
}

/// How pyproject.toml's Poetry tables declare one dependency.
pub enum PoetryDependency {
    Version(String),
    Detailed { version: Option<String> },
    Other,
}

/// The dependencies of a pyproject.toml: PEP 621 requirement strings, then
/// Poetry tables (the `python` entry is not a dependency).
pub fn collect_pyproject(requirements: &Vec<String>, poetry: &Vec<(String, PoetryDependency)>) -> (r: Vec<
    DependencySpec,
>)
    ensures
        names_unique(r@),
        forall|i: int|
            0 <= i < requirements@.len() && requirement_spec((#[trigger] requirements@[i])@) is Some
                ==> has_name(r@, requirement_spec(requirements@[i]@).unwrap().0),
        forall|y: int| 0 <= y < poetry@.len() && poetry_name((#[trigger] poetry@[y]).0@) is Some
            ==> has_name(r@, poetry_name(poetry@[y].0@).unwrap()),
        forall|n: Seq<char>| #[trigger] has_name(r@, n) ==> (exists|x: int| 0 <= x < requirements@.len() && requirement_spec(requirements@[x]@) is Some && requirement_spec(requirements@[x]@).unwrap().0 == n) || (exists|y: int|
            0 <= y < poetry@.len() && poetry_name(poetry@[y].0@) == Some(n)),
{
    let mut set = DependencySet::new();
    let mut i: usize = 0;
    while i < requirements.len()
        invariant
            i <= requirements@.len(),
            set.well_formed(),
            forall|n: Seq<char>| #[trigger] set.version_of(n) is Some ==> exists|x: int| 0 <= x < i && requirement_spec(requirements@[x]@) is Some && requirement_spec(requirements@[x]@).unwrap().0 == n,
            forall|x: int|
                0 <= x < i && requirement_spec((#[trigger] requirements@[x])@) is Some ==> set.version_of(
                    requirement_spec(requirements@[x]@).unwrap().0,
                ) is Some,
        decreases requirements@.len() - i,
    {
        match parse_python_requirement_line(requirements[i].as_str()) {
            Some(spec) => {
                let ghost key = spec.name@;
                set.insert(spec);
                assert(set.version_of(key) is Some);
            },
            None => {},
        }
        i = i + 1;
    }
    let python = chars_of("python");
    let mut j: usize = 0;
    while j < poetry.len()
        invariant
            j <= poetry@.len(),
            set.well_formed(),
            python@ == "python"@,
            forall|y: int| 0 <= y < j && poetry_name((#[trigger] poetry@[y]).0@) is Some
                ==> set.version_of(poetry_name(poetry@[y].0@).unwrap()) is Some,
            forall|n: Seq<char>| #[trigger] set.version_of(n) is Some ==> (exists|x: int| 0 <= x < requirements@.len() && requirement_spec(requirements@[x]@) is Some && requirement_spec(requirements@[x]@).unwrap().0 == n) || (exists|y: int|
                0 <= y < j && poetry_name(poetry@[y].0@) == Some(n)),
            forall|x: int|
                0 <= x < requirements@.len() && requirement_spec((#[trigger] requirements@[x])@) is Some
                    ==> set.version_of(requirement_spec(requirements@[x]@).unwrap().0) is Some,
        decreases poetry@.len() - j,
    {
        let nc = chars_of(poetry[j].0.as_str());
        let lower = lower_chars(nc.as_slice());
        if !eq_chars(lower.as_slice(), python.as_slice()) {
            match normalize_python_package_name(poetry[j].0.as_str()) {
                Some(n) => {
                    let version = match &poetry[j].1 {
                        PoetryDependency::Version(v) => normalize_poetry_exact_version(v.as_str()),
                        PoetryDependency::Detailed { version } => match version {
                            Some(v) => normalize_poetry_exact_version(v.as_str()),
                            None => None,
                        },
                        PoetryDependency::Other => None,
                    };
                    let ghost key = n@;
                    set.insert(DependencySpec { name: n, version });
                    assert(set.version_of(key) is Some);
                },
                None => {},
            }
        }
        j = j + 1;
    }
    proof {
        assert forall|n: Seq<char>| #[trigger] has_name(set.specs@, n) implies (exists|x: int| 0 <= x < requirements@.len() && requirement_spec(requirements@[x]@) is Some && requirement_spec(requirements@[x]@).unwrap().0 == n) || (exists|y: int|
            0 <= y < poetry@.len() && poetry_name(poetry@[y].0@) == Some(n)) by {
            lemma_has_name_version_of(set, n);
        }
        assert forall|y: int| 0 <= y < poetry@.len() && poetry_name((#[trigger] poetry@[y]).0@) is Some
            implies has_name(set.specs@, poetry_name(poetry@[y].0@).unwrap()) by {
            lemma_version_of_has_name(set, poetry_name(poetry@[y].0@).unwrap());
        }
        assert forall|x: int|
            0 <= x < requirements@.len() && requirement_spec((#[trigger] requirements@[x])@) is Some
                implies has_name(set.specs@, requirement_spec(requirements@[x]@).unwrap().0) by {
            lemma_version_of_has_name(set, requirement_spec(requirements@[x]@).unwrap().0);
        }
    }
    set.into_vec()
}

// ---------------------------------------------------------------------------
// The parsers of each ecosystem

/// Reads Cargo.lock and Cargo.toml.
#[derive(Debug, Clone, Copy)]
pub struct CargoLockfileParser;

/// Reads package-lock.json and package.json.
#[derive(Debug, Clone, Copy)]
pub struct NpmLockfileParser;

/// Reads requirements.txt and pyproject.toml.
#[derive(Debug, Clone, Copy)]
pub struct PypiLockfileParser;

impl CargoLockfileParser {
    pub fn new() -> Self {
        CargoLockfileParser
    }

    /// File names searched for, in order.
    pub fn supported_files(&self) -> (r: Vec<&'static str>)
        ensures
            r@.map_values(|s: &str| s@) == crate::catalog::RegistryKind::Cargo.files_spec(),
    {
        crate::catalog::RegistryKind::Cargo.supported_files()
    }
}

impl NpmLockfileParser {
    pub fn new() -> Self {
        NpmLockfileParser
    }

    /// File names searched for, in order.
    pub fn supported_files(&self) -> (r: Vec<&'static str>)
        ensures
            r@.map_values(|s: &str| s@) == crate::catalog::RegistryKind::Npm.files_spec(),
    {
        crate::catalog::RegistryKind::Npm.supported_files()
    }
}

impl PypiLockfileParser {
    pub fn new() -> Self {
        PypiLockfileParser
    }

    /// File names searched for, in order.
    pub fn supported_files(&self) -> (r: Vec<&'static str>)
        ensures
            r@.map_values(|s: &str| s@) == crate::catalog::RegistryKind::Pypi.files_spec(),
    {
        crate::catalog::RegistryKind::Pypi.supported_files()
    }
}

} // verus!
