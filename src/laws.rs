//! Properties that relate several functions of the library, proved over
//! the specifications those functions meet.
use vstd::prelude::*;
use crate::cache::{live_spec, ttl_seconds_spec};
use crate::config::normalize_check_id_spec;
use crate::lockfile::{
    all_chars, before_first, cargo_manifest_spec, collapse_spec, is_npm_char, strip_one, npm_name_spec, npm_segment_spec,
    python_exact_spec, python_name_spec, strip_dashes_end, strip_dashes_start,
};
use crate::model::Severity;
use crate::pipeline::{aggregate_risk, highest, medium_count};
use crate::service::cache_key_spec;
use crate::text::{
    ascii_lower, has_char, is_white_space, lemma_lower_idempotent, lemma_trim_ends, lemma_trim_noop,
    lower_spec, trim_spec,
};

verus! {

proof fn lemma_highest_below(sevs: Seq<Severity>, bound: nat)
    requires
        bound >= 1,
        forall|i: int| 0 <= i < sevs.len() ==> (#[trigger] sevs[i]).rank() < bound,
    ensures
        highest(sevs).rank() < bound,
    decreases sevs.len(),
{
    if sevs.len() > 0 {
        lemma_highest_below(sevs.drop_last(), bound);
        assert(sevs.last() == sevs[sevs.len() - 1]);
    }
}

/// Two or more medium findings and nothing high or critical: the overall
/// risk is exactly high.
pub proof fn law_two_mediums_make_high(sevs: Seq<Severity>)
    requires
        medium_count(sevs) >= 2,
        forall|i: int| 0 <= i < sevs.len() ==> (#[trigger] sevs[i]).rank() < Severity::High.rank(),
    ensures
        aggregate_risk(sevs) == Severity::High,
{
    lemma_highest_below(sevs, 2);
}

/// Requests with the same registry, name and version (a missing version
/// counting as `latest`) share one cache key.
pub proof fn law_cache_key_stable(
    scope: Seq<char>,
    registry: Seq<char>,
    name: Seq<char>,
    v1: Option<Seq<char>>,
    v2: Option<Seq<char>>,
)
    requires
        (match v1 {
            Some(v) => v,
            None => "latest"@,
        }) == (match v2 {
            Some(v) => v,
            None => "latest"@,
        }),
    ensures
        cache_key_spec(scope, registry, name, v1) == cache_key_spec(scope, registry, name, v2),
{
}

/// An entry written at `written` stays live until its time to live has
/// passed: any read at `now` in between is served from the cache.
pub proof fn law_entry_live_until_expiry(written: i64, ttl_minutes: u64, now: i64)
    requires
        ttl_seconds_spec(ttl_minutes) is Some,
        written + ttl_seconds_spec(ttl_minutes).unwrap() <= i64::MAX,
        written <= now < written + ttl_seconds_spec(ttl_minutes).unwrap(),
    ensures
        live_spec((written + ttl_seconds_spec(ttl_minutes).unwrap()) as i64, now),
{
}

proof fn lemma_not_white_mapped(c: char)
    requires
        !is_white_space(c),
    ensures
        !is_white_space(ascii_lower(c)),
        !is_white_space(crate::config::dash_to_underscore(ascii_lower(c))),
{
}

/// Normalizing a check id twice gives what normalizing once gives.
pub proof fn law_check_id_idempotent(raw: Seq<char>)
    ensures
        normalize_check_id_spec(normalize_check_id_spec(raw)) == normalize_check_id_spec(raw),
{
    let t = trim_spec(raw);
    let n = normalize_check_id_spec(raw);
    lemma_trim_ends(raw);
    if n.len() > 0 {
        lemma_not_white_mapped(t[0]);
        lemma_not_white_mapped(t.last());
        assert(n[0] == crate::config::dash_to_underscore(ascii_lower(t[0])));
        assert(n.last() == crate::config::dash_to_underscore(ascii_lower(t.last())));
    }
    lemma_trim_noop(n);
    assert(lower_spec(n) =~= n);
    assert(lower_spec(trim_spec(n)).map_values(|c: char| crate::config::dash_to_underscore(c)) =~= n);
}

proof fn lemma_npm_chars_lower(t: Seq<char>)
    requires
        all_chars(t, 1),
    ensures
        all_chars(lower_spec(t), 1),
        t.len() == 0 || (!is_white_space(lower_spec(t)[0]) && !is_white_space(lower_spec(t).last())),
{
    assert forall|i: int| 0 <= i < lower_spec(t).len() implies is_npm_char(#[trigger] lower_spec(t)[i]) by {
        assert(is_npm_char(t[i]));
    }
    if t.len() > 0 {
        assert(is_npm_char(t[0]));
        assert(is_npm_char(t.last()));
    }
}

/// Normalizing an npm name segment twice gives what normalizing once
/// gives.
pub proof fn law_npm_segment_idempotent(raw: Seq<char>)
    requires
        npm_segment_spec(raw) is Some,
    ensures
        npm_segment_spec(npm_segment_spec(raw).unwrap()) == npm_segment_spec(raw),
{
    let t = trim_spec(raw);
    let l = lower_spec(t);
    lemma_npm_chars_lower(t);
    lemma_trim_noop(l);
    lemma_lower_idempotent(t);
    assert(l != "."@) by {
        reveal_strlit(".");
        if l == "."@ {
            assert(t.len() == 1 && ascii_lower(t[0]) == '.');
            assert(t =~= "."@);
        }
    }
    assert(l != ".."@) by {
        reveal_strlit("..");
        if l == ".."@ {
            assert(ascii_lower(t[0]) == '.' && ascii_lower(t[1]) == '.');
            assert(t =~= ".."@);
        }
    }
}

/// Normalizing an npm package name twice gives what normalizing once
/// gives, for plain and for scoped names.
pub proof fn law_npm_name_idempotent(raw: Seq<char>)
    requires
        npm_name_spec(raw) is Some,
    ensures
        npm_name_spec(npm_name_spec(raw).unwrap()) == npm_name_spec(raw),
{
    let t = trim_spec(raw);
    let n = npm_name_spec(raw).unwrap();
    if t[0] == '@' {
        let k = crate::text::first_index_of(t, '/').unwrap();
        let scope = t.take(k);
        let name = t.skip(k + 1);
        let s = npm_segment_spec(scope.drop_first()).unwrap();
        let m = npm_segment_spec(name).unwrap();
        law_npm_segment_idempotent(scope.drop_first());
        law_npm_segment_idempotent(name);
        lemma_segment_shape(scope.drop_first());
        lemma_segment_shape(name);
        assert(n == seq!['@'] + s + seq!['/'] + m);
        lemma_trim_noop(n);
        assert(!has_char(n, '\\')) by {
            if has_char(n, '\\') {
                let i = choose|i: int| 0 <= i < n.len() && n[i] == '\\';
                if 1 <= i < 1 + s.len() {
                    assert(s[i - 1] == '\\');
                } else if i > 1 + s.len() {
                    assert(m[i - 2 - s.len()] == '\\');
                }
            }
        }
        assert forall|j: int| 0 <= j < 1 + s.len() implies n[j] != '/' by {
            if j > 0 {
                assert(n[j] == s[j - 1]);
            }
        }
        crate::text::lemma_first_index_at(n, '/', 1 + s.len() as int);
        assert(n.take(1 + s.len() as int).drop_first() =~= s);
        assert(n.skip(2 + s.len() as int) =~= m);
        assert(!has_char(m, '/')) by {
            if has_char(m, '/') {
                let i = choose|i: int| 0 <= i < m.len() && m[i] == '/';
                assert(is_npm_char(m[i]));
            }
        }
    } else {
        let seg = npm_segment_spec(t).unwrap();
        law_npm_segment_idempotent(t);
        lemma_segment_shape(t);
        lemma_trim_noop(seg);
        assert(seg[0] != '@') by {
            lemma_trim_ends(raw);
            lemma_trim_noop(t);
            assert(seg[0] == ascii_lower(t[0]));
        }
        assert(!has_char(seg, '\\') && !has_char(seg, '/')) by {
            if has_char(seg, '\\') {
                let i = choose|i: int| 0 <= i < seg.len() && seg[i] == '\\';
                assert(is_npm_char(seg[i]));
            }
            if has_char(seg, '/') {
                let i = choose|i: int| 0 <= i < seg.len() && seg[i] == '/';
                assert(is_npm_char(seg[i]));
            }
        }
    }
}

proof fn lemma_segment_shape(raw: Seq<char>)
    requires
        npm_segment_spec(raw) is Some,
    ensures
        npm_segment_spec(raw).unwrap().len() > 0,
        all_chars(npm_segment_spec(raw).unwrap(), 1),
        !is_white_space(npm_segment_spec(raw).unwrap()[0]),
        !is_white_space(npm_segment_spec(raw).unwrap().last()),
{
    lemma_npm_chars_lower(trim_spec(raw));
}

/// Normalizing a pinned requirement version twice gives what normalizing
/// once gives.
pub proof fn law_python_exact_idempotent(raw: Seq<char>)
    requires
        python_exact_spec(raw) is Some,
    ensures
        python_exact_spec(python_exact_spec(raw).unwrap()) == python_exact_spec(raw),
{
    let t = python_exact_spec(raw).unwrap();
    lemma_trim_ends(before_first(raw, ','));
    assert(!has_char(t, ',')) by {
        reveal_strlit("* ;<>~!^");
        let head = before_first(raw, ',');
        lemma_before_first_clean(raw, ',');
        lemma_trim_sub(head, ',');
    }
    crate::text::lemma_has_char_none(t, ',');
    lemma_trim_noop(t);
}

proof fn lemma_before_first_clean(s: Seq<char>, c: char)
    ensures
        !has_char(before_first(s, c), c),
{
    match crate::text::first_index_of(s, c) {
        Some(k) => {
            lemma_first_index_props(s, c);
            assert forall|j: int| 0 <= j < k implies s.take(k)[j] != c by {
                assert(s.take(k)[j] == s[j]);
            }
        },
        None => {
            lemma_first_index_props(s, c);
        },
    }
}

proof fn lemma_first_index_props(s: Seq<char>, c: char)
    ensures
        match crate::text::first_index_of(s, c) {
            Some(k) => 0 <= k < s.len() && s[k] == c && forall|j: int| 0 <= j < k ==> s[j] != c,
            None => forall|j: int| 0 <= j < s.len() ==> s[j] != c,
        },
    decreases s.len(),
{
    if s.len() > 0 {
        lemma_first_index_props(s.drop_first(), c);
        if s[0] != c {
            match crate::text::first_index_of(s.drop_first(), c) {
                Some(k) => {
                    assert forall|j: int| 0 <= j < k + 1 implies s[j] != c by {
                        if j > 0 {
                            assert(s[j] == s.drop_first()[j - 1]);
                        }
                    }
                },
                None => {
                    assert forall|j: int| 0 <= j < s.len() implies s[j] != c by {
                        if j > 0 {
                            assert(s[j] == s.drop_first()[j - 1]);
                        }
                    }
                },
            }
        }
    }
}

proof fn lemma_trim_sub(s: Seq<char>, c: char)
    requires
        !has_char(s, c),
    ensures
        !has_char(trim_spec(s), c),
{
    lemma_trim_start_sub(s, c);
    lemma_trim_end_sub(crate::text::trim_start_spec(s), c);
}

proof fn lemma_trim_start_sub(s: Seq<char>, c: char)
    requires
        !has_char(s, c),
    ensures
        !has_char(crate::text::trim_start_spec(s), c),
    decreases s.len(),
{
    if s.len() > 0 && is_white_space(s[0]) {
        assert(!has_char(s.drop_first(), c)) by {
            if has_char(s.drop_first(), c) {
                let i = choose|i: int| 0 <= i < s.drop_first().len() && s.drop_first()[i] == c;
                assert(s[i + 1] == c);
            }
        }
        lemma_trim_start_sub(s.drop_first(), c);
    }
}

proof fn lemma_trim_end_sub(s: Seq<char>, c: char)
    requires
        !has_char(s, c),
    ensures
        !has_char(crate::text::trim_end_spec(s), c),
    decreases s.len(),
{
    if s.len() > 0 && is_white_space(s.last()) {
        assert(!has_char(s.drop_last(), c)) by {
            if has_char(s.drop_last(), c) {
                let i = choose|i: int| 0 <= i < s.drop_last().len() && s.drop_last()[i] == c;
                assert(s[i] == c);
            }
        }
        lemma_trim_end_sub(s.drop_last(), c);
    }
}

pub open spec fn pep_char(c: char) -> bool {
    ('a' <= c && c <= 'z') || ('0' <= c && c <= '9') || c == '-'
}

/// Lowercase letters, digits and single dashes only.
pub open spec fn pep_clean(s: Seq<char>) -> bool {
    &&& forall|i: int| 0 <= i < s.len() ==> pep_char(#[trigger] s[i])
    &&& forall|i: int| 0 <= i < s.len() - 1 ==> !(#[trigger] s[i] == '-' && s[i + 1] == '-')
}

proof fn lemma_lower_alnum(c: char)
    requires
        crate::text::is_ascii_alnum(c),
    ensures
        pep_char(ascii_lower(c)),
        ascii_lower(c) != '-',
        crate::text::is_ascii_alnum(ascii_lower(c)),
        ascii_lower(ascii_lower(c)) == ascii_lower(c),
{
    if 'A' <= c && c <= 'Z' {
        let u = (c as u32) + 32;
        assert(97 <= u <= 122);
        assert((u as char) as u32 == u);
    }
}

proof fn lemma_collapse_clean(t: Seq<char>)
    ensures
        pep_clean(collapse_spec(t)),
    decreases t.len(),
{
    if t.len() > 0 {
        lemma_collapse_clean(t.drop_last());
        let r = collapse_spec(t.drop_last());
        let c = t.last();
        if crate::text::is_ascii_alnum(c) {
            lemma_lower_alnum(c);
            let out = r.push(ascii_lower(c));
            assert forall|i: int| 0 <= i < out.len() - 1 implies !(#[trigger] out[i] == '-' && out[i + 1] == '-') by {
                if i < r.len() - 1 {
                    assert(out[i] == r[i] && out[i + 1] == r[i + 1]);
                }
            }
            assert forall|i: int| 0 <= i < out.len() implies pep_char(#[trigger] out[i]) by {
                if i < r.len() {
                    assert(out[i] == r[i]);
                }
            }
        } else if r.len() > 0 && r.last() == '-' {
        } else {
            let out = r.push('-');
            assert forall|i: int| 0 <= i < out.len() - 1 implies !(#[trigger] out[i] == '-' && out[i + 1] == '-') by {
                if i < r.len() - 1 {
                    assert(out[i] == r[i] && out[i + 1] == r[i + 1]);
                } else {
                    assert(out[i] == r.last());
                }
            }
            assert forall|i: int| 0 <= i < out.len() implies pep_char(#[trigger] out[i]) by {
                if i < r.len() {
                    assert(out[i] == r[i]);
                }
            }
        }
    }
}

proof fn lemma_clean_sub(s: Seq<char>, a: int, b: int)
    requires
        pep_clean(s),
        0 <= a <= b <= s.len(),
    ensures
        pep_clean(s.subrange(a, b)),
{
    let t = s.subrange(a, b);
    assert forall|i: int| 0 <= i < t.len() - 1 implies !(#[trigger] t[i] == '-' && t[i + 1] == '-') by {
        assert(t[i] == s[i + a] && t[i + 1] == s[i + a + 1]);
    }
    assert forall|i: int| 0 <= i < t.len() implies pep_char(#[trigger] t[i]) by {
        assert(t[i] == s[i + a]);
    }
}

proof fn lemma_strip_start_shape(s: Seq<char>)
    requires
        pep_clean(s),
    ensures
        pep_clean(strip_dashes_start(s)),
        strip_dashes_start(s).len() == 0 || strip_dashes_start(s)[0] != '-',
    decreases s.len(),
{
    if s.len() > 0 && s[0] == '-' {
        lemma_clean_sub(s, 1, s.len() as int);
        assert(s.drop_first() =~= s.subrange(1, s.len() as int));
        lemma_strip_start_shape(s.drop_first());
    }
}

proof fn lemma_strip_end_shape(s: Seq<char>)
    requires
        pep_clean(s),
        s.len() == 0 || s[0] != '-',
    ensures
        pep_clean(strip_dashes_end(s)),
        strip_dashes_end(s).len() == 0 || (strip_dashes_end(s)[0] != '-' && strip_dashes_end(
            s,
        ).last() != '-'),
    decreases s.len(),
{
    if s.len() > 0 && s.last() == '-' {
        lemma_clean_sub(s, 0, s.len() - 1);
        assert(s.drop_last() =~= s.subrange(0, s.len() - 1));
        lemma_strip_end_shape(s.drop_last());
    }
}

proof fn lemma_collapse_identity(s: Seq<char>)
    requires
        pep_clean(s),
        s.len() == 0 || s[0] != '-',
    ensures
        collapse_spec(s) == s,
    decreases s.len(),
{
    if s.len() > 0 {
        let init = s.drop_last();
        lemma_clean_sub(s, 0, s.len() - 1);
        assert(init =~= s.subrange(0, s.len() - 1));
        lemma_collapse_identity(init);
        let c = s.last();
        assert(pep_char(c));
        if c == '-' {
            assert(s.len() >= 2);
            assert(init.last() == s[s.len() - 2]);
            assert(!(s[s.len() - 2] == '-' && s[s.len() - 1] == '-'));
            assert(s =~= init.push('-'));
        } else {
            assert(crate::text::is_ascii_alnum(c));
            assert(ascii_lower(c) == c);
            assert(s =~= init.push(c));
        }
    }
}

/// Normalizing a PyPI project name twice gives what normalizing once
/// gives.
pub proof fn law_python_name_idempotent(raw: Seq<char>)
    requires
        python_name_spec(raw) is Some,
    ensures
        python_name_spec(python_name_spec(raw).unwrap()) == python_name_spec(raw),
{
    let t = trim_spec(before_first(raw, '['));
    let c = collapse_spec(t);
    lemma_collapse_clean(t);
    lemma_strip_start_shape(c);
    lemma_strip_end_shape(strip_dashes_start(c));
    let n = python_name_spec(raw).unwrap();
    assert(pep_clean(n) && n.len() > 0 && n[0] != '-' && n.last() != '-');
    assert(!has_char(n, '[')) by {
        if has_char(n, '[') {
            let i = choose|i: int| 0 <= i < n.len() && n[i] == '[';
            assert(pep_char(n[i]));
        }
    }
    crate::text::lemma_has_char_none(n, '[');
    assert(before_first(n, '[') == n);
    assert(pep_char(n[0]) && pep_char(n.last()));
    lemma_trim_noop(n);
    assert(!has_char(n, '/') && !has_char(n, '\\')) by {
        if has_char(n, '/') {
            let i = choose|i: int| 0 <= i < n.len() && n[i] == '/';
            assert(pep_char(n[i]));
        }
        if has_char(n, '\\') {
            let i = choose|i: int| 0 <= i < n.len() && n[i] == '\\';
            assert(pep_char(n[i]));
        }
    }
    assert(all_chars(n, 1)) by {
        assert forall|i: int| 0 <= i < n.len() implies is_npm_char(#[trigger] n[i]) by {
            assert(pep_char(n[i]));
        }
    }
    lemma_collapse_identity(n);
}

/// Normalizing a Cargo requirement that pins a version twice gives what
/// normalizing once gives, unless the pin itself starts with `=` (as the
/// one from `==1.2.3` does).
pub proof fn law_cargo_version_idempotent(raw: Seq<char>)
    requires
        cargo_manifest_spec(raw) is Some,
        cargo_manifest_spec(raw).unwrap()[0] != '=',
    ensures
        cargo_manifest_spec(cargo_manifest_spec(raw).unwrap()) == cargo_manifest_spec(raw),
{
    let t = trim_spec(raw);
    let e = cargo_manifest_spec(raw).unwrap();
    lemma_trim_ends(strip_one(t, '='));
    lemma_trim_noop(e);
    assert(e != "*"@) by {
        reveal_strlit("*");
        reveal_strlit("* ^~<>,|");
        if e == "*"@ {
            assert(has_char(e, '*'));
            assert("* ^~<>,|"@[0] == '*');
        }
    }
    assert(strip_one(e, '=') == e);
}

} // verus!
