//! Text rendering of which checks each registry supports.
use vstd::prelude::*;
use crate::catalog::{CheckSupportRow, check_support_rows, supported_package_registry_keys};
use crate::pipeline::{CheckDescriptor, check_descriptors};
use crate::text::{append_str, contains_spec, occurs_at, push_char, u64_text};

verus! {

/// `value` wrapped in the ANSI colour `code` when colour is on.
pub open spec fn style_spec(value: Seq<char>, code: Seq<char>, use_color: bool) -> Seq<char> {
    if use_color {
        seq!['\x1b', '['] + code + seq!['m'] + value + seq!['\x1b', '[', '0', 'm']
    } else {
        value
    }
}

pub fn style(value: &str, ansi_code: &str, use_color: bool) -> (r: String)
    ensures
        r@ == style_spec(value@, ansi_code@, use_color),
{
    let mut out = String::new();
    if use_color {
        push_char(&mut out, '\x1b');
        push_char(&mut out, '[');
        append_str(&mut out, ansi_code);
        push_char(&mut out, 'm');
        append_str(&mut out, value);
        push_char(&mut out, '\x1b');
        push_char(&mut out, '[');
        push_char(&mut out, '0');
        push_char(&mut out, 'm');
        assert(out@ =~= style_spec(value@, ansi_code@, use_color));
    } else {
        append_str(&mut out, value);
        assert(out@ =~= value@);
    }
    out
}

/// `value` followed by spaces up to `width` characters.
pub open spec fn pad_spec(value: Seq<char>, width: nat) -> Seq<char> {
    if value.len() >= width {
        value
    } else {
        value + Seq::new((width - value.len()) as nat, |i: int| ' ')
    }
}

pub fn pad(value: &str, width: usize) -> (r: String)
    ensures
        r@ == pad_spec(value@, width as nat),
{
    let mut out = String::new();
    append_str(&mut out, value);
    let n = value.unicode_len();
    let mut k: usize = n;
    while k < width
        invariant
            n == value@.len(),
            k >= n,
            n >= width ==> k == n,
            n < width ==> k <= width,
            out@ == value@ + Seq::new((k - n) as nat, |i: int| ' '),
        decreases width - k,
    {
        push_char(&mut out, ' ');
        k = k + 1;
        assert(out@ =~= value@ + Seq::new((k - n) as nat, |i: int| ' '));
    }
    if n >= width {
        assert(out@ =~= value@);
    } else {
        assert(out@ =~= pad_spec(value@, width as nat));
    }
    out
}

/// `yes` or `no`, padded to `width`, green or red.
pub fn support_cell(supported: bool, width: usize, use_color: bool) -> (r: String)
    ensures
        r@ == if supported {
            style_spec(pad_spec("yes"@, width as nat), "32"@, use_color)
        } else {
            style_spec(pad_spec("no"@, width as nat), "31"@, use_color)
        },
{
    if supported {
        let raw = pad("yes", width);
        style(raw.as_str(), "32", use_color)
    } else {
        let raw = pad("no", width);
        style(raw.as_str(), "31", use_color)
    }
}

/// `W` when the check needs weekly downloads, `A` when it needs
/// advisories, `-` otherwise.
pub fn flags_for_check(descriptor: CheckDescriptor) -> (r: String)
    ensures
        r@ == seq![
            if descriptor.needs_weekly_downloads { 'W' } else { '-' },
            if descriptor.needs_advisories { 'A' } else { '-' },
        ],
{
    let mut out = String::new();
    push_char(&mut out, if descriptor.needs_weekly_downloads { 'W' } else { '-' });
    push_char(&mut out, if descriptor.needs_advisories { 'A' } else { '-' });
    assert(out@ =~= seq![
        if descriptor.needs_weekly_downloads { 'W' } else { '-' },
        if descriptor.needs_advisories { 'A' } else { '-' },
    ]);
    out
}

/// The flags, padded; with colour, flag letters yellow and dashes dim.
pub fn render_flags(descriptor: CheckDescriptor, width: usize, use_color: bool) -> (r: String)
    ensures
        !use_color ==> r@ == pad_spec(
            seq![
                if descriptor.needs_weekly_downloads { 'W' } else { '-' },
                if descriptor.needs_advisories { 'A' } else { '-' },
            ],
            width as nat,
        ),
{
    let flags = flags_for_check(descriptor);
    let raw = pad(flags.as_str(), width);
    if !use_color {
        return raw;
    }
    let cs = crate::text::chars_of(raw.as_str());
    let mut out = String::new();
    let mut i: usize = 0;
    while i < cs.len()
        invariant
            i <= cs@.len(),
        decreases cs@.len() - i,
    {
        let c = cs[i];
        if c == 'W' {
            let s = style("W", "33", true);
            append_str(&mut out, s.as_str());
        } else if c == 'A' {
            let s = style("A", "33", true);
            append_str(&mut out, s.as_str());
        } else if c == '-' {
            let s = style("-", "2", true);
            append_str(&mut out, s.as_str());
        } else {
            push_char(&mut out, c);
        }
        i = i + 1;
    }
    out
}

/// Whether the rows mark `check` supported on `registry_key`.
pub fn is_supported_for_registry(support_rows: &Vec<CheckSupportRow>, registry_key: &str, check: &str) -> (r: bool)
    ensures
        r == exists|i: int|
            0 <= i < support_rows@.len() && (#[trigger] support_rows@[i]).registry@ == registry_key@
                && support_rows@[i].check@ == check@ && support_rows@[i].supported,
{
    let mut i: usize = 0;
    while i < support_rows.len()
        invariant
            i <= support_rows@.len(),
            forall|j: int|
                0 <= j < i ==> !((#[trigger] support_rows@[j]).registry@ == registry_key@
                    && support_rows@[j].check@ == check@ && support_rows@[j].supported),
        decreases support_rows@.len() - i,
    {
        let row = support_rows[i];
        if crate::text::eq_str(row.registry, registry_key) && crate::text::eq_str(row.check, check)
            && row.supported {
            return true;
        }
        i = i + 1;
    }
    false
}

/// Whole percent of `part` in `total`, rounded half up (100 when empty).
pub open spec fn percent_spec(part: nat, total: nat) -> nat {
    if total == 0 {
        100
    } else {
        (200 * part + total) / (2 * total)
    }
}

pub fn percent(part: u64, total: u64) -> (r: u64)
    requires
        part <= total,
        total <= 1000000,
    ensures
        r as nat == percent_spec(part as nat, total as nat),
{
    if total == 0 {
        100
    } else {
        (200 * part + total) / (2 * total)
    }
}

proof fn lemma_contains_self(p: Seq<char>)
    ensures
        contains_spec(p, p),
{
    assert(p.subrange(0, p.len() as int) =~= p);
    assert(occurs_at(p, p, 0));
}

proof fn lemma_contains_left(a: Seq<char>, b: Seq<char>, p: Seq<char>)
    requires
        contains_spec(a, p),
    ensures
        contains_spec(a + b, p),
{
    let i = choose|i: int| occurs_at(a, p, i);
    assert((a + b).subrange(i, i + p.len()) =~= a.subrange(i, i + p.len()));
    assert(occurs_at(a + b, p, i));
}

proof fn lemma_contains_right(a: Seq<char>, b: Seq<char>, p: Seq<char>)
    requires
        contains_spec(b, p),
    ensures
        contains_spec(a + b, p),
{
    let i = choose|i: int| occurs_at(b, p, i);
    assert((a + b).subrange(a.len() + i, a.len() + i + p.len()) =~= b.subrange(i, i + p.len()));
    assert(occurs_at(a + b, p, a.len() + i));
}

proof fn lemma_style_contains(v: Seq<char>, code: Seq<char>, use_color: bool, p: Seq<char>)
    requires
        contains_spec(v, p),
    ensures
        contains_spec(style_spec(v, code, use_color), p),
{
    if use_color {
        let pre = seq!['\x1b', '['] + code + seq!['m'];
        lemma_contains_right(pre, v, p);
        lemma_contains_left(pre + v, seq!['\x1b', '[', '0', 'm'], p);
        assert(style_spec(v, code, use_color) =~= (pre + v) + seq!['\x1b', '[', '0', 'm']);
    }
}

proof fn lemma_pad_contains(v: Seq<char>, width: nat)
    ensures
        contains_spec(pad_spec(v, width), v),
{
    lemma_contains_self(v);
    if v.len() < width {
        lemma_contains_left(v, Seq::new((width - v.len()) as nat, |i: int| ' '), v);
    }
}

/// Appends a line: a line break first unless `out` is empty.
fn push_line(out: &mut String, line: String)
    ensures
        forall|p: Seq<char>| contains_spec(old(out)@, p) ==> #[trigger] contains_spec(final(out)@, p),
        forall|p: Seq<char>| contains_spec(line@, p) ==> #[trigger] contains_spec(final(out)@, p),
{
    let ghost start = out@;
    if out.unicode_len() > 0 {
        push_char(out, '\n');
    }
    let ghost mid = out@;
    append_str(out, line.as_str());
    proof {
        assert forall|p: Seq<char>| contains_spec(start, p) implies #[trigger] contains_spec(out@, p) by {
            if start.len() > 0 {
                lemma_contains_left(start, seq!['\n'], p);
                assert(mid == start + seq!['\n']);
            }
            lemma_contains_left(mid, line@, p);
        }
        assert forall|p: Seq<char>| contains_spec(line@, p) implies #[trigger] contains_spec(out@, p) by {
            lemma_contains_right(mid, line@, p);
        }
    }
}

/// The support map as text: a title, registry coverage, and a table of
/// checks with their data needs and a yes/no cell per registry.
pub fn render_support_map(use_color: bool) -> (r: String)
    ensures
        contains_spec(r@, "safe-pkgs support map"@),
        contains_spec(r@, "Registry Coverage"@),
        contains_spec(r@, "Checks"@),
        contains_spec(r@, "npm"@),
        contains_spec(r@, "cargo"@),
        contains_spec(r@, "pypi"@),
{
    let rows = check_support_rows();
    let registry_keys = supported_package_registry_keys();
    let descriptors = check_descriptors();
    let mut out = String::new();
    let title = style("safe-pkgs support map", "1;36", use_color);
    proof {
        lemma_contains_self("safe-pkgs support map"@);
        lemma_style_contains("safe-pkgs support map"@, "1;36"@, use_color, "safe-pkgs support map"@);
    }
    push_line(&mut out, title);
    let mut counts = String::new();
    append_str(&mut counts, "checks: ");
    append_str(&mut counts, u64_text(descriptors.len() as u64).as_str());
    append_str(&mut counts, " | registries: ");
    append_str(&mut counts, u64_text(registry_keys.len() as u64).as_str());
    push_line(&mut out, counts);
    let mut legend = String::new();
    append_str(&mut legend, "legend: flags [W,A] where W=needs weekly downloads, A=needs advisories; ");
    append_str(&mut legend, style("yes", "32", use_color).as_str());
    append_str(&mut legend, "=supported, ");
    append_str(&mut legend, style("no", "31", use_color).as_str());
    append_str(&mut legend, "=unsupported");
    push_line(&mut out, legend);
    push_line(&mut out, String::new());
    let coverage_title = style("Registry Coverage", "1;36", use_color);
    proof {
        lemma_contains_self("Registry Coverage"@);
        lemma_style_contains("Registry Coverage"@, "1;36"@, use_color, "Registry Coverage"@);
    }
    push_line(&mut out, coverage_title);

    let total = descriptors.len();
    let mut r: usize = 0;
    while r < registry_keys.len()
        invariant
            r <= registry_keys@.len(),
            total == descriptors@.len(),
            total == 7,
            registry_keys@.map_values(|s: &str| s@) == seq!["npm"@, "cargo"@, "pypi"@],
            contains_spec(out@, "safe-pkgs support map"@),
            contains_spec(out@, "Registry Coverage"@),
            forall|x: int| 0 <= x < r ==> contains_spec(out@, (#[trigger] registry_keys@[x])@),
        decreases registry_keys@.len() - r,
    {
        let key = registry_keys[r];
        let mut supported_count: usize = 0;
        let mut unsupported = String::new();
        let mut d: usize = 0;
        while d < descriptors.len()
            invariant
                d <= descriptors@.len(),
                supported_count <= d,
                total == descriptors@.len(),
            decreases descriptors@.len() - d,
        {
            if is_supported_for_registry(&rows, key, descriptors[d].id) {
                supported_count = supported_count + 1;
            } else {
                if unsupported.unicode_len() > 0 {
                    append_str(&mut unsupported, ", ");
                }
                append_str(&mut unsupported, descriptors[d].key);
            }
            d = d + 1;
        }
        let pct = percent(supported_count as u64, total as u64);
        let mut coverage = String::new();
        append_str(&mut coverage, u64_text(supported_count as u64).as_str());
        push_char(&mut coverage, '/');
        append_str(&mut coverage, u64_text(total as u64).as_str());
        append_str(&mut coverage, " (");
        append_str(&mut coverage, u64_text(pct).as_str());
        append_str(&mut coverage, "%)");
        let mut line = String::new();
        append_str(&mut line, "  ");
        let padded_key = pad(key, 10);
        let styled_key = style(padded_key.as_str(), "1", use_color);
        let ghost l0 = line@;
        append_str(&mut line, styled_key.as_str());
        proof {
            lemma_pad_contains(key@, 10);
            lemma_style_contains(padded_key@, "1"@, use_color, key@);
            lemma_contains_right(l0, styled_key@, key@);
        }
        let ghost l1 = line@;
        push_char(&mut line, ' ');
        let code = if supported_count == total { "32" } else { "33" };
        let styled_cov = style(coverage.as_str(), code, use_color);
        proof {
            assert(line@ == l1 + seq![' ']);
            lemma_contains_left(l1, seq![' '], key@);
        }
        let ghost l2 = line@;
        append_str(&mut line, styled_cov.as_str());
        proof {
            lemma_contains_left(l2, styled_cov@, key@);
        }
        let ghost before_out = out@;
        push_line(&mut out, line);
        if unsupported.unicode_len() > 0 {
            let mut u = String::new();
            append_str(&mut u, "    unsupported: ");
            append_str(&mut u, style(unsupported.as_str(), "31", use_color).as_str());
            push_line(&mut out, u);
        }
        r = r + 1;
    }

    proof {
        let kv = registry_keys@.map_values(|s: &str| s@);
        assert(kv.len() == 3);
        assert(registry_keys@.len() == 3);
        assert(kv[0] == registry_keys@[0]@ && kv[1] == registry_keys@[1]@ && kv[2] == registry_keys@[2]@);
        assert(contains_spec(out@, registry_keys@[0]@));
        assert(contains_spec(out@, registry_keys@[1]@));
        assert(contains_spec(out@, registry_keys@[2]@));
    }
    push_line(&mut out, String::new());
    let checks_title = style("Checks", "1;36", use_color);
    proof {
        lemma_contains_self("Checks"@);
        lemma_style_contains("Checks"@, "1;36"@, use_color, "Checks"@);
    }
    push_line(&mut out, checks_title);

    let mut check_width: usize = 5;
    let mut d: usize = 0;
    while d < descriptors.len()
        invariant
            d <= descriptors@.len(),
            check_width <= 1000000,
        decreases descriptors@.len() - d,
    {
        let n = descriptors[d].key.unicode_len();
        if n > check_width && n <= 1000000 {
            check_width = n;
        }
        d = d + 1;
    }
    let flags_width: usize = 5;
    let mut header = String::new();
    append_str(&mut header, pad("check", check_width).as_str());
    append_str(&mut header, "  ");
    append_str(&mut header, pad("flags", flags_width).as_str());
    let mut r: usize = 0;
    while r < registry_keys.len()
        invariant
            r <= registry_keys@.len(),
        decreases registry_keys@.len() - r,
    {
        append_str(&mut header, "  ");
        let w = column_width(registry_keys[r]);
        append_str(&mut header, pad(registry_keys[r], w).as_str());
        r = r + 1;
    }
    append_str(&mut header, "  description");
    let header_len = header.unicode_len();
    push_line(&mut out, style(header.as_str(), "1;36", use_color));
    let mut rule = String::new();
    let mut k: usize = 0;
    while k < header_len
        invariant
            k <= header_len,
        decreases header_len - k,
    {
        push_char(&mut rule, '-');
        k = k + 1;
    }
    push_line(&mut out, rule);

    let mut d: usize = 0;
    while d < descriptors.len()
        invariant
            d <= descriptors@.len(),
            contains_spec(out@, "safe-pkgs support map"@),
            contains_spec(out@, "Registry Coverage"@),
            contains_spec(out@, "Checks"@),
            contains_spec(out@, "npm"@),
            contains_spec(out@, "cargo"@),
            contains_spec(out@, "pypi"@),
        decreases descriptors@.len() - d,
    {
        let desc = descriptors[d];
        let mut all = true;
        let mut r: usize = 0;
        while r < registry_keys.len()
            invariant
                r <= registry_keys@.len(),
            decreases registry_keys@.len() - r,
        {
            if !is_supported_for_registry(&rows, registry_keys[r], desc.id) {
                all = false;
            }
            r = r + 1;
        }
        let mut line = String::new();
        let name = pad(desc.key, check_width);
        append_str(&mut line, style(name.as_str(), if all { "1" } else { "1;33" }, use_color).as_str());
        append_str(&mut line, "  ");
        append_str(&mut line, render_flags(desc, flags_width, use_color).as_str());
        let mut r: usize = 0;
        while r < registry_keys.len()
            invariant
                r <= registry_keys@.len(),
            decreases registry_keys@.len() - r,
        {
            append_str(&mut line, "  ");
            let supported = is_supported_for_registry(&rows, registry_keys[r], desc.id);
            let w = column_width(registry_keys[r]);
            append_str(&mut line, support_cell(supported, w, use_color).as_str());
            r = r + 1;
        }
        append_str(&mut line, "  ");
        append_str(&mut line, desc.description);
        push_line(&mut out, line);
        d = d + 1;
    }
    out
}

/// Width of a registry column: the key, and at least `yes`.
fn column_width(key: &str) -> (r: usize)
    ensures
        r >= 3,
{
    let n = key.unicode_len();
    if n < 3 {
        3
    } else {
        n
    }
}

} // verus!
