//! Release versions: date-based tags `vYYYY.MM.DD.<revision>`, the header
//! version string, and the first-launch gate.
use crate::num::{
    all_digits, decimal, lemma_decimal_len, lemma_decimal_parses, lemma_leading_zero, decimal_pad2, decimal_padded, parse_unsigned, parse_unsigned_chars, push_decimal};
use crate::text::{
    chars_of, copy_str, is_ws, lemma_split_on_concat, lemma_split_on_no_sep, split_chars, split_on, string_of, strip_leading, strip_leading_chars, trim,
    trim_chars, trim_end, trim_start, views,
};
use vstd::prelude::*;

verus! {

/// A parsed release tag: (year, month, day, revision).
pub type Version = (u32, u32, u32, u32);

pub open spec fn parse_u32_spec(s: Seq<char>) -> Option<u32> {
    match parse_unsigned(s, u32::MAX as nat) {
        Some(v) => Some(v as u32),
        None => None,
    }
}

/// What `parse_version` returns for the characters `v`.
pub open spec fn version_of(v: Seq<char>) -> Option<Version> {
    let s = strip_leading(trim(v), 'v');
    let p = split_on(s, '.');
    if p.len() != 4 {
        None
    } else {
        match (parse_u32_spec(p[0]), parse_u32_spec(p[1]), parse_u32_spec(p[2]), parse_u32_spec(p[3])) {
            (Some(a), Some(b), Some(c), Some(d)) => Some((a, b, c, d)),
            _ => None,
        }
    }
}

/// Lexicographic order on version tuples.
pub open spec fn version_lt(a: Version, b: Version) -> bool {
    ||| a.0 < b.0
    ||| (a.0 == b.0 && a.1 < b.1)
    ||| (a.0 == b.0 && a.1 == b.1 && a.2 < b.2)
    ||| (a.0 == b.0 && a.1 == b.1 && a.2 == b.2 && a.3 < b.3)
}

/// `latest` is strictly newer than `current`; anything unparseable is never newer.
pub open spec fn newer(latest: Seq<char>, current: Seq<char>) -> bool {
    match (version_of(latest), version_of(current)) {
        (Some(l), Some(c)) => version_lt(c, l),
        _ => false,
    }
}

fn parse_u32_exec(s: &[char]) -> (r: Option<u32>)
    ensures
        r == parse_u32_spec(s@),
{
    parse_unsigned_chars(s, u32::MAX)
}

/// Parse `v2026.08.12.3` (or `2026.08.12.3`) into comparable parts.
/// Returns None for anything that isn't a date-based release tag.
pub fn parse_version(v: &str) -> (r: Option<(u32, u32, u32, u32)>)
    ensures
        r == version_of(v@),
{
    let cs = chars_of(v);
    let t = trim_chars(cs.as_slice());
    let s = strip_leading_chars(t.as_slice(), 'v');
    let parts = split_chars(s.as_slice(), '.');
    proof {
        assert(views(parts@).len() == parts@.len());
    }
    if parts.len() != 4 {
        return None;
    }
    proof {
        assert(forall|k: int| 0 <= k < 4 ==> #[trigger] views(parts@)[k] == parts@[k]@);
    }
    let year = match parse_u32_exec(parts[0].as_slice()) {
        Some(x) => x,
        None => return None,
    };
    let month = match parse_u32_exec(parts[1].as_slice()) {
        Some(x) => x,
        None => return None,
    };
    let day = match parse_u32_exec(parts[2].as_slice()) {
        Some(x) => x,
        None => return None,
    };
    let rev = match parse_u32_exec(parts[3].as_slice()) {
        Some(x) => x,
        None => return None,
    };
    Some((year, month, day, rev))
}

fn version_less(a: (u32, u32, u32, u32), b: (u32, u32, u32, u32)) -> (r: bool)
    ensures
        r == version_lt(a, b),
{
    if a.0 != b.0 {
        a.0 < b.0
    } else if a.1 != b.1 {
        a.1 < b.1
    } else if a.2 != b.2 {
        a.2 < b.2
    } else {
        a.3 < b.3
    }
}

/// True when `latest` is strictly newer than `current` (date-scheme compare).
pub fn is_newer(latest: &str, current: &str) -> (r: bool)
    ensures
        r == newer(latest@, current@),
{
    match (parse_version(latest), parse_version(current)) {
        (Some(l), Some(c)) => version_less(c, l),
        _ => false,
    }
}

/// Nothing is newer than itself.
pub proof fn law_is_newer_irreflexive(v: Seq<char>)
    ensures
        !newer(v, v),
{
}

/// Of two tags at most one is newer than the other.
pub proof fn law_is_newer_asymmetric(a: Seq<char>, b: Seq<char>)
    ensures
        newer(a, b) ==> !newer(b, a),
{
}

/// Newer-than chains: if `a` is newer than `b` and `b` newer than `c`, then
/// `a` is newer than `c`.
pub proof fn law_is_newer_transitive(a: Seq<char>, b: Seq<char>, c: Seq<char>)
    ensures
        newer(a, b) && newer(b, c) ==> newer(a, c),
{
}

/// Tags are ordered by date, then revision: a later year is newer; in the
/// same year a later month is newer whatever the days and revisions; in the
/// same month a later day; on the same day a higher revision; the same
/// date and revision is not newer.
pub proof fn law_is_newer_orders_by_date(a: Seq<char>, b: Seq<char>)
    requires
        version_of(a).is_some(),
        version_of(b).is_some(),
    ensures
        ({
            let (y1, m1, d1, r1) = version_of(a)->0;
            let (y2, m2, d2, r2) = version_of(b)->0;
            &&& y1 > y2 ==> newer(a, b)
            &&& y1 == y2 && m1 > m2 ==> newer(a, b)
            &&& y1 == y2 && m1 == m2 && d1 > d2 ==> newer(a, b)
            &&& y1 == y2 && m1 == m2 && d1 == d2 && r1 > r2 ==> newer(a, b)
            &&& y1 == y2 && m1 == m2 && d1 == d2 && r1 == r2 ==> !newer(a, b)
        }),
{
}

/// Fail closed: a tag that does not parse is never newer, and nothing is
/// newer than a tag that does not parse.
pub proof fn law_unparseable_never_newer(a: Seq<char>, b: Seq<char>)
    requires
        version_of(a).is_none() || version_of(b).is_none(),
    ensures
        !newer(a, b),
{
}

// ── header version ─────────────────────────────────────────────────────────

/// What `format_version` returns: a `YYYY.M.D` Cargo version with a plausible
/// date becomes `YYYY.MM.DD.0`; anything else is returned unchanged.
pub open spec fn formatted_version(v: Seq<char>) -> Seq<char> {
    let p = split_on(v, '.');
    if p.len() != 3 {
        v
    } else {
        match (parse_u32_spec(p[0]), parse_u32_spec(p[1]), parse_u32_spec(p[2])) {
            (Some(y), Some(m), Some(d)) => if 2000 <= y <= 2999 && 1 <= m <= 12 && 1 <= d <= 31 {
                date_tag(y as nat, m as nat, d as nat)
            } else {
                v
            },
            _ => v,
        }
    }
}

/// `{y}.{m:02}.{d:02}.0`
pub open spec fn date_tag(y: nat, m: nat, d: nat) -> Seq<char> {
    decimal(y) + seq!['.'] + decimal_padded(m, 2) + seq!['.'] + decimal_padded(d, 2) + seq![
        '.',
        '0',
    ]
}

/// Pure formatter for the header version. Cargo requires valid semver (no
/// leading zeros), so `2026.8.12` becomes the user-facing `2026.08.12.0`.
pub fn format_version(v: &str) -> (res: String)
    ensures
        res@ == formatted_version(v@),
{
    let cs = chars_of(v);
    let parts = split_chars(cs.as_slice(), '.');
    proof {
        assert(views(parts@).len() == parts@.len());
    }
    if parts.len() != 3 {
        return copy_str(v);
    }
    proof {
        assert(forall|k: int| 0 <= k < 3 ==> #[trigger] views(parts@)[k] == parts@[k]@);
    }
    let y = parse_u32_exec(parts[0].as_slice());
    let m = parse_u32_exec(parts[1].as_slice());
    let d = parse_u32_exec(parts[2].as_slice());
    match (y, m, d) {
        (Some(y), Some(m), Some(d)) => {
            if 2000 <= y && y <= 2999 && 1 <= m && m <= 12 && 1 <= d && d <= 31 {
                let mut out: Vec<char> = Vec::new();
                push_decimal(&mut out, y as u64);
                out.push('.');
                let mm = decimal_pad2(m as u64);
                let mut k: usize = 0;
                let ghost base = out@;
                while k < mm.len()
                    invariant
                        k <= mm@.len(),
                        out@ == base + mm@.take(k as int),
                    decreases mm@.len() - k,
                {
                    out.push(mm[k]);
                    assert(mm@.take(k + 1) =~= mm@.take(k as int).push(mm@[k as int]));
                    k = k + 1;
                }
                assert(mm@.take(mm@.len() as int) =~= mm@);
                out.push('.');
                let dd = decimal_pad2(d as u64);
                let ghost base2 = out@;
                k = 0;
                while k < dd.len()
                    invariant
                        k <= dd@.len(),
                        out@ == base2 + dd@.take(k as int),
                    decreases dd@.len() - k,
                {
                    out.push(dd[k]);
                    assert(dd@.take(k + 1) =~= dd@.take(k as int).push(dd@[k as int]));
                    k = k + 1;
                }
                assert(dd@.take(dd@.len() as int) =~= dd@);
                out.push('.');
                out.push('0');
                assert(out@ =~= date_tag(y as nat, m as nat, d as nat));
                string_of(out.as_slice())
            } else {
                copy_str(v)
            }
        },
        _ => copy_str(v),
    }
}

/// Version string for the TUI header: the exact git tag (`built`, embedded
/// at build time) without its leading `v`s, or when no tag was embedded, the
/// package version (`pkg_version`) through `format_version`.
pub fn matrix_version_display(built: &str, pkg_version: &str) -> (res: String)
    ensures
        res@ == (if built@.len() == 0 {
            formatted_version(pkg_version@)
        } else {
            strip_leading(built@, 'v')
        }),
{
    let b = chars_of(built);
    if b.len() == 0 {
        return format_version(pkg_version);
    }
    let s = strip_leading_chars(b.as_slice(), 'v');
    string_of(s.as_slice())
}

/// Whether the first-launch welcome should auto-show: the user has never been
/// shown it. Projects do NOT suppress it — the saved flag is the only gate.
pub fn needs_onboarding(onboarded: bool) -> (r: bool)
    ensures
        r == !onboarded,
{
    !onboarded
}

proof fn lemma_padded_parses(m: nat)
    requires
        m < 100,
    ensures
        parse_u32_spec(decimal_padded(m, 2)) == Some(m as u32),
        forall|i: int|
            0 <= i < decimal_padded(m, 2).len() ==> '0' <= #[trigger] decimal_padded(m, 2)[i]
                <= '9',
        decimal_padded(m, 2).len() == 2,
{
    lemma_decimal_parses(m);
    lemma_decimal_len(m);
    let p = decimal_padded(m, 2);
    if m < 10 {
        assert(Seq::new(1, |i: int| '0') =~= seq!['0']);
        assert(p == seq!['0'] + decimal(m));
        lemma_leading_zero(decimal(m));
    }
    assert(all_digits(p));
}

proof fn lemma_digits_no_dot(s: Seq<char>)
    requires
        all_digits(s),
    ensures
        forall|i: int| 0 <= i < s.len() ==> #[trigger] s[i] != '.',
{
    assert forall|i: int| 0 <= i < s.len() implies #[trigger] s[i] != '.' by {
        assert(crate::num::is_digit(s[i]));
    }
}

/// The header version made from a plausible date reads back, through the
/// update check's parser, as that date with revision 0.
pub proof fn law_date_tag_parses(y: u32, m: u32, d: u32)
    requires
        2000 <= y <= 2999,
        1 <= m <= 12,
        1 <= d <= 31,
    ensures
        version_of(date_tag(y as nat, m as nat, d as nat)) == Some((y, m, d, 0u32)),
{
    let dy = decimal(y as nat);
    let dm = decimal_padded(m as nat, 2);
    let dd = decimal_padded(d as nat, 2);
    let z = seq!['0'];
    let t = date_tag(y as nat, m as nat, d as nat);
    lemma_decimal_parses(y as nat);
    lemma_padded_parses(m as nat);
    lemma_padded_parses(d as nat);
    lemma_decimal_parses(0);
    assert(decimal(0) =~= z);
    assert(t =~= dy + seq!['.'] + (dm + seq!['.'] + (dd + seq!['.'] + z)));
    // no surrounding whitespace, no leading `v`
    assert(crate::num::is_digit(t[0]));
    assert(!is_ws(t[0]));
    assert(trim_start(t) == t);
    assert(t.last() == '0');
    assert(trim_end(t) == t);
    assert(strip_leading(t, 'v') == t);
    // the four pieces
    lemma_digits_no_dot(dy);
    lemma_digits_no_dot(dm);
    lemma_digits_no_dot(dd);
    assert(all_digits(dm));
    assert(all_digits(dd));
    lemma_split_on_no_sep(dy, '.');
    lemma_split_on_no_sep(dm, '.');
    lemma_split_on_no_sep(dd, '.');
    lemma_split_on_no_sep(z, '.');
    lemma_split_on_concat(dd, '.', z);
    lemma_split_on_concat(dm, '.', dd + seq!['.'] + z);
    lemma_split_on_concat(dy, '.', dm + seq!['.'] + (dd + seq!['.'] + z));
    let p = split_on(t, '.');
    assert(p =~= seq![dy, dm, dd, z]);
    assert(parse_u32_spec(z) == Some(0u32)) by {
        assert(z.drop_last() =~= Seq::<char>::empty());
        assert(crate::num::digits_value(Seq::<char>::empty()) == 0);
    }
}

} // verus!
