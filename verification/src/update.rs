//! Release versions and the update check's decision.

use vstd::prelude::*;
use crate::json::{parse_json, parsed, Json};
use crate::number::{all_digits, digits_value, is_digit, parse_u32, parse_u32_at};
use crate::text::{
    chars_of, eq_char, find_either, is_white_space, leading_count, lemma_leading_count_append,
    lemma_leading_count_props, lemma_trailing_count_prepend, lemma_trailing_count_props,
    neither_char, skip_char,
    string_from_chars, trailing_count, trim, trim_bounds, white_space,
};

verus! {

/// The text before the first `.` (all of it when there is none).
pub open spec fn piece(s: Seq<char>) -> Seq<char> {
    s.take(leading_count(s, neither_char('.', '.')) as int)
}

/// The text after the first `.`, when there is one.
pub open spec fn after_piece(s: Seq<char>) -> Option<Seq<char>> {
    let k = leading_count(s, neither_char('.', '.'));
    if k < s.len() {
        Some(s.skip(k + 1int))
    } else {
        None
    }
}

/// The numeric core of a version tag: trimmed, leading `v`s dropped, and cut
/// at the first `-` or `+` (pre-release and build suffixes).
pub open spec fn version_core(s: Seq<char>) -> Seq<char> {
    let t = trim(s);
    let u = t.skip(leading_count(t, eq_char('v')) as int);
    u.take(leading_count(u, neither_char('-', '+')) as int)
}

/// `(major, minor, patch)` of a version tag. Each number parses as
/// `u32::from_str` on one dot-separated piece; a missing minor or patch piece
/// counts as 0, and pieces after the third are ignored.
pub open spec fn spec_parse_version(s: Seq<char>) -> Option<(u32, u32, u32)> {
    let core = version_core(s);
    let major = parse_u32(piece(core));
    let minor = match after_piece(core) {
        None => Some(0int),
        Some(r) => parse_u32(piece(r)),
    };
    let patch = match after_piece(core) {
        None => Some(0int),
        Some(r) => match after_piece(r) {
            None => Some(0int),
            Some(r2) => parse_u32(piece(r2)),
        },
    };
    match (major, minor, patch) {
        (Some(a), Some(b), Some(c)) => Some((a as u32, b as u32, c as u32)),
        _ => None,
    }
}

/// Parses `"v1.4.0"`, `"1.4"`, `"2.0.0-beta"` into `(major, minor, patch)`.
pub fn parse_version(s: &str) -> (r: Option<(u32, u32, u32)>)
    ensures
        r == spec_parse_version(s@),
{
    let v = chars_of(s);
    let (a, b) = trim_bounds(&v);
    let ghost t = trim(s@);
    let i = skip_char(&v, a, b, 'v');
    assert(t.skip(leading_count(t, eq_char('v')) as int) =~= v@.subrange(i as int, b as int));
    let e = find_either(&v, i, b, '-', '+');
    let ghost core = version_core(s@);
    assert(core =~= v@.subrange(i as int, e as int));
    let k1 = find_either(&v, i, e, '.', '.');
    assert(piece(core) =~= v@.subrange(i as int, k1 as int));
    let major = parse_u32_at(&v, i, k1);
    let major = match major {
        None => return None,
        Some(x) => x,
    };
    if k1 == e {
        return Some((major, 0, 0));
    }
    let ghost r = v@.subrange(k1 + 1, e as int);
    assert(after_piece(core) == Some(r)) by {
        assert(core.skip(k1 - i + 1) =~= r);
    }
    let k2 = find_either(&v, k1 + 1, e, '.', '.');
    assert(piece(r) =~= v@.subrange(k1 + 1, k2 as int));
    let minor = match parse_u32_at(&v, k1 + 1, k2) {
        None => return None,
        Some(x) => x,
    };
    if k2 == e {
        return Some((major, minor, 0));
    }
    let ghost r2 = v@.subrange(k2 + 1, e as int);
    assert(after_piece(r) == Some(r2)) by {
        assert(r.skip(k2 - k1) =~= r2);
    }
    let k3 = find_either(&v, k2 + 1, e, '.', '.');
    assert(piece(r2) =~= v@.subrange(k2 + 1, k3 as int));
    let patch = match parse_u32_at(&v, k2 + 1, k3) {
        None => return None,
        Some(x) => x,
    };
    Some((major, minor, patch))
}

/// A newer release than the running build.
pub struct UpdateInfo {
    /// Version without the leading `v` (e.g. `"1.5.0"`).
    pub version: String,
    /// Release page to open in the browser.
    pub url: String,
}

/// `a > b` in the order of `(major, minor, patch)` tuples.
pub open spec fn version_gt(a: (u32, u32, u32), b: (u32, u32, u32)) -> bool {
    a.0 > b.0 || (a.0 == b.0 && (a.1 > b.1 || (a.1 == b.1 && a.2 > b.2)))
}

pub fn version_gt_exec(a: (u32, u32, u32), b: (u32, u32, u32)) -> (r: bool)
    ensures
        r == version_gt(a, b),
{
    a.0 > b.0 || (a.0 == b.0 && (a.1 > b.1 || (a.1 == b.1 && a.2 > b.2)))
}

/// `str::trim_start_matches('v')`.
pub open spec fn strip_v(s: Seq<char>) -> Seq<char> {
    s.skip(leading_count(s, eq_char('v')) as int)
}

/// The update that a latest-release record announces to a build of version
/// `current`: `(version, url)` when its `tag_name` parses to a version newer
/// than `current`; the version is the tag without leading `v`s, the url is
/// its `html_url` or else `fallback_page`.
pub open spec fn spec_update_from_release(body: Json, current: Seq<char>, fallback_page: Seq<
    char,
>) -> Option<
    (Seq<char>, Seq<char>),
> {
    match body.spec_get_str("tag_name"@) {
        None => None,
        Some(tag) => match (spec_parse_version(tag), spec_parse_version(current)) {
            (Some(latest), Some(cur)) => if version_gt(latest, cur) {
                Some(
                    (
                        strip_v(tag),
                        match body.spec_get_str("html_url"@) {
                            Some(u) => u,
                            None => fallback_page,
                        },
                    ),
                )
            } else {
                None
            },
            _ => None,
        },
    }
}

/// Decides the update check from the latest-release record and the running
/// build's version; `fallback_page` is the releases page to open when the
/// record names none.
pub fn update_from_release(body: &Json, current: &str, fallback_page: &str) -> (r: Option<
    UpdateInfo,
>)
    ensures
        match r {
            Some(u) => spec_update_from_release(*body, current@, fallback_page@) == Some(
                (u.version@, u.url@),
            ),
            None => spec_update_from_release(*body, current@, fallback_page@) is None,
        },
{
    let tag = match body.get_str("tag_name") {
        None => return None,
        Some(t) => t,
    };
    let latest = match parse_version(tag.as_str()) {
        None => return None,
        Some(v) => v,
    };
    let cur = match parse_version(current) {
        None => return None,
        Some(v) => v,
    };
    if !version_gt_exec(latest, cur) {
        return None;
    }
    let url = match body.get_str("html_url") {
        Some(u) => u.clone(),
        None => String::from_str(fallback_page),
    };
    let v = chars_of(tag.as_str());
    let i = skip_char(&v, 0, v.len(), 'v');
    assert(v@.subrange(0, v@.len() as int) =~= v@);
    let version = string_from_chars(&v, i, v.len());
    assert(version@ =~= strip_v(tag@));
    Some(UpdateInfo { version, url })
}

/// Equal versions are never announced as an update, nor older ones: an
/// announced release parses to a version strictly newer than the build's.
pub proof fn lemma_update_only_when_newer(body: Json, current: Seq<char>, page: Seq<char>)
    requires
        spec_update_from_release(body, current, page) is Some,
    ensures
        body.spec_get_str("tag_name"@) matches Some(tag) && spec_parse_version(tag) matches Some(
            latest,
        ) && spec_parse_version(current) matches Some(cur) && version_gt(latest, cur),
{
}

/// The order on versions is strict: no version is newer than itself.
pub proof fn lemma_version_gt_irreflexive(a: (u32, u32, u32))
    ensures
        !version_gt(a, a),
{
}

/// A leading `v` does not change a version: `"v1.4.0"` is `"1.4.0"`.
pub proof fn lemma_v_prefix(s: Seq<char>)
    requires
        s.len() == 0 || !is_white_space(s[0]),
    ensures
        spec_parse_version(seq!['v'] + s) == spec_parse_version(s),
{
    let vs = seq!['v'] + s;
    let ws = white_space();
    // Neither text has leading white space.
    assert(leading_count(vs, ws) == 0);
    assert(leading_count(s, ws) == 0);
    assert(vs.skip(0) =~= vs);
    assert(s.skip(0) =~= s);
    // The trailing white space is the same.
    lemma_trailing_count_props(s, ws);
    if s.len() > 0 {
        if trailing_count(s, ws) == s.len() {
            assert(ws(s[0]));
        }
    }
    lemma_trailing_count_prepend(seq!['v'], s, ws);
    let k = trailing_count(s, ws) as int;
    assert(trim(vs) =~= seq!['v'] + trim(s)) by {
        assert(vs.take(vs.len() - k) =~= seq!['v'] + s.take(s.len() - k));
    }
    // Dropping the leading `v`s reaches the same text.
    let t = trim(s);
    let tv = seq!['v'] + t;
    assert(tv.drop_first() =~= t);
    assert(leading_count(tv, eq_char('v')) == 1 + leading_count(t, eq_char('v')));
    lemma_leading_count_props(t, eq_char('v'));
    assert(tv.skip(leading_count(tv, eq_char('v')) as int) =~= t.skip(
        leading_count(t, eq_char('v')) as int,
    ));
}

/// Pre-release and build suffixes are dropped: `c + "-" + x` and
/// `c + "+" + x` parse as `c` does, for a trimmed `c` without `-` or `+`.
pub proof fn lemma_suffix_ignored(c: Seq<char>, sep: char, x: Seq<char>)
    requires
        sep == '-' || sep == '+',
        c.len() > 0,
        !is_white_space(c[0]),
        !is_white_space(c.last()),
        forall|i: int| 0 <= i < c.len() ==> #[trigger] c[i] != '-' && c[i] != '+',
        x.len() == 0 || !is_white_space(x.last()),
    ensures
        spec_parse_version(c + (seq![sep] + x)) == spec_parse_version(c),
{
    let w = seq![sep] + x;
    let cw = c + w;
    let ws = white_space();
    // Both texts are their own trim.
    crate::time_util::lemma_trim_plain(c);
    assert(cw[0] == c[0]);
    if x.len() == 0 {
        assert(cw.last() == sep);
    } else {
        assert(cw.last() == x.last());
    }
    crate::time_util::lemma_trim_plain(cw);
    // The same leading `v`s are dropped.
    let vp = eq_char('v');
    lemma_leading_count_append(c, w, vp);
    let n = leading_count(c, vp) as int;
    lemma_leading_count_props(c, vp);
    let u = c.skip(n);
    assert(cw.skip(n) =~= u + w);
    // The cut at the first `-` or `+` falls at the end of `u`.
    let sp = neither_char('-', '+');
    assert forall|j: int| 0 <= j < u.len() implies sp(#[trigger] u[j]) by {
        assert(u[j] == c[n + j]);
    }
    crate::text::lemma_leading_count(u, sp, u.len() as int);
    lemma_leading_count_append(u, w, sp);
    assert((u + w).take(u.len() as int) =~= u);
    assert(u.take(u.len() as int) =~= u);
}


/// The update announced by a latest-release response's JSON text; `None`
/// also when the text is not JSON.
pub fn update_from_release_text(body: &str, current: &str, fallback_page: &str) -> (r: Option<
    UpdateInfo,
>)
    ensures
        match r {
            Some(u) => parsed(body@) matches Some(v) && spec_update_from_release(
                v,
                current@,
                fallback_page@,
            ) == Some((u.version@, u.url@)),
            None => parsed(body@) matches Some(v) ==> spec_update_from_release(
                v,
                current@,
                fallback_page@,
            ) is None,
        },
{
    match parse_json(body) {
        Ok(v) => update_from_release(&v, current, fallback_page),
        Err(_) => None,
    }
}


/// Versions are ordered as a whole: of two different versions exactly one is
/// newer, and "newer" is transitive.
pub proof fn lemma_version_order_total(a: (u32, u32, u32), b: (u32, u32, u32), c: (u32, u32, u32))
    ensures
        a != b ==> (version_gt(a, b) != version_gt(b, a)),
        !(version_gt(a, b) && version_gt(b, a)),
        version_gt(a, b) && version_gt(b, c) ==> version_gt(a, c),
{
}

/// Each part of a version counts, the earlier part first: a greater major
/// wins whatever follows, a greater minor wins under an equal major, and a
/// greater patch wins under equal major and minor.
pub proof fn lemma_version_parts_count(a: (u32, u32, u32), b: (u32, u32, u32))
    ensures
        a.0 > b.0 ==> version_gt(a, b),
        a.0 == b.0 && a.1 > b.1 ==> version_gt(a, b),
        a.0 == b.0 && a.1 == b.1 && a.2 > b.2 ==> version_gt(a, b),
        a.0 == b.0 && a.1 == b.1 && a.2 == b.2 ==> !version_gt(a, b),
{
}

/// A release that parses to a greater version than the build's, in any of
/// its parts, is announced, with the tag's version text.
pub proof fn lemma_newer_release_announced(body: Json, current: Seq<char>, page: Seq<char>)
    requires
        body.spec_get_str("tag_name"@) matches Some(tag) && spec_parse_version(tag) matches Some(
            latest,
        ) && spec_parse_version(current) matches Some(cur) && (latest.0 > cur.0 || (latest.0
            == cur.0 && latest.1 > cur.1) || (latest.0 == cur.0 && latest.1 == cur.1 && latest.2
            > cur.2)),
    ensures
        spec_update_from_release(body, current, page) matches Some((v, _)) && v == strip_v(
            body.spec_get_str("tag_name"@)->0,
        ),
{
    let tag = body.spec_get_str("tag_name"@)->0;
    lemma_version_parts_count(spec_parse_version(tag)->0, spec_parse_version(current)->0);
}


/// A version written `A.B.C` in decimal digits is `(A, B, C)`: the first
/// number is the major, the second the minor, the third the patch.
pub proof fn lemma_dotted_version(a: Seq<char>, b: Seq<char>, c: Seq<char>)
    requires
        a.len() > 0 && b.len() > 0 && c.len() > 0,
        all_digits(a) && all_digits(b) && all_digits(c),
        digits_value(a) <= u32::MAX && digits_value(b) <= u32::MAX && digits_value(c) <= u32::MAX,
    ensures
        spec_parse_version(a + seq!['.'] + b + seq!['.'] + c) == Some(
            (digits_value(a) as u32, digits_value(b) as u32, digits_value(c) as u32),
        ),
{
    let bc = b + seq!['.'] + c;
    let s = a + seq!['.'] + bc;
    assert(a + seq!['.'] + b + seq!['.'] + c =~= s);
    assert(s[0] == a[0]);
    assert(s.last() == c.last());
    assert(is_digit(a[0]));
    assert(is_digit(c[c.len() - 1]));
    crate::time_util::lemma_trim_plain(s);
    // No leading `v`, no `-` or `+` suffix: the core is the whole text.
    crate::text::lemma_leading_count(s, eq_char('v'), 0);
    assert(s.skip(0) =~= s);
    let sp = neither_char('-', '+');
    assert forall|j: int| 0 <= j < s.len() implies sp(#[trigger] s[j]) by {
        if j < a.len() {
            assert(s[j] == a[j]);
        } else if j > a.len() && j < a.len() + 1 + b.len() {
            assert(s[j] == b[j - a.len() - 1]);
        } else if j > a.len() + 1 + b.len() {
            assert(s[j] == c[j - a.len() - 2 - b.len()]);
        }
    }
    crate::text::lemma_leading_count(s, sp, s.len() as int);
    assert(s.take(s.len() as int) =~= s);
    assert(version_core(s) == s);
    // The pieces between the dots.
    let dot = neither_char('.', '.');
    assert forall|j: int| 0 <= j < a.len() implies dot(#[trigger] s[j]) by {
        assert(s[j] == a[j]);
    }
    crate::text::lemma_leading_count(s, dot, a.len() as int);
    assert(piece(s) =~= a);
    assert(s.skip(a.len() + 1int) =~= bc);
    assert forall|j: int| 0 <= j < b.len() implies dot(#[trigger] bc[j]) by {
        assert(bc[j] == b[j]);
    }
    crate::text::lemma_leading_count(bc, dot, b.len() as int);
    assert(piece(bc) =~= b);
    assert(bc.skip(b.len() + 1int) =~= c);
    assert forall|j: int| 0 <= j < c.len() implies dot(#[trigger] c[j]) by {
        assert(is_digit(c[j]));
    }
    crate::text::lemma_leading_count(c, dot, c.len() as int);
    assert(piece(c) =~= c);
    assert(is_digit(b[0]));
}

} // verus!
