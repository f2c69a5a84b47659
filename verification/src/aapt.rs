//! Parser for the textual output of `aapt dump badging <apk>`.
//!
//! This is the primary, version-robust way to read an APK manifest: decoding
//! is delegated to Google's own `aapt`/`aapt2` tool, which understands both
//! AAPT1 and AAPT2 binary XML. The format is line oriented; each record is
//! `record-type: key='value' key='value' ...`, with a few records
//! (`sdkVersion`, `targetSdkVersion`, ...) carrying a single bare quoted value.

use vstd::prelude::*;
use crate::attrs::{attr_get, attr_push, kv_get, AttrsView};
use crate::manifest::{
    empty_manifest, push_component, push_permission, ApkManifest, Component, ComponentView,
    ManifestView, Permission, PermissionView,
};
use crate::text::{
    chars_of, is_ascii_ws, is_unicode_ws, string_of, parse_bool_spec, parse_bool_str, parse_u32_spec, parse_u32_str, trim,
    trim_range,
};

verus! {

// ---------------------------------------------------------------------------
// Specification
// ---------------------------------------------------------------------------

/// The first index at or after `i` where `b` holds `c`, or `b.len()`.
pub open spec fn find_char(b: Seq<char>, i: int, c: char) -> int
    decreases b.len() - i,
{
    if i >= b.len() {
        b.len() as int
    } else if b[i] == c {
        i
    } else {
        find_char(b, i + 1, c)
    }
}

/// The first index at or after `i` where `b` holds ASCII whitespace, or `b.len()`.
pub open spec fn find_ascii_ws(b: Seq<char>, i: int) -> int
    decreases b.len() - i,
{
    if i >= b.len() {
        b.len() as int
    } else if is_ascii_ws(b[i]) {
        i
    } else {
        find_ascii_ws(b, i + 1)
    }
}

pub proof fn lemma_find_char_bounds(b: Seq<char>, i: int, c: char)
    requires
        0 <= i <= b.len(),
    ensures
        i <= find_char(b, i, c) <= b.len(),
        find_char(b, i, c) < b.len() ==> b[find_char(b, i, c)] == c,
    decreases b.len() - i,
{
    if i < b.len() && b[i] != c {
        lemma_find_char_bounds(b, i + 1, c);
    }
}

pub proof fn lemma_find_ascii_ws_bounds(b: Seq<char>, i: int)
    requires
        0 <= i <= b.len(),
    ensures
        i <= find_ascii_ws(b, i) <= b.len(),
    decreases b.len() - i,
{
    if i < b.len() && !is_ascii_ws(b[i]) {
        lemma_find_ascii_ws_bounds(b, i + 1);
    }
}

/// The `key=value` pairs of a record body, read left to right from index `i`.
/// A value is either quoted (`key='...'`, running to the next quote or to the
/// end) or bare (running to the next ASCII whitespace). A bare `'value'`
/// with no key is stepped over whole, so the pair after it keeps its key;
/// spaces and stray `=` between pairs are skipped; keys are trimmed.
pub open spec fn kv_scan(b: Seq<char>, i: int) -> AttrsView
    decreases b.len() + 1 - i,
{
    if i < 0 || i >= b.len() {
        Seq::empty()
    } else if b[i] == '\'' {
        let q = find_char(b, i + 1, '\'');
        proof {
            lemma_find_char_bounds(b, i + 1, '\'');
        }
        kv_scan(b, q + 1)
    } else if b[i] == ' ' || b[i] == '=' {
        kv_scan(b, i + 1)
    } else {
        let e = find_char(b, i, '=');
        proof {
            lemma_find_char_bounds(b, i, '=');
        }
        if e >= b.len() {
            Seq::empty()
        } else {
            let key = trim(b.subrange(i, e));
            let j = e + 1;
            if j < b.len() && b[j] == '\'' {
                let q = find_char(b, j + 1, '\'');
                proof {
                    lemma_find_char_bounds(b, j + 1, '\'');
                }
                seq![(key, b.subrange(j + 1, q))] + kv_scan(b, q + 1)
            } else {
                let w = find_ascii_ws(b, j);
                proof {
                    lemma_find_ascii_ws_bounds(b, j);
                }
                seq![(key, b.subrange(j, w))] + kv_scan(b, w)
            }
        }
    }
}

/// The attributes of a record body.
pub open spec fn parse_kv_spec(body: Seq<char>) -> AttrsView {
    kv_scan(body, 0)
}

/// The first bare `'quoted'` value of a body (to the closing quote or the end).
pub open spec fn first_quoted_spec(body: Seq<char>) -> Option<Seq<char>> {
    let q = find_char(body, 0, '\'');
    if q >= body.len() {
        None
    } else {
        Some(body.subrange(q + 1, find_char(body, q + 1, '\'')))
    }
}

pub open spec fn or_empty(o: Option<Seq<char>>) -> Seq<char> {
    match o {
        Some(s) => s,
        None => Seq::empty(),
    }
}

pub open spec fn parse_opt_u32(o: Option<Seq<char>>) -> Option<u32> {
    match o {
        Some(s) => parse_u32_spec(s),
        None => None,
    }
}

pub open spec fn parse_opt_bool(o: Option<Seq<char>>) -> Option<bool> {
    match o {
        Some(s) => parse_bool_spec(s),
        None => None,
    }
}

/// A component described by a badging record: badging never reports `enabled`.
pub open spec fn badging_component(kv: AttrsView) -> ComponentView {
    ComponentView {
        name: or_empty(kv_get(kv, "name"@)),
        exported: parse_opt_bool(kv_get(kv, "exported"@)),
        enabled: None,
        permission: kv_get(kv, "permission"@),
    }
}

/// The effect of one record `record: body` on the manifest read so far.
pub open spec fn apply_record(m: ManifestView, record: Seq<char>, body: Seq<char>) -> ManifestView {
    let kv = parse_kv_spec(body);
    if record == "package"@ {
        ManifestView {
            package: or_empty(kv_get(kv, "name"@)),
            version_code: kv_get(kv, "versionCode"@),
            version_name: kv_get(kv, "versionName"@),
            ..m
        }
    } else if record == "uses-permission"@ || record == "uses-permission-sdk-23"@ {
        match kv_get(kv, "name"@) {
            Some(name) => ManifestView {
                permissions: m.permissions.push(
                    PermissionView {
                        name,
                        max_sdk_version: parse_opt_u32(kv_get(kv, "maxSdkVersion"@)),
                    },
                ),
                ..m
            },
            None => m,
        }
    } else if record == "sdkVersion"@ {
        ManifestView { min_sdk_version: parse_opt_u32(first_quoted_spec(body)), ..m }
    } else if record == "targetSdkVersion"@ {
        ManifestView { target_sdk_version: parse_opt_u32(first_quoted_spec(body)), ..m }
    } else if record == "maxSdkVersion"@ {
        ManifestView { max_sdk_version: parse_opt_u32(first_quoted_spec(body)), ..m }
    } else if record == "compileSdkVersion"@ {
        ManifestView { compile_sdk_version: parse_opt_u32(first_quoted_spec(body)), ..m }
    } else if record == "application"@ {
        ManifestView { application: Some(badging_component(kv)), ..m }
    } else if record == "launchable-activity"@ || record == "activity"@ || record
        == "activity-alias"@ {
        ManifestView { activities: m.activities.push(badging_component(kv)), ..m }
    } else if record == "service"@ {
        ManifestView { services: m.services.push(badging_component(kv)), ..m }
    } else if record == "receiver"@ {
        ManifestView { receivers: m.receivers.push(badging_component(kv)), ..m }
    } else if record == "provider"@ {
        ManifestView { providers: m.providers.push(badging_component(kv)), ..m }
    } else {
        m
    }
}

/// The effect of one line: blank lines are skipped; otherwise the record
/// type is what precedes the first `:` and the body what follows it, both
/// trimmed (a line without `:` is a record with an empty body).
pub open spec fn apply_line(m: ManifestView, raw: Seq<char>) -> ManifestView {
    let line = trim(raw);
    if line.len() == 0 {
        m
    } else {
        let c = find_char(line, 0, ':');
        if c < line.len() {
            apply_record(m, trim(line.take(c)), trim(line.skip(c + 1)))
        } else {
            apply_record(m, line, Seq::empty())
        }
    }
}

/// The manifest after reading the lines of `s` (separated by `\n`) on top
/// of `m`, in order.
pub open spec fn badging_from(m: ManifestView, s: Seq<char>) -> ManifestView
    decreases s.len(),
{
    let k = find_char(s, 0, '\n');
    proof {
        lemma_find_char_bounds(s, 0, '\n');
    }
    if k >= s.len() {
        apply_line(m, s)
    } else {
        badging_from(apply_line(m, s.take(k)), s.skip(k + 1))
    }
}

/// The manifest that a badging report describes.
pub open spec fn badging_spec(s: Seq<char>) -> ManifestView {
    badging_from(empty_manifest(), s)
}

// ---------------------------------------------------------------------------
// Lemmas
// ---------------------------------------------------------------------------

proof fn lemma_find_char_at(b: Seq<char>, i: int, c: char, k: int)
    requires
        0 <= i <= k <= b.len(),
        forall|j: int| i <= j < k ==> b[j] != c,
        k == b.len() || b[k] == c,
    ensures
        find_char(b, i, c) == k,
    decreases k - i,
{
    if i < k {
        lemma_find_char_at(b, i + 1, c, k);
    }
}

proof fn lemma_find_ascii_ws_at(b: Seq<char>, i: int, k: int)
    requires
        0 <= i <= k <= b.len(),
        forall|j: int| i <= j < k ==> !is_ascii_ws(b[j]),
        k == b.len() || is_ascii_ws(b[k]),
    ensures
        find_ascii_ws(b, i) == k,
    decreases k - i,
{
    if i < k {
        lemma_find_ascii_ws_at(b, i + 1, k);
    }
}

/// A report is read line by line, in order: reading `a`, a newline, then
/// `b`, is reading `a` and then reading `b` on top of the result.
#[verifier::rlimit(40)]
pub proof fn lemma_badging_from_concat(m: ManifestView, a: Seq<char>, b: Seq<char>)
    ensures
        badging_from(m, a + seq!['\n'] + b) == badging_from(badging_from(m, a), b),
    decreases a.len(),
{
    let s = a + seq!['\n'] + b;
    let k = find_char(a, 0, '\n');
    lemma_find_char_bounds(a, 0, '\n');
    lemma_find_char_bounds(s, 0, '\n');
    if k >= a.len() {
        assert forall|j: int| 0 <= j < a.len() implies s[j] != '\n' by {
            if s[j] == '\n' {
                assert(a[j] == '\n');
                lemma_find_char_at_first(a, 0, '\n', j);
            }
        }
        lemma_find_char_at(s, 0, '\n', a.len() as int);
        assert(s.take(a.len() as int) =~= a);
        assert(s.skip(a.len() as int + 1) =~= b);
    } else {
        assert forall|j: int| 0 <= j < k implies s[j] != '\n' by {
            if s[j] == '\n' {
                lemma_find_char_at_first(a, 0, '\n', j);
            }
        }
        lemma_find_char_at(s, 0, '\n', k);
        assert(s.take(k) =~= a.take(k));
        assert(s.skip(k + 1) =~= a.skip(k + 1) + seq!['\n'] + b);
        lemma_badging_from_concat(apply_line(m, a.take(k)), a.skip(k + 1), b);
    }
}

/// A final line ending changes nothing: `s` followed by a newline reads as `s`.
pub proof fn lemma_badging_trailing_newline(s: Seq<char>)
    ensures
        badging_spec(s + seq!['\n']) == badging_spec(s),
{
    let e = Seq::<char>::empty();
    assert(s + seq!['\n'] =~= s + seq!['\n'] + e);
    lemma_badging_from_concat(empty_manifest(), s, e);
    lemma_find_char_at(e, 0, '\n', 0);
    assert(crate::text::trim_start(e) =~= e);
    assert(crate::text::trim_end(e) =~= e);
}

/// `find_char` stops at the first occurrence.
proof fn lemma_find_char_at_first(b: Seq<char>, i: int, c: char, j: int)
    requires
        0 <= i <= j < b.len(),
        b[j] == c,
    ensures
        find_char(b, i, c) <= j,
    decreases j - i,
{
    if i < j && b[i] != c {
        lemma_find_char_at_first(b, i + 1, c, j);
    }
}

// ---------------------------------------------------------------------------
// Writing attributes and reading them back
// ---------------------------------------------------------------------------

/// `k='v'`.
pub open spec fn kv_item(k: Seq<char>, v: Seq<char>) -> Seq<char> {
    k + seq!['=', '\''] + v + seq!['\'']
}

/// `k=v`, the value written bare.
pub open spec fn kv_item_bare(k: Seq<char>, v: Seq<char>) -> Seq<char> {
    k + seq!['='] + v
}

/// A pair written quoted (`k='v'`) or bare (`k=v`).
pub open spec fn styled_item(k: Seq<char>, v: Seq<char>, quoted: bool) -> Seq<char> {
    if quoted {
        kv_item(k, v)
    } else {
        kv_item_bare(k, v)
    }
}

/// The pairs of `ps`, each written quoted or bare as `quoted` says, joined
/// by single spaces.
pub open spec fn format_kv(ps: AttrsView, quoted: Seq<bool>) -> Seq<char>
    decreases ps.len(),
{
    if ps.len() == 0 {
        Seq::empty()
    } else if ps.len() == 1 {
        styled_item(ps[0].0, ps[0].1, quoted[0])
    } else {
        styled_item(ps[0].0, ps[0].1, quoted[0]) + seq![' '] + format_kv(
            ps.drop_first(),
            quoted.drop_first(),
        )
    }
}

/// A key that can be written bare: non-empty, without `=`, quotes or whitespace.
pub open spec fn plain_key(k: Seq<char>) -> bool {
    &&& k.len() > 0
    &&& forall|i: int| 0 <= i < k.len() ==> {
        let c = #[trigger] k[i];
        c != '=' && c != '\'' && !is_unicode_ws(c)
    }
}

/// A value that can be written bare: non-empty, not starting with a quote,
/// without ASCII whitespace.
pub open spec fn bare_value(v: Seq<char>) -> bool {
    &&& v.len() > 0
    &&& v[0] != '\''
    &&& forall|i: int| 0 <= i < v.len() ==> !is_ascii_ws(#[trigger] v[i])
}

/// Each pair can be written in the style chosen for it.
pub open spec fn writable(ps: AttrsView, quoted: Seq<bool>) -> bool {
    &&& quoted.len() == ps.len()
    &&& forall|i: int|
        0 <= i < ps.len() ==> plain_key(#[trigger] ps[i].0) && (if quoted[i] {
            quotable(ps[i].1)
        } else {
            bare_value(ps[i].1)
        })
}

/// No two pairs share a key.
pub open spec fn distinct_keys(ps: AttrsView) -> bool {
    forall|i: int, j: int| 0 <= i < j < ps.len() ==> #[trigger] ps[i].0 != #[trigger] ps[j].0
}

/// A value that can be quoted: without quotes.
pub open spec fn quotable(v: Seq<char>) -> bool {
    forall|i: int| 0 <= i < v.len() ==> #[trigger] v[i] != '\''
}

proof fn lemma_find_char_shift(pre: Seq<char>, b: Seq<char>, i: int, c: char)
    requires
        0 <= i,
    ensures
        find_char(pre + b, pre.len() + i, c) == pre.len() + find_char(b, i, c),
    decreases b.len() - i,
{
    if i < b.len() {
        assert((pre + b)[pre.len() + i] == b[i]);
        if b[i] != c {
            lemma_find_char_shift(pre, b, i + 1, c);
        }
    }
}

proof fn lemma_find_ascii_ws_shift(pre: Seq<char>, b: Seq<char>, i: int)
    requires
        0 <= i,
    ensures
        find_ascii_ws(pre + b, pre.len() + i) == pre.len() + find_ascii_ws(b, i),
    decreases b.len() - i,
{
    if i < b.len() {
        assert((pre + b)[pre.len() + i] == b[i]);
        if !is_ascii_ws(b[i]) {
            lemma_find_ascii_ws_shift(pre, b, i + 1);
        }
    }
}

/// Reading pairs is the same wherever the text starts.
#[verifier::rlimit(40)]
proof fn lemma_kv_scan_shift(pre: Seq<char>, b: Seq<char>, i: int)
    requires
        0 <= i,
    ensures
        kv_scan(pre + b, pre.len() + i) == kv_scan(b, i),
    decreases b.len() + 1 - i,
{
    let s = pre + b;
    let o = pre.len() as int;
    if i < b.len() {
        assert(s[o + i] == b[i]);
        if b[i] == '\'' {
            lemma_find_char_shift(pre, b, i + 1, '\'');
            lemma_find_char_bounds(b, i + 1, '\'');
            lemma_kv_scan_shift(pre, b, find_char(b, i + 1, '\'') + 1);
        } else if b[i] == ' ' || b[i] == '=' {
            lemma_kv_scan_shift(pre, b, i + 1);
        } else {
            lemma_find_char_shift(pre, b, i, '=');
            lemma_find_char_bounds(b, i, '=');
            let e = find_char(b, i, '=');
            if e < b.len() {
                assert(s.subrange(o + i, o + e) =~= b.subrange(i, e));
                let j = e + 1;
                if j < b.len() {
                    assert(s[o + j] == b[j]);
                }
                if j < b.len() && b[j] == '\'' {
                    lemma_find_char_shift(pre, b, j + 1, '\'');
                    lemma_find_char_bounds(b, j + 1, '\'');
                    let q = find_char(b, j + 1, '\'');
                    assert(s.subrange(o + j + 1, o + q) =~= b.subrange(j + 1, q));
                    lemma_kv_scan_shift(pre, b, q + 1);
                } else {
                    lemma_find_ascii_ws_shift(pre, b, j);
                    lemma_find_ascii_ws_bounds(b, j);
                    let w = find_ascii_ws(b, j);
                    assert(s.subrange(o + j, o + w) =~= b.subrange(j, w));
                    lemma_kv_scan_shift(pre, b, w);
                }
            }
        }
    }
}

proof fn lemma_trim_plain(k: Seq<char>)
    requires
        plain_key(k),
    ensures
        trim(k) == k,
{
    assert(!is_unicode_ws(k[0]));
    assert(crate::text::trim_start(k) == k);
    assert(!is_unicode_ws(k.last()));
}

/// One item, then anything: the item's pair comes first.
#[verifier::rlimit(40)]
proof fn lemma_kv_scan_item(k: Seq<char>, v: Seq<char>, tail: Seq<char>)
    requires
        plain_key(k),
        quotable(v),
    ensures
        kv_scan(kv_item(k, v) + tail, 0) == seq![(k, v)] + kv_scan(
            kv_item(k, v) + tail,
            kv_item(k, v).len() as int,
        ),
{
    let f = kv_item(k, v) + tail;
    let kl = k.len() as int;
    let vl = v.len() as int;
    assert(f[0] == k[0]);
    assert forall|x: int| 0 <= x < kl implies f[x] != '=' by {
        assert(f[x] == k[x]);
    }
    assert(f[kl] == '=');
    lemma_find_char_at(f, 0, '=', kl);
    assert(f.subrange(0, kl) =~= k);
    lemma_trim_plain(k);
    assert(f[kl + 1] == '\'');
    assert forall|x: int| kl + 2 <= x < kl + 2 + vl implies f[x] != '\'' by {
        assert(f[x] == v[x - kl - 2]);
    }
    assert(f[kl + 2 + vl] == '\'');
    lemma_find_char_at(f, kl + 2, '\'', kl + 2 + vl);
    assert(f.subrange(kl + 2, kl + 2 + vl) =~= v);
}

/// One bare item, then the end or a space: the item's pair comes first.
proof fn lemma_kv_scan_bare_item(k: Seq<char>, v: Seq<char>, tail: Seq<char>)
    requires
        plain_key(k),
        bare_value(v),
        tail.len() == 0 || tail[0] == ' ',
    ensures
        kv_scan(kv_item_bare(k, v) + tail, 0) == seq![(k, v)] + kv_scan(
            kv_item_bare(k, v) + tail,
            kv_item_bare(k, v).len() as int,
        ),
{
    let f = kv_item_bare(k, v) + tail;
    let kl = k.len() as int;
    let vl = v.len() as int;
    assert(f[0] == k[0]);
    assert forall|x: int| 0 <= x < kl implies f[x] != '=' by {
        assert(f[x] == k[x]);
    }
    assert(f[kl] == '=');
    lemma_find_char_at(f, 0, '=', kl);
    assert(f.subrange(0, kl) =~= k);
    lemma_trim_plain(k);
    assert(f[kl + 1] == v[0]);
    assert forall|x: int| kl + 1 <= x < kl + 1 + vl implies !is_ascii_ws(f[x]) by {
        assert(f[x] == v[x - kl - 1]);
    }
    if tail.len() > 0 {
        assert(f[kl + 1 + vl] == ' ');
    }
    lemma_find_ascii_ws_at(f, kl + 1, kl + 1 + vl);
    assert(f.subrange(kl + 1, kl + 1 + vl) =~= v);
}

/// Writing well-formed pairs, each quoted (`k='v'`) or bare (`k=v`),
/// separated by single spaces, and reading the text back gives the same
/// pairs, in the same order.
#[verifier::rlimit(40)]
pub proof fn lemma_kv_round_trip(ps: AttrsView, quoted: Seq<bool>)
    requires
        writable(ps, quoted),
    ensures
        parse_kv_spec(format_kv(ps, quoted)) == ps,
    decreases ps.len(),
{
    if ps.len() == 0 {
        assert(ps =~= Seq::<(Seq<char>, Seq<char>)>::empty());
    } else {
        let (k, v) = ps[0];
        assert(plain_key(ps[0].0));
        let item = styled_item(k, v, quoted[0]);
        let tail = if ps.len() == 1 {
            Seq::<char>::empty()
        } else {
            seq![' '] + format_kv(ps.drop_first(), quoted.drop_first())
        };
        assert(format_kv(ps, quoted) =~= item + tail);
        if quoted[0] {
            assert(quotable(ps[0].1));
            lemma_kv_scan_item(k, v, tail);
        } else {
            assert(bare_value(ps[0].1));
            lemma_kv_scan_bare_item(k, v, tail);
        }
        let f = item + tail;
        if ps.len() == 1 {
            assert(f =~= item);
            assert(ps =~= seq![(k, v)]);
        } else {
            let rest = ps.drop_first();
            let rq = quoted.drop_first();
            assert(f[item.len() as int] == ' ');
            assert(f =~= (item + seq![' ']) + format_kv(rest, rq));
            lemma_kv_scan_shift(item + seq![' '], format_kv(rest, rq), 0);
            assert(writable(rest, rq)) by {
                assert forall|i: int| 0 <= i < rest.len() implies plain_key(#[trigger] rest[i].0)
                    && (if rq[i] {
                    quotable(rest[i].1)
                } else {
                    bare_value(rest[i].1)
                }) by {
                    assert(rest[i] == ps[i + 1]);
                    assert(rq[i] == quoted[i + 1]);
                }
            }
            lemma_kv_round_trip(rest, rq);
            assert(ps =~= seq![(k, v)] + rest);
        }
    }
}

proof fn lemma_kv_get_distinct(ps: AttrsView, i: int, k: Seq<char>)
    requires
        distinct_keys(ps),
        0 <= i < ps.len(),
    ensures
        kv_get(ps, ps[i].0) == Some(ps[i].1),
        (forall|j: int| 0 <= j < ps.len() ==> #[trigger] ps[j].0 != k) ==> kv_get(ps, k) is None,
    decreases ps.len(),
{
    let last = ps.len() - 1;
    if i < last {
        assert(ps[i].0 != ps[last].0);
        let init = ps.drop_last();
        assert(distinct_keys(init)) by {
            assert forall|a: int, b: int| 0 <= a < b < init.len() implies #[trigger] init[a].0
                != #[trigger] init[b].0 by {
                assert(init[a] == ps[a] && init[b] == ps[b]);
            }
        }
        assert(init[i] == ps[i]);
        lemma_kv_get_distinct(init, i, k);
        if forall|j: int| 0 <= j < ps.len() ==> #[trigger] ps[j].0 != k {
            assert forall|j: int| 0 <= j < init.len() implies #[trigger] init[j].0 != k by {
                assert(init[j] == ps[j]);
            }
        }
    } else {
        lemma_kv_get_absent(ps, k);
    }
}

proof fn lemma_kv_get_absent(ps: AttrsView, k: Seq<char>)
    ensures
        (forall|j: int| 0 <= j < ps.len() ==> #[trigger] ps[j].0 != k) ==> kv_get(ps, k) is None,
    decreases ps.len(),
{
    if ps.len() > 0 {
        let init = ps.drop_last();
        if forall|j: int| 0 <= j < ps.len() ==> #[trigger] ps[j].0 != k {
            assert(ps[ps.len() - 1].0 != k);
            assert forall|j: int| 0 <= j < init.len() implies #[trigger] init[j].0 != k by {
                assert(init[j] == ps[j]);
            }
        }
        lemma_kv_get_absent(init, k);
    }
}

/// Written pairs with distinct keys read back as exactly those pairs: each
/// key gives its own value, and no other key has one.
pub proof fn lemma_kv_round_trip_lookup(ps: AttrsView, quoted: Seq<bool>, k: Seq<char>)
    requires
        writable(ps, quoted),
        distinct_keys(ps),
    ensures
        forall|i: int|
            0 <= i < ps.len() ==> kv_get(parse_kv_spec(format_kv(ps, quoted)), #[trigger] ps[i].0)
                == Some(ps[i].1),
        (forall|j: int| 0 <= j < ps.len() ==> #[trigger] ps[j].0 != k) ==> kv_get(
            parse_kv_spec(format_kv(ps, quoted)),
            k,
        ) is None,
{
    lemma_kv_round_trip(ps, quoted);
    assert forall|i: int| 0 <= i < ps.len() implies kv_get(
        parse_kv_spec(format_kv(ps, quoted)),
        #[trigger] ps[i].0,
    ) == Some(ps[i].1) by {
        lemma_kv_get_distinct(ps, i, k);
    }
    lemma_kv_get_absent(ps, k);
}

/// The component a badging record's attributes `kv` describe, field by
/// field: badging never reports `enabled`.
pub open spec fn is_badging_component_of(c: ComponentView, kv: AttrsView) -> bool {
    &&& c.name == (match kv_get(kv, "name"@) {
        Some(n) => n,
        None => Seq::empty(),
    })
    &&& c.exported == (match kv_get(kv, "exported"@) {
        Some(t) => parse_bool_spec(t),
        None => None,
    })
    &&& c.enabled is None
    &&& c.permission == kv_get(kv, "permission"@)
}

/// `list` is `old` with one component for `kv` appended.
pub open spec fn appended_one(list: Seq<ComponentView>, old: Seq<ComponentView>, kv: AttrsView) -> bool {
    &&& list.len() == old.len() + 1
    &&& list.take(old.len() as int) == old
    &&& is_badging_component_of(list.last(), kv)
}

proof fn lemma_record_names_distinct()
    ensures
        "package"@ != "service"@,
        "activity"@ != "receiver"@,
        "activity"@ != "provider"@,
        "receiver"@ != "provider"@,
        "package"@.len() == 7,
        "service"@.len() == 7,
        "activity"@.len() == 8,
        "receiver"@.len() == 8,
        "provider"@.len() == 8,
        "uses-permission"@.len() == 15,
        "uses-permission-sdk-23"@.len() == 22,
        "sdkVersion"@.len() == 10,
        "targetSdkVersion"@.len() == 16,
        "maxSdkVersion"@.len() == 13,
        "compileSdkVersion"@.len() == 17,
        "application"@.len() == 11,
        "launchable-activity"@.len() == 19,
        "activity-alias"@.len() == 14,
{
    reveal_strlit("package");
    assert("package"@.len() == 7 && "package"@[0] == 'p');
    reveal_strlit("uses-permission");
    assert("uses-permission"@.len() == 15 && "uses-permission"@[0] == 'u');
    reveal_strlit("uses-permission-sdk-23");
    assert("uses-permission-sdk-23"@.len() == 22 && "uses-permission-sdk-23"@[0] == 'u');
    reveal_strlit("sdkVersion");
    assert("sdkVersion"@.len() == 10 && "sdkVersion"@[0] == 's');
    reveal_strlit("targetSdkVersion");
    assert("targetSdkVersion"@.len() == 16 && "targetSdkVersion"@[0] == 't');
    reveal_strlit("maxSdkVersion");
    assert("maxSdkVersion"@.len() == 13 && "maxSdkVersion"@[0] == 'm');
    reveal_strlit("compileSdkVersion");
    assert("compileSdkVersion"@.len() == 17 && "compileSdkVersion"@[0] == 'c');
    reveal_strlit("application");
    assert("application"@.len() == 11 && "application"@[0] == 'a');
    reveal_strlit("launchable-activity");
    assert("launchable-activity"@.len() == 19 && "launchable-activity"@[0] == 'l');
    reveal_strlit("activity");
    assert("activity"@.len() == 8 && "activity"@[0] == 'a');
    reveal_strlit("activity-alias");
    assert("activity-alias"@.len() == 14 && "activity-alias"@[0] == 'a');
    reveal_strlit("service");
    assert("service"@.len() == 7 && "service"@[0] == 's');
    reveal_strlit("receiver");
    assert("receiver"@.len() == 8 && "receiver"@[0] == 'r');
    reveal_strlit("provider");
    assert("provider"@.len() == 8 && "provider"@[0] == 'p');
}

/// Each component record lands in its own list, and only there, with the
/// record's own `name`, `exported` (parsed as a boolean: `exported='true'`
/// gives `Some(true)`) and `permission`: a `service` record appends to the
/// services, `receiver` to the receivers, `provider` to the providers, and
/// `activity`, `activity-alias` and `launchable-activity` to the activities;
/// the other lists are left as they were.
pub proof fn lemma_component_records(m: ManifestView, record: Seq<char>, body: Seq<char>)
    ensures
        ({
            let r = apply_record(m, record, body);
            let kv = parse_kv_spec(body);
            &&& record == "service"@ ==> appended_one(r.services, m.services, kv) && r.receivers
                == m.receivers && r.activities == m.activities && r.providers == m.providers
                && r.application == m.application && r.package == m.package
            &&& record == "receiver"@ ==> appended_one(r.receivers, m.receivers, kv) && r.services
                == m.services && r.activities == m.activities && r.providers == m.providers
                && r.application == m.application && r.package == m.package
            &&& record == "provider"@ ==> appended_one(r.providers, m.providers, kv) && r.services
                == m.services && r.activities == m.activities && r.receivers == m.receivers
                && r.application == m.application && r.package == m.package
            &&& (record == "activity"@ || record == "activity-alias"@ || record
                == "launchable-activity"@) ==> appended_one(r.activities, m.activities, kv)
                && r.services == m.services && r.receivers == m.receivers && r.providers
                == m.providers && r.application == m.application && r.package == m.package
        }),
{
    lemma_record_names_distinct();
    let kv = parse_kv_spec(body);
    assert(m.services.push(badging_component(kv)).take(m.services.len() as int) =~= m.services);
    assert(m.receivers.push(badging_component(kv)).take(m.receivers.len() as int) =~= m.receivers);
    assert(m.providers.push(badging_component(kv)).take(m.providers.len() as int) =~= m.providers);
    assert(m.activities.push(badging_component(kv)).take(m.activities.len() as int)
        =~= m.activities);
}

/// The first bare quoted value of a body is the text between its first
/// quote and the next one: `pre 'v' rest` gives `v` when `pre` and `v` hold
/// no quote; a body without a quote gives nothing.
pub proof fn lemma_first_quoted(pre: Seq<char>, v: Seq<char>, rest: Seq<char>)
    requires
        forall|i: int| 0 <= i < pre.len() ==> #[trigger] pre[i] != '\'',
        forall|i: int| 0 <= i < v.len() ==> #[trigger] v[i] != '\'',
    ensures
        first_quoted_spec(pre + seq!['\''] + v + seq!['\''] + rest) == Some(v),
        first_quoted_spec(pre) is None,
{
    let b = pre + seq!['\''] + v + seq!['\''] + rest;
    let pl = pre.len() as int;
    assert forall|x: int| 0 <= x < pl implies b[x] != '\'' by {
        assert(b[x] == pre[x]);
    }
    assert(b[pl] == '\'');
    lemma_find_char_at(b, 0, '\'', pl);
    assert forall|x: int| pl + 1 <= x < pl + 1 + v.len() implies b[x] != '\'' by {
        assert(b[x] == v[x - pl - 1]);
    }
    assert(b[pl + 1 + v.len()] == '\'');
    lemma_find_char_at(b, pl + 1, '\'', pl + 1 + v.len());
    assert(b.subrange(pl + 1, pl + 1 + v.len()) =~= v);
    lemma_find_char_at(pre, 0, '\'', pl);
}

/// The scalar records: `package` sets the package (empty without a name)
/// and both versions from its attributes; each SDK record sets its own level
/// from its first quoted value and nothing else; `uses-permission` (or
/// `-sdk-23`) with a name appends exactly that permission; `application`
/// sets the application from its attributes.
pub proof fn lemma_scalar_records(m: ManifestView, record: Seq<char>, body: Seq<char>)
    ensures
        ({
            let r = apply_record(m, record, body);
            let kv = parse_kv_spec(body);
            let level = match first_quoted_spec(body) {
                Some(t) => parse_u32_spec(t),
                None => None,
            };
            &&& record == "package"@ ==> r.package == (match kv_get(kv, "name"@) {
                Some(n) => n,
                None => Seq::empty(),
            }) && r.version_code == kv_get(kv, "versionCode"@) && r.version_name == kv_get(
                kv,
                "versionName"@,
            ) && r.permissions == m.permissions && r.activities == m.activities
                && r.min_sdk_version == m.min_sdk_version
            &&& record == "sdkVersion"@ ==> r == ManifestView { min_sdk_version: level, ..m }
            &&& record == "targetSdkVersion"@ ==> r == ManifestView {
                target_sdk_version: level,
                ..m
            }
            &&& record == "maxSdkVersion"@ ==> r == ManifestView { max_sdk_version: level, ..m }
            &&& record == "compileSdkVersion"@ ==> r == ManifestView {
                compile_sdk_version: level,
                ..m
            }
            &&& (record == "uses-permission"@ || record == "uses-permission-sdk-23"@) ==> (match kv_get(
                kv,
                "name"@,
            ) {
                Some(n) => r.permissions.len() == m.permissions.len() + 1 && r.permissions.take(
                    m.permissions.len() as int,
                ) == m.permissions && r.permissions.last().name == n
                    && r.permissions.last().max_sdk_version == (match kv_get(kv, "maxSdkVersion"@) {
                    Some(t) => parse_u32_spec(t),
                    None => None,
                }),
                None => r.permissions == m.permissions,
            }) && r.activities == m.activities && r.services == m.services && r.package
                == m.package
            &&& record == "application"@ ==> (r.application matches Some(a)
                && is_badging_component_of(a, kv)) && r.activities == m.activities && r.services
                == m.services && r.receivers == m.receivers && r.providers == m.providers
        }),
{
    lemma_record_names_distinct();
    let kv = parse_kv_spec(body);
    if let Some(n) = kv_get(kv, "name"@) {
        let pv = PermissionView {
            name: n,
            max_sdk_version: parse_opt_u32(kv_get(kv, "maxSdkVersion"@)),
        };
        assert(m.permissions.push(pv).take(m.permissions.len() as int) =~= m.permissions);
    }
}

/// A record of any other type changes nothing.
pub proof fn lemma_other_records_ignored(m: ManifestView, record: Seq<char>, body: Seq<char>)
    requires
        record != "package"@,
        record != "uses-permission"@,
        record != "uses-permission-sdk-23"@,
        record != "sdkVersion"@,
        record != "targetSdkVersion"@,
        record != "maxSdkVersion"@,
        record != "compileSdkVersion"@,
        record != "application"@,
        record != "launchable-activity"@,
        record != "activity"@,
        record != "activity-alias"@,
        record != "service"@,
        record != "receiver"@,
        record != "provider"@,
    ensures
        apply_record(m, record, body) == m,
{
}

/// A blank line changes nothing.
pub proof fn lemma_blank_line_ignored(m: ManifestView, raw: Seq<char>)
    requires
        forall|i: int| 0 <= i < raw.len() ==> crate::text::is_unicode_ws(#[trigger] raw[i]),
    ensures
        apply_line(m, raw) == m,
{
    lemma_trim_start_all_ws(raw);
}

proof fn lemma_trim_start_all_ws(raw: Seq<char>)
    requires
        forall|i: int| 0 <= i < raw.len() ==> crate::text::is_unicode_ws(#[trigger] raw[i]),
    ensures
        crate::text::trim_start(raw).len() == 0,
    decreases raw.len(),
{
    if raw.len() > 0 {
        assert(crate::text::is_unicode_ws(raw[0]));
        assert forall|i: int| 0 <= i < raw.drop_first().len() implies crate::text::is_unicode_ws(
            #[trigger] raw.drop_first()[i],
        ) by {
            assert(raw.drop_first()[i] == raw[i + 1]);
        }
        lemma_trim_start_all_ws(raw.drop_first());
    }
}

/// A `service` record written with quoted `name` and `exported='true'` gives a
/// service of that name whose `exported` is `Some(true)`.
pub proof fn lemma_service_record_exported(m: ManifestView, name: Seq<char>)
    requires
        quotable(name),
    ensures
        ({
            let body = kv_item("name"@, name) + seq![' '] + kv_item("exported"@, "true"@);
            let r = apply_record(m, "service"@, body);
            &&& r.services.len() == m.services.len() + 1
            &&& r.services.last().name == name
            &&& r.services.last().exported == Some(true)
        }),
{
    reveal_strlit("name");
    reveal_strlit("exported");
    reveal_strlit("true");
    let ps = seq![("name"@, name), ("exported"@, "true"@)];
    let quoted = seq![true, true];
    assert(plain_key("name"@));
    assert(plain_key("exported"@));
    assert(quotable("true"@));
    assert(writable(ps, quoted)) by {
        assert forall|i: int| 0 <= i < ps.len() implies plain_key(#[trigger] ps[i].0) && (if quoted[i] {
            quotable(ps[i].1)
        } else {
            bare_value(ps[i].1)
        }) by {
            if i == 0 {
            } else {
            }
        }
    }
    assert(ps.drop_first() =~= seq![("exported"@, "true"@)]);
    assert(quoted.drop_first() =~= seq![true]);
    let body = kv_item("name"@, name) + seq![' '] + kv_item("exported"@, "true"@);
    assert(format_kv(ps.drop_first(), quoted.drop_first()) == kv_item("exported"@, "true"@));
    assert(styled_item(ps[0].0, ps[0].1, quoted[0]) == kv_item("name"@, name));
    assert(format_kv(ps, quoted) =~= body);
    lemma_kv_round_trip(ps, quoted);
    assert(ps.drop_last() =~= seq![("name"@, name)]);
    assert("name"@ != "exported"@);
    assert(seq![("name"@, name)].drop_last() =~= Seq::<(Seq<char>, Seq<char>)>::empty());
    lemma_component_records(m, "service"@, body);
    crate::text::lemma_bool_text_parses_back(true);
    assert(kv_get(ps, "exported"@) == Some("true"@));
    assert(ps.last() == ("exported"@, "true"@));
    assert(ps.drop_last().last() == ("name"@, name));
    assert(kv_get(ps.drop_last(), "name"@) == Some(name));
    assert(kv_get(ps, "name"@) == Some(name));
}

/// No component in the model says whether it is enabled.
pub open spec fn enabled_unknown(m: ManifestView) -> bool {
    &&& forall|i: int| 0 <= i < m.activities.len() ==> (#[trigger] m.activities[i]).enabled is None
    &&& forall|i: int| 0 <= i < m.services.len() ==> (#[trigger] m.services[i]).enabled is None
    &&& forall|i: int| 0 <= i < m.receivers.len() ==> (#[trigger] m.receivers[i]).enabled is None
    &&& forall|i: int| 0 <= i < m.providers.len() ==> (#[trigger] m.providers[i]).enabled is None
    &&& m.application matches Some(c) ==> c.enabled is None
}

proof fn lemma_apply_line_keeps_enabled_unknown(m: ManifestView, raw: Seq<char>)
    requires
        enabled_unknown(m),
    ensures
        enabled_unknown(apply_line(m, raw)),
{
    let m2 = apply_line(m, raw);
    assert forall|i: int| 0 <= i < m2.activities.len() implies (
    #[trigger] m2.activities[i]).enabled is None by {
        if i < m.activities.len() {
            assert(m2.activities[i] == m.activities[i]);
        }
    }
    assert forall|i: int| 0 <= i < m2.services.len() implies (
    #[trigger] m2.services[i]).enabled is None by {
        if i < m.services.len() {
            assert(m2.services[i] == m.services[i]);
        }
    }
    assert forall|i: int| 0 <= i < m2.receivers.len() implies (
    #[trigger] m2.receivers[i]).enabled is None by {
        if i < m.receivers.len() {
            assert(m2.receivers[i] == m.receivers[i]);
        }
    }
    assert forall|i: int| 0 <= i < m2.providers.len() implies (
    #[trigger] m2.providers[i]).enabled is None by {
        if i < m.providers.len() {
            assert(m2.providers[i] == m.providers[i]);
        }
    }
}

proof fn lemma_badging_from_keeps_enabled_unknown(m: ManifestView, s: Seq<char>)
    requires
        enabled_unknown(m),
    ensures
        enabled_unknown(badging_from(m, s)),
    decreases s.len(),
{
    let k = find_char(s, 0, '\n');
    lemma_find_char_bounds(s, 0, '\n');
    if k >= s.len() {
        lemma_apply_line_keeps_enabled_unknown(m, s);
    } else {
        lemma_apply_line_keeps_enabled_unknown(m, s.take(k));
        lemma_badging_from_keeps_enabled_unknown(apply_line(m, s.take(k)), s.skip(k + 1));
    }
}

/// A badging report never says whether a component is enabled: every
/// component read from one has `enabled` unknown.
pub proof fn lemma_badging_enabled_unknown(s: Seq<char>)
    ensures
        enabled_unknown(badging_spec(s)),
{
    lemma_badging_from_keeps_enabled_unknown(empty_manifest(), s);
}

// ---------------------------------------------------------------------------
// Executable code
// ---------------------------------------------------------------------------

/// The characters `v[lo..hi]` as a vector of their own.
fn sub_vec(v: &Vec<char>, lo: usize, hi: usize) -> (res: Vec<char>)
    requires
        lo <= hi <= v@.len(),
    ensures
        res@ == v@.subrange(lo as int, hi as int),
{
    let mut out: Vec<char> = Vec::new();
    let mut i = lo;
    while i < hi
        invariant
            lo <= i <= hi <= v@.len(),
            out@ == v@.subrange(lo as int, i as int),
        decreases hi - i,
    {
        out.push(v[i]);
        i = i + 1;
        assert(out@ =~= v@.subrange(lo as int, i as int));
    }
    out
}

/// `v` trimmed of Unicode whitespace on both ends.
fn trimmed(v: &Vec<char>, lo: usize, hi: usize) -> (res: Vec<char>)
    requires
        lo <= hi <= v@.len(),
    ensures
        res@ == trim(v@.subrange(lo as int, hi as int)),
{
    let (a, b) = trim_range(v, lo, hi);
    sub_vec(v, a, b)
}

/// `find_char` on a vector.
fn find_from(v: &Vec<char>, i: usize, c: char) -> (res: usize)
    requires
        i <= v@.len(),
    ensures
        res == find_char(v@, i as int, c),
        i <= res <= v@.len(),
{
    let mut k = i;
    while k < v.len() && v[k] != c
        invariant
            i <= k <= v@.len(),
            forall|j: int| i <= j < k ==> v@[j] != c,
        decreases v@.len() - k,
    {
        k = k + 1;
    }
    proof {
        lemma_find_char_at(v@, i as int, c, k as int);
    }
    k
}

fn is_ascii_whitespace(c: char) -> (res: bool)
    ensures
        res == is_ascii_ws(c),
{
    c == '\t' || c == '\n' || c == '\u{c}' || c == '\r' || c == ' '
}

/// `find_ascii_ws` on a vector.
fn find_ws_from(v: &Vec<char>, i: usize) -> (res: usize)
    requires
        i <= v@.len(),
    ensures
        res == find_ascii_ws(v@, i as int),
        i <= res <= v@.len(),
{
    let mut k = i;
    while k < v.len() && !is_ascii_whitespace(v[k])
        invariant
            i <= k <= v@.len(),
            forall|j: int| i <= j < k ==> !is_ascii_ws(v@[j]),
        decreases v@.len() - k,
    {
        k = k + 1;
    }
    proof {
        lemma_find_ascii_ws_at(v@, i as int, k as int);
    }
    k
}

/// Whether `v` spells `lit`.
fn vec_is(v: &Vec<char>, lit: &str) -> (res: bool)
    ensures
        res == (v@ == lit@),
{
    assert(v@.subrange(0, v@.len() as int) =~= v@);
    crate::text::range_is(v, 0, v.len(), lit)
}

/// The `key=value` pairs of a record body.
#[verifier::rlimit(40)]
fn parse_kv(b: &Vec<char>) -> (res: Vec<(String, String)>)
    ensures
        res.deep_view() == parse_kv_spec(b@),
{
    let mut out: Vec<(String, String)> = Vec::new();
    let mut i: usize = 0;
    assert(out.deep_view() =~= Seq::<(Seq<char>, Seq<char>)>::empty());
    while i < b.len()
        invariant
            i <= b@.len(),
            kv_scan(b@, 0) == out.deep_view() + kv_scan(b@, i as int),
        decreases b@.len() - i,
    {
        if b[i] == '\'' {
            // A bare quoted value: step over it to just past its closing quote.
            let q = find_from(b, i + 1, '\'');
            assert(kv_scan(b@, i as int) == kv_scan(b@, q + 1));
            i = if q < b.len() {
                q + 1
            } else {
                q
            };
            continue;
        }
        if b[i] == ' ' || b[i] == '=' {
            i = i + 1;
            continue;
        }
        let e = find_from(b, i, '=');
        if e >= b.len() {
            assert(out.deep_view() + Seq::<(Seq<char>, Seq<char>)>::empty() =~= out.deep_view());
            return out;
        }
        let (ka, kb) = trim_range(b, i, e);
        let key = string_of(b, ka, kb);
        let j = e + 1;
        let ghost before = out.deep_view();
        let ghost i0 = i as int;
        let ghost kv = key@;
        if j < b.len() && b[j] == '\'' {
            let q = find_from(b, j + 1, '\'');
            let val = string_of(b, j + 1, q);
            let ghost vv = val@;
            attr_push(&mut out, key, val);
            assert(kv_scan(b@, i0) == seq![(kv, vv)] + kv_scan(b@, q + 1));
            // An unterminated quote ends the body: past the end, either way.
            i = if q < b.len() {
                q + 1
            } else {
                q
            };
        } else {
            let w = find_ws_from(b, j);
            let val = string_of(b, j, w);
            let ghost vv = val@;
            attr_push(&mut out, key, val);
            i = w;
            assert(kv_scan(b@, i0) == seq![(kv, vv)] + kv_scan(b@, i as int));
        }
        assert(out.deep_view() + kv_scan(b@, i as int) =~= before + (seq![out.deep_view().last()] + kv_scan(b@, i as int)));
    }
    assert(out.deep_view() + kv_scan(b@, i as int) =~= out.deep_view());
    out
}

/// The first bare `'quoted'` value of a body.
fn first_quoted(b: &Vec<char>) -> (res: Option<String>)
    ensures
        res.deep_view() == first_quoted_spec(b@),
{
    let q = find_from(b, 0, '\'');
    if q >= b.len() {
        None
    } else {
        let e = find_from(b, q + 1, '\'');
        Some(string_of(b, q + 1, e))
    }
}

fn opt_u32(o: Option<String>) -> (res: Option<u32>)
    ensures
        res == parse_opt_u32(o.deep_view()),
{
    match o {
        Some(s) => parse_u32_str(s.as_str()),
        None => None,
    }
}

fn opt_bool(o: Option<String>) -> (res: Option<bool>)
    ensures
        res == parse_opt_bool(o.deep_view()),
{
    match o {
        Some(s) => parse_bool_str(s.as_str()),
        None => None,
    }
}

fn unwrap_or_empty(o: Option<String>) -> (res: String)
    ensures
        res@ == or_empty(o.deep_view()),
{
    match o {
        Some(s) => s,
        None => String::new(),
    }
}

fn component_from_attrs(kv: &Vec<(String, String)>) -> (res: Component)
    ensures
        res@ == badging_component(kv.deep_view()),
{
    Component {
        name: unwrap_or_empty(attr_get(kv, "name")),
        exported: opt_bool(attr_get(kv, "exported")),
        enabled: None,
        permission: attr_get(kv, "permission"),
    }
}

#[verifier::rlimit(40)]
fn apply_record_exec(m: &mut ApkManifest, record: &Vec<char>, body: &Vec<char>)
    ensures
        final(m)@ == apply_record(old(m)@, record@, body@),
{
    if vec_is(record, "package") {
        let kv = parse_kv(body);
        m.package = unwrap_or_empty(attr_get(&kv, "name"));
        m.version_code = attr_get(&kv, "versionCode");
        m.version_name = attr_get(&kv, "versionName");
    } else if vec_is(record, "uses-permission") || vec_is(record, "uses-permission-sdk-23") {
        let kv = parse_kv(body);
        if let Some(name) = attr_get(&kv, "name") {
            let max = opt_u32(attr_get(&kv, "maxSdkVersion"));
            push_permission(&mut m.permissions, Permission { name, max_sdk_version: max });
        }
    } else if vec_is(record, "sdkVersion") {
        m.min_sdk_version = opt_u32(first_quoted(body));
    } else if vec_is(record, "targetSdkVersion") {
        m.target_sdk_version = opt_u32(first_quoted(body));
    } else if vec_is(record, "maxSdkVersion") {
        m.max_sdk_version = opt_u32(first_quoted(body));
    } else if vec_is(record, "compileSdkVersion") {
        m.compile_sdk_version = opt_u32(first_quoted(body));
    } else if vec_is(record, "application") {
        let kv = parse_kv(body);
        m.application = Some(component_from_attrs(&kv));
    } else if vec_is(record, "launchable-activity") || vec_is(record, "activity") || vec_is(
        record,
        "activity-alias",
    ) {
        let kv = parse_kv(body);
        push_component(&mut m.activities, component_from_attrs(&kv));
    } else if vec_is(record, "service") {
        let kv = parse_kv(body);
        push_component(&mut m.services, component_from_attrs(&kv));
    } else if vec_is(record, "receiver") {
        let kv = parse_kv(body);
        push_component(&mut m.receivers, component_from_attrs(&kv));
    } else if vec_is(record, "provider") {
        let kv = parse_kv(body);
        push_component(&mut m.providers, component_from_attrs(&kv));
    }
}

fn apply_line_exec(m: &mut ApkManifest, v: &Vec<char>, lo: usize, hi: usize)
    requires
        lo <= hi <= v@.len(),
    ensures
        final(m)@ == apply_line(old(m)@, v@.subrange(lo as int, hi as int)),
{
    let line = trimmed(v, lo, hi);
    if line.len() == 0 {
        return;
    }
    let c = find_from(&line, 0, ':');
    if c < line.len() {
        let record = trimmed(&line, 0, c);
        let body = trimmed(&line, c + 1, line.len());
        assert(line@.take(c as int) =~= line@.subrange(0, c as int));
        assert(line@.skip(c + 1) =~= line@.subrange(c + 1, line@.len() as int));
        apply_record_exec(m, &record, &body);
    } else {
        let body: Vec<char> = Vec::new();
        assert(body@ =~= Seq::<char>::empty());
        apply_record_exec(m, &line, &body);
    }
}

/// Parse `aapt dump badging` output into an [`ApkManifest`].
pub fn parse_aapt_badging(output: &str) -> (res: ApkManifest)
    ensures
        res@ == badging_spec(output@),
{
    let v = chars_of(output);
    let mut m = ApkManifest::default();
    let mut start: usize = 0;
    let mut i: usize = 0;
    assert(v@.skip(0) =~= v@);
    while i < v.len()
        invariant
            start <= i <= v@.len(),
            v@ == output@,
            badging_spec(output@) == badging_from(m@, v@.skip(start as int)),
            forall|j: int| start <= j < i ==> v@[j] != '\n',
        decreases v@.len() - i,
    {
        if v[i] == '\n' {
            let ghost rest = v@.skip(start as int);
            proof {
                lemma_find_char_at(rest, 0, '\n', i - start);
                assert(rest.take(i - start) =~= v@.subrange(start as int, i as int));
                assert(rest.skip(i - start + 1) =~= v@.skip(i + 1));
            }
            apply_line_exec(&mut m, &v, start, i);
            start = i + 1;
        }
        i = i + 1;
    }
    let ghost rest = v@.skip(start as int);
    proof {
        lemma_find_char_at(rest, 0, '\n', rest.len() as int);
        assert(rest =~= v@.subrange(start as int, v@.len() as int));
    }
    apply_line_exec(&mut m, &v, start, v.len());
    m
}

} // verus!
