//! Minimal reader for the Android Binary XML (AXML) format used for
//! `AndroidManifest.xml` inside APK files.
//!
//! This is *not* a full AXML implementation: it only extracts the manifest
//! attributes, permissions and component declarations. Offsets are computed
//! in 64 bits; `OutOfBounds` carries the offset of the first read that would
//! run past the end of the input.

use vstd::prelude::*;
use vstd::slice::slice_subrange;
use crate::attrs::{attr_get, attr_push, kv_get, AttrsView};
use crate::manifest::{
    empty_manifest, push_component, push_permission, ApkManifest, Component, ComponentView,
    ManifestView, Permission, PermissionView,
};
use crate::aapt::{or_empty, parse_opt_bool, parse_opt_u32};
use crate::text::{
    bool_string, bool_text, char_from_u32, decimal, hex_padded, parse_bool_str, parse_u32_str,
    push_char, push_decimal, push_hex_padded, str_is, string_from_utf8_lossy, utf8_lossy,
};

verus! {

/// Why a binary manifest could not be read.
#[derive(Debug)]
pub enum AxmlError {
    /// The input is not AXML at all.
    Invalid(&'static str),
    /// A read at this offset would run past the end of the input.
    OutOfBounds(usize),
}

/// The outcome of a decoding step: a value, an error, or the input on which
/// the surrogate-pair arithmetic of UTF-16 decoding underflows (a low half
/// below `0xDC00` after a high half), where no value is defined.
pub enum Step<T> {
    Value(T),
    Error(AxmlError),
    Underflow,
}

/// An executable outcome agrees with a modelled one.
pub open spec fn step_agrees<T: DeepView>(res: Step<T>, s: Step<T::V>) -> bool {
    match (res, s) {
        (Step::Value(v), Step::Value(w)) => v.deep_view() == w,
        (Step::Error(e1), Step::Error(e2)) => e1 == e2,
        (Step::Underflow, Step::Underflow) => true,
        _ => false,
    }
}

// ---- Chunk types ---------------------------------------------------------
pub const RES_XML_TYPE: u16 = 0x0003;

pub const RES_STRING_POOL_TYPE: u16 = 0x0001;

pub const RES_XML_START_ELEMENT_TYPE: u16 = 0x0102;

// ---- Res_value data types ------------------------------------------------
pub const TYPE_STRING: u8 = 0x03;

pub const TYPE_INT_DEC: u8 = 0x10;

pub const TYPE_INT_HEX: u8 = 0x11;

pub const TYPE_INT_BOOLEAN: u8 = 0x12;

/// The index that marks "no string".
pub const NO_INDEX: u32 = 0xFFFF_FFFF;

// ---------------------------------------------------------------------------
// Specification: primitive reads
// ---------------------------------------------------------------------------

pub open spec fn out_of_bounds(o: int) -> AxmlError {
    AxmlError::OutOfBounds(o as usize)
}

pub open spec fn le16(b: Seq<u8>, o: int) -> u16 {
    (b[o] as int + 256 * b[o + 1] as int) as u16
}

pub open spec fn le32(b: Seq<u8>, o: int) -> u32 {
    (b[o] as int + 256 * b[o + 1] as int + 65536 * b[o + 2] as int + 16777216 * b[o + 3] as int) as u32
}

/// A byte at `o`.
pub open spec fn rd8(b: Seq<u8>, o: int) -> Result<u8, AxmlError> {
    if o + 1 > b.len() {
        Err(out_of_bounds(o))
    } else {
        Ok(b[o])
    }
}

/// A little-endian `u16` at `o`.
pub open spec fn rd16(b: Seq<u8>, o: int) -> Result<u16, AxmlError> {
    if o + 2 > b.len() {
        Err(out_of_bounds(o))
    } else {
        Ok(le16(b, o))
    }
}

/// A little-endian `u32` at `o`.
pub open spec fn rd32(b: Seq<u8>, o: int) -> Result<u32, AxmlError> {
    if o + 4 > b.len() {
        Err(out_of_bounds(o))
    } else {
        Ok(le32(b, o))
    }
}

// ---------------------------------------------------------------------------
// Specification: string pool
// ---------------------------------------------------------------------------

/// The character for a code point, or U+FFFD when it is not a scalar value.
pub open spec fn char_or_replacement(c: u32) -> char {
    if vstd::utf8::is_scalar(c) {
        c as char
    } else {
        '\u{fffd}'
    }
}

/// `n` UTF-16 code units from `p`, appended to `acc`. A high surrogate takes
/// the following unit as its low half.
pub open spec fn utf16_units(b: Seq<u8>, p: int, n: nat, acc: Seq<char>) -> Step<Seq<char>>
    decreases n,
{
    if n == 0 {
        Step::Value(acc)
    } else {
        match rd16(b, p) {
            Err(e) => Step::Error(e),
            Ok(cu) => if 0xD800 <= cu && cu <= 0xDBFF {
                match rd16(b, p + 2) {
                    Err(e) => Step::Error(e),
                    Ok(lo) => if lo < 0xDC00 {
                        Step::Underflow
                    } else {
                        utf16_units(
                            b,
                            p + 4,
                            (n - 1) as nat,
                            acc.push(
                                char_or_replacement(
                                    (0x10000 + (cu - 0xD800) * 1024 + (lo - 0xDC00)) as u32,
                                ),
                            ),
                        )
                    },
                }
            } else {
                utf16_units(b, p + 2, (n - 1) as nat, acc.push(char_or_replacement(cu as u32)))
            },
        }
    }
}

/// A UTF-16 pool string at `start`: a length in units (one `u16`, or two
/// when the high bit is set), then the units.
pub open spec fn utf16_string(b: Seq<u8>, start: int) -> Step<Seq<char>> {
    match rd16(b, start) {
        Err(e) => Step::Error(e),
        Ok(len0) => if len0 & 0x8000 != 0 {
            match rd16(b, start + 2) {
                Err(e) => Step::Error(e),
                Ok(lo) => utf16_units(
                    b,
                    start + 4,
                    ((((len0 & 0x7fff) as u32) << 16u32) | (lo as u32)) as nat,
                    Seq::empty(),
                ),
            }
        } else {
            utf16_units(b, start + 2, len0 as nat, Seq::empty())
        },
    }
}

/// A UTF-8 pool length at `o` (one byte, or two when the high bit is set),
/// with the number of bytes it takes.
pub open spec fn utf8_len(b: Seq<u8>, o: int) -> Result<(u32, int), AxmlError> {
    match rd8(b, o) {
        Err(e) => Err(e),
        Ok(b0) => if b0 & 0x80 == 0 {
            Ok((b0 as u32, 1))
        } else {
            match rd8(b, o + 1) {
                Err(e) => Err(e),
                Ok(b1) => Ok(((((b0 & 0x7f) as u32) << 8u32) | (b1 as u32), 2)),
            }
        },
    }
}

/// Bytes decoded as UTF-8: exactly when valid, leniently otherwise.
pub open spec fn lossy_text(bytes: Seq<u8>) -> Seq<char> {
    if vstd::utf8::valid_utf8(bytes) {
        vstd::utf8::decode_utf8(bytes)
    } else {
        utf8_lossy(bytes)
    }
}

/// A UTF-8 pool string at `start`: its length in UTF-16 units (unused), its
/// length in bytes, then the bytes, decoded leniently.
pub open spec fn utf8_string(b: Seq<u8>, start: int) -> Step<Seq<char>> {
    match utf8_len(b, start) {
        Err(e) => Step::Error(e),
        Ok((_, a1)) => match utf8_len(b, start + a1) {
            Err(e) => Step::Error(e),
            Ok((n, a2)) => {
                let bs = start + a1 + a2;
                let end = bs + n;
                if end > b.len() {
                    Step::Error(out_of_bounds(end))
                } else {
                    Step::Value(lossy_text(b.subrange(bs, end)))
                }
            },
        },
    }
}

/// The strings of a pool from the `i`-th on, appended to `acc`.
pub open spec fn pool_strings(
    b: Seq<u8>,
    offsets_base: int,
    strings_base: int,
    is_utf8: bool,
    count: nat,
    i: nat,
    acc: Seq<Seq<char>>,
) -> Step<Seq<Seq<char>>>
    decreases count - i,
{
    if i >= count {
        Step::Value(acc)
    } else {
        match rd32(b, offsets_base + i * 4) {
            Err(e) => Step::Error(e),
            Ok(rel) => {
                let r = if is_utf8 {
                    utf8_string(b, strings_base + rel)
                } else {
                    utf16_string(b, strings_base + rel)
                };
                match r {
                    Step::Value(s) => pool_strings(
                        b,
                        offsets_base,
                        strings_base,
                        is_utf8,
                        count,
                        i + 1,
                        acc.push(s),
                    ),
                    Step::Error(e) => Step::Error(e),
                    Step::Underflow => Step::Underflow,
                }
            },
        }
    }
}

/// The string pool chunk at `start`: the string count at +8, the flags at
/// +16 (bit 0x100: UTF-8), the strings' start at +20, the offsets table
/// after the 28-byte header.
pub open spec fn string_pool(b: Seq<u8>, start: int) -> Step<Seq<Seq<char>>> {
    match rd32(b, start + 8) {
        Err(e) => Step::Error(e),
        Ok(count) => match rd32(b, start + 16) {
            Err(e) => Step::Error(e),
            Ok(flags) => match rd32(b, start + 20) {
                Err(e) => Step::Error(e),
                Ok(strings_start) => pool_strings(
                    b,
                    start + 28,
                    start + strings_start,
                    flags & 0x100 != 0,
                    count as nat,
                    0,
                    Seq::empty(),
                ),
            },
        },
    }
}

// ---------------------------------------------------------------------------
// Specification: elements
// ---------------------------------------------------------------------------

/// The pool string at `i`, or the empty string.
pub open spec fn pool_get(pool: Seq<Seq<char>>, i: int) -> Seq<char> {
    if 0 <= i < pool.len() {
        pool[i]
    } else {
        Seq::empty()
    }
}

/// Names of the Android framework attributes (`android.R.attr.<name>`,
/// resource IDs `0x0101XXXX`) that manifests use.
pub open spec fn attr_name_from_id_spec(id: u32) -> Option<Seq<char>> {
    if id == 0x01010000 {
        Some("theme"@)
    } else if id == 0x01010001 {
        Some("label"@)
    } else if id == 0x01010002 {
        Some("icon"@)
    } else if id == 0x01010003 {
        Some("name"@)
    } else if id == 0x01010006 {
        Some("permission"@)
    } else if id == 0x0101000e {
        Some("enabled"@)
    } else if id == 0x0101000f {
        Some("debuggable"@)
    } else if id == 0x01010010 {
        Some("exported"@)
    } else if id == 0x01010011 {
        Some("process"@)
    } else if id == 0x01010012 {
        Some("taskAffinity"@)
    } else if id == 0x0101021b {
        Some("versionCode"@)
    } else if id == 0x0101021c {
        Some("versionName"@)
    } else if id == 0x0101020c {
        Some("minSdkVersion"@)
    } else if id == 0x01010270 {
        Some("targetSdkVersion"@)
    } else if id == 0x01010271 {
        Some("maxSdkVersion"@)
    } else if id == 0x01010572 {
        Some("compileSdkVersion"@)
    } else if id == 0x01010280 {
        Some("allowBackup"@)
    } else if id == 0x0101027b {
        Some("supportsRtl"@)
    } else if id == 0x010103a2 {
        Some("usesCleartextTraffic"@)
    } else if id == 0x010104f6 {
        Some("networkSecurityConfig"@)
    } else {
        None
    }
}

/// A UTF-8 pool string written with one-byte lengths (its UTF-16 length,
/// then its byte length, then its bytes) reads back as the text written.
pub proof fn lemma_utf8_string_round_trip(p: Seq<u8>, units: u8, s: Seq<char>, q: Seq<u8>)
    requires
        units < 0x80,
        vstd::utf8::encode_utf8(s).len() < 0x80,
    ensures
        utf8_string(
            p + seq![units, vstd::utf8::encode_utf8(s).len() as u8] + vstd::utf8::encode_utf8(s) + q,
            p.len() as int,
        ) == Step::Value(s),
{
    let e = vstd::utf8::encode_utf8(s);
    let b = p + seq![units, e.len() as u8] + e + q;
    let o = p.len() as int;
    assert(b[o] == units);
    assert(b[o + 1] == e.len() as u8);
    assert((units & 0x80u8) == 0) by (bit_vector)
        requires
            units < 0x80,
    ;
    let n = e.len() as u8;
    assert((n & 0x80u8) == 0) by (bit_vector)
        requires
            n < 0x80,
    ;
    assert(b.subrange(o + 2, o + 2 + e.len()) =~= e);
    vstd::utf8::encode_utf8_valid_utf8(s);
    vstd::utf8::encode_utf8_decode_utf8(s);
}

/// The two little-endian bytes of `x`.
pub open spec fn le16_bytes(x: u16) -> Seq<u8> {
    seq![(x % 256) as u8, (x / 256) as u8]
}

/// The length header of a UTF-16 pool string of `n` units: one `u16`, or
/// two with the high bit of the first set for lengths from `0x8000` on.
pub open spec fn utf16_header(n: u32) -> Seq<u8> {
    if n < 0x8000 {
        le16_bytes(n as u16)
    } else {
        le16_bytes((0x8000u32 | (n >> 16u32)) as u16) + le16_bytes((n & 0xFFFFu32) as u16)
    }
}

/// Characters of the Basic Multilingual Plane as little-endian UTF-16 units.
pub open spec fn bmp_units_bytes(t: Seq<char>) -> Seq<u8>
    decreases t.len(),
{
    if t.len() == 0 {
        Seq::empty()
    } else {
        le16_bytes((t[0] as u32) as u16) + bmp_units_bytes(t.drop_first())
    }
}

pub open spec fn in_bmp(t: Seq<char>) -> bool {
    forall|i: int| 0 <= i < t.len() ==> (#[trigger] t[i]) as u32 <= 0xFFFF
}

proof fn lemma_le16_bytes(b: Seq<u8>, o: int, x: u16)
    requires
        0 <= o,
        o + 2 <= b.len(),
        b.subrange(o, o + 2) == le16_bytes(x),
    ensures
        rd16(b, o) == Ok::<u16, AxmlError>(x),
{
    assert(b[o] == b.subrange(o, o + 2)[0]);
    assert(b[o + 1] == b.subrange(o, o + 2)[1]);
    assert(x == x % 256 + 256 * (x / 256)) by (nonlinear_arith);
}

proof fn lemma_bmp_units_bytes_len(t: Seq<char>)
    ensures
        bmp_units_bytes(t).len() == 2 * t.len(),
    decreases t.len(),
{
    if t.len() > 0 {
        lemma_bmp_units_bytes_len(t.drop_first());
    }
}

#[verifier::rlimit(40)]
proof fn lemma_utf16_units_bmp(b: Seq<u8>, pos: int, t: Seq<char>, acc: Seq<char>)
    requires
        in_bmp(t),
        0 <= pos,
        pos + 2 * t.len() <= b.len(),
        b.subrange(pos, pos + 2 * t.len()) == bmp_units_bytes(t),
    ensures
        utf16_units(b, pos, t.len(), acc) == Step::Value(acc + t),
    decreases t.len(),
{
    if t.len() == 0 {
        assert(acc + t =~= acc);
    } else {
        let c = t[0];
        let rest = t.drop_first();
        lemma_bmp_units_bytes_len(rest);
        let whole = b.subrange(pos, pos + 2 * t.len());
        let cu = (c as u32) as u16;
        assert(whole.subrange(0, 2) =~= le16_bytes(cu));
        assert(b.subrange(pos, pos + 2) =~= whole.subrange(0, 2));
        lemma_le16_bytes(b, pos, cu);
        assert(c as u32 <= 0xFFFF);
        assert(cu as u32 == c as u32);
        vstd::utf8::char_is_scalar(c);
        vstd::utf8::char_u32_cast(c, cu as u32);
        assert(!(0xD800 <= cu && cu <= 0xDBFF));
        assert(char_or_replacement(cu as u32) == c);
        assert(b.subrange(pos + 2, pos + 2 + 2 * rest.len()) =~= whole.subrange(2, whole.len() as int));
        assert(whole.subrange(2, whole.len() as int) =~= bmp_units_bytes(rest));
        assert(in_bmp(rest)) by {
            assert forall|i: int| 0 <= i < rest.len() implies (#[trigger] rest[i]) as u32 <= 0xFFFF by {
                assert(rest[i] == t[i + 1]);
            }
        }
        lemma_utf16_units_bmp(b, pos + 2, rest, acc.push(c));
        assert(acc.push(c) + rest =~= acc + t);
    }
}

/// A UTF-16 pool string of characters from the Basic Multilingual Plane,
/// written as its length header then its units, reads back as the text.
#[verifier::rlimit(40)]
pub proof fn lemma_utf16_string_round_trip(p: Seq<u8>, s: Seq<char>, q: Seq<u8>)
    requires
        in_bmp(s),
        s.len() < 0x8000_0000,
    ensures
        utf16_string(p + utf16_header(s.len() as u32) + bmp_units_bytes(s) + q, p.len() as int)
            == Step::Value(s),
{
    let n = s.len() as u32;
    let h = utf16_header(n);
    let body = bmp_units_bytes(s);
    let b = p + h + body + q;
    let o = p.len() as int;
    lemma_bmp_units_bytes_len(s);
    if n < 0x8000 {
        assert(b.subrange(o, o + 2) =~= le16_bytes(n as u16));
        lemma_le16_bytes(b, o, n as u16);
        let len0 = n as u16;
        assert((len0 & 0x8000u16) == 0) by (bit_vector)
            requires
                len0 < 0x8000,
        ;
        assert(b.subrange(o + 2, o + 2 + 2 * s.len()) =~= body);
        lemma_utf16_units_bmp(b, o + 2, s, Seq::empty());
        assert(Seq::<char>::empty() + s =~= s);
    } else {
        let hi = (0x8000u32 | (n >> 16u32)) as u16;
        let lo = (n & 0xFFFFu32) as u16;
        assert(b.subrange(o, o + 2) =~= le16_bytes(hi));
        assert(b.subrange(o + 2, o + 4) =~= le16_bytes(lo));
        lemma_le16_bytes(b, o, hi);
        lemma_le16_bytes(b, o + 2, lo);
        assert((hi & 0x8000u16) != 0 && ((((hi & 0x7fffu16) as u32) << 16u32) | (lo as u32)) == n)
            by (bit_vector)
            requires
                n < 0x8000_0000u32,
                hi == (0x8000u32 | (n >> 16u32)) as u16,
                lo == (n & 0xFFFFu32) as u16,
        ;
        assert(b.subrange(o + 4, o + 4 + 2 * s.len()) =~= body);
        lemma_utf16_units_bmp(b, o + 4, s, Seq::empty());
        assert(Seq::<char>::empty() + s =~= s);
    }
}

// ---------------------------------------------------------------------------
// Position independence: what precedes a chunk does not change how it reads
// ---------------------------------------------------------------------------

/// Two read outcomes agree: the same value, or both an error (at offsets
/// that may differ).
pub open spec fn agree<T>(a: Result<T, AxmlError>, b: Result<T, AxmlError>) -> bool {
    match (a, b) {
        (Ok(x), Ok(y)) => x == y,
        (Err(_), Err(_)) => true,
        _ => false,
    }
}

/// Two decoding outcomes agree: the same value, both an error, or both the
/// underflow.
pub open spec fn step_agree<T>(a: Step<T>, b: Step<T>) -> bool {
    match (a, b) {
        (Step::Value(x), Step::Value(y)) => x == y,
        (Step::Error(_), Step::Error(_)) => true,
        (Step::Underflow, Step::Underflow) => true,
        _ => false,
    }
}

proof fn lemma_reads_shift(pre: Seq<u8>, b: Seq<u8>, o: int)
    requires
        0 <= o,
    ensures
        agree(rd8(pre + b, pre.len() + o), rd8(b, o)),
        agree(rd16(pre + b, pre.len() + o), rd16(b, o)),
        agree(rd32(pre + b, pre.len() + o), rd32(b, o)),
        o + 2 <= b.len() ==> le16(pre + b, pre.len() + o) == le16(b, o),
        o + 4 <= b.len() ==> le32(pre + b, pre.len() + o) == le32(b, o),
{
    let s = pre + b;
    let p = pre.len() as int;
    if o < b.len() {
        assert(s[p + o] == b[o]);
    }
    if o + 1 < b.len() {
        assert(s[p + o + 1] == b[o + 1]);
    }
    if o + 2 < b.len() {
        assert(s[p + o + 2] == b[o + 2]);
    }
    if o + 3 < b.len() {
        assert(s[p + o + 3] == b[o + 3]);
    }
}

#[verifier::rlimit(40)]
proof fn lemma_utf16_units_shift(pre: Seq<u8>, b: Seq<u8>, p: int, n: nat, acc: Seq<char>)
    requires
        0 <= p,
    ensures
        step_agree(utf16_units(pre + b, pre.len() + p, n, acc), utf16_units(b, p, n, acc)),
    decreases n,
{
    if n > 0 {
        lemma_reads_shift(pre, b, p);
        lemma_reads_shift(pre, b, p + 2);
        if let Ok(cu) = rd16(b, p) {
            if 0xD800 <= cu && cu <= 0xDBFF {
                if let Ok(lo) = rd16(b, p + 2) {
                    if lo >= 0xDC00 {
                        lemma_utf16_units_shift(
                            pre,
                            b,
                            p + 4,
                            (n - 1) as nat,
                            acc.push(
                                char_or_replacement(
                                    (0x10000 + (cu - 0xD800) * 1024 + (lo - 0xDC00)) as u32,
                                ),
                            ),
                        );
                    }
                }
            } else {
                lemma_utf16_units_shift(
                    pre,
                    b,
                    p + 2,
                    (n - 1) as nat,
                    acc.push(char_or_replacement(cu as u32)),
                );
            }
        }
    }
}

#[verifier::spinoff_prover]
proof fn lemma_utf16_string_shift(pre: Seq<u8>, b: Seq<u8>, start: int)
    requires
        0 <= start,
    ensures
        step_agree(utf16_string(pre + b, pre.len() + start), utf16_string(b, start)),
{
    lemma_reads_shift(pre, b, start);
    lemma_reads_shift(pre, b, start + 2);
    if let Ok(len0) = rd16(b, start) {
        if len0 & 0x8000 != 0 {
            if let Ok(lo) = rd16(b, start + 2) {
                lemma_utf16_units_shift(
                    pre,
                    b,
                    start + 4,
                    ((((len0 & 0x7fff) as u32) << 16u32) | (lo as u32)) as nat,
                    Seq::empty(),
                );
            }
        } else {
            lemma_utf16_units_shift(pre, b, start + 2, len0 as nat, Seq::empty());
        }
    }
}

#[verifier::spinoff_prover]
proof fn lemma_utf8_len_shift(pre: Seq<u8>, b: Seq<u8>, o: int)
    requires
        0 <= o,
    ensures
        agree(utf8_len(pre + b, pre.len() + o), utf8_len(b, o)),
{
    lemma_reads_shift(pre, b, o);
    lemma_reads_shift(pre, b, o + 1);
}

#[verifier::spinoff_prover]
proof fn lemma_utf8_string_shift(pre: Seq<u8>, b: Seq<u8>, start: int)
    requires
        0 <= start,
    ensures
        step_agree(utf8_string(pre + b, pre.len() + start), utf8_string(b, start)),
{
    let s = pre + b;
    let p = pre.len() as int;
    lemma_utf8_len_shift(pre, b, start);
    if let Ok((_, a1)) = utf8_len(b, start) {
        lemma_utf8_len_shift(pre, b, start + a1);
        if let Ok((n, a2)) = utf8_len(b, start + a1) {
            let bs = start + a1 + a2;
            let end = bs + n;
            if end <= b.len() {
                assert(s.subrange(p + bs, p + end) =~= b.subrange(bs, end));
            }
        }
    }
}

#[verifier::spinoff_prover]
#[verifier::rlimit(40)]
proof fn lemma_pool_strings_shift(
    pre: Seq<u8>,
    b: Seq<u8>,
    ob: int,
    sb: int,
    is_utf8: bool,
    count: nat,
    i: nat,
    acc: Seq<Seq<char>>,
)
    requires
        0 <= ob,
        0 <= sb,
    ensures
        step_agree(
            pool_strings(pre + b, pre.len() + ob, pre.len() + sb, is_utf8, count, i, acc),
            pool_strings(b, ob, sb, is_utf8, count, i, acc),
        ),
    decreases count - i,
{
    let p = pre.len() as int;
    if i < count {
        lemma_reads_shift(pre, b, ob + i * 4);
        assert(p + ob + i * 4 == p + (ob + i * 4));
        if let Ok(rel) = rd32(b, ob + i * 4) {
            lemma_utf16_string_shift(pre, b, sb + rel);
            lemma_utf8_string_shift(pre, b, sb + rel);
            assert(p + sb + rel == p + (sb + rel));
            let r = if is_utf8 {
                utf8_string(b, sb + rel)
            } else {
                utf16_string(b, sb + rel)
            };
            if let Step::Value(t) = r {
                lemma_pool_strings_shift(pre, b, ob, sb, is_utf8, count, i + 1, acc.push(t));
            }
        }
    }
}

#[verifier::spinoff_prover]
#[verifier::rlimit(40)]
proof fn lemma_string_pool_shift(pre: Seq<u8>, b: Seq<u8>, start: int)
    requires
        0 <= start,
    ensures
        step_agree(string_pool(pre + b, pre.len() + start), string_pool(b, start)),
{
    let p = pre.len() as int;
    lemma_reads_shift(pre, b, start + 8);
    lemma_reads_shift(pre, b, start + 16);
    lemma_reads_shift(pre, b, start + 20);
    if let Ok(count) = rd32(b, start + 8) {
        if let Ok(flags) = rd32(b, start + 16) {
            if let Ok(ss) = rd32(b, start + 20) {
                lemma_pool_strings_shift(
                    pre,
                    b,
                    start + 28,
                    start + ss,
                    flags & 0x100 != 0,
                    count as nat,
                    0,
                    Seq::empty(),
                );
            }
        }
    }
}

proof fn lemma_attr_record_shift(pre: Seq<u8>, b: Seq<u8>, q: int)
    requires
        0 <= q,
    ensures
        agree(attr_record(pre + b, pre.len() + q), attr_record(b, q)),
{
    lemma_reads_shift(pre, b, q);
    lemma_reads_shift(pre, b, q + 4);
    lemma_reads_shift(pre, b, q + 8);
    lemma_reads_shift(pre, b, q + 12);
    lemma_reads_shift(pre, b, q + 14);
    lemma_reads_shift(pre, b, q + 15);
    lemma_reads_shift(pre, b, q + 16);
}

#[verifier::rlimit(40)]
proof fn lemma_element_attrs_shift(
    pre: Seq<u8>,
    b: Seq<u8>,
    off: int,
    pool: Seq<Seq<char>>,
    count: nat,
    attr_start: int,
    attr_size: int,
    i: nat,
    acc: AttrsView,
)
    requires
        0 <= off,
        0 <= attr_start,
        0 <= attr_size,
    ensures
        agree(
            element_attrs(pre + b, pre.len() + off, pool, count, attr_start, attr_size, i, acc),
            element_attrs(b, off, pool, count, attr_start, attr_size, i, acc),
        ),
    decreases count - i,
{
    if i < count {
        let q = attr_pos(off, attr_start, attr_size, i as int);
        assert(i * attr_size >= 0) by (nonlinear_arith)
            requires
                0 <= attr_size,
        ;
        assert(attr_pos(pre.len() + off, attr_start, attr_size, i as int) == pre.len() + q);
        lemma_attr_record_shift(pre, b, q);
        if let Ok((name_i, raw, val_type, data)) = attr_record(b, q) {
            lemma_element_attrs_shift(
                pre,
                b,
                off,
                pool,
                count,
                attr_start,
                attr_size,
                i + 1,
                acc.push((attr_name_spec(pool, name_i, raw), attr_value_spec(pool, val_type, data, raw))),
            );
        }
    }
}

#[verifier::rlimit(40)]
proof fn lemma_start_element_shift(pre: Seq<u8>, b: Seq<u8>, off: int, pool: Seq<Seq<char>>)
    requires
        0 <= off,
    ensures
        agree(start_element(pre + b, pre.len() + off, pool), start_element(b, off, pool)),
{
    lemma_reads_shift(pre, b, off + 20);
    lemma_reads_shift(pre, b, off + 24);
    lemma_reads_shift(pre, b, off + 26);
    lemma_reads_shift(pre, b, off + 28);
    if let Ok(attr_count) = rd16(b, off + 24) {
        if let Ok(attr_start) = rd16(b, off + 26) {
            if let Ok(attr_size) = rd16(b, off + 28) {
                lemma_element_attrs_shift(
                    pre,
                    b,
                    off,
                    pool,
                    attr_count as nat,
                    attr_start as int,
                    attr_size as int,
                    0,
                    Seq::empty(),
                );
            }
        }
    }
}

#[verifier::rlimit(40)]
proof fn lemma_chunks_from_shift(pre: Seq<u8>, b: Seq<u8>, off: int, m: ManifestView, pool: Seq<Seq<char>>)
    requires
        0 <= off,
    ensures
        step_agree(chunks_from(pre + b, pre.len() + off, m, pool), chunks_from(b, off, m, pool)),
    decreases walk_measure(b, off),
{
    let p = pre.len() as int;
    if off + 8 <= b.len() {
        lemma_reads_shift(pre, b, off);
        lemma_reads_shift(pre, b, off + 4);
        let ctype = le16(b, off);
        let csize = le32(b, off + 4);
        if csize != 0 {
            if ctype == RES_STRING_POOL_TYPE {
                lemma_string_pool_shift(pre, b, off);
                if let Step::Value(np) = string_pool(b, off) {
                    lemma_chunks_from_shift(pre, b, off + csize, m, np);
                }
            } else if ctype == RES_XML_START_ELEMENT_TYPE {
                lemma_start_element_shift(pre, b, off, pool);
                if let Ok((elem, attrs)) = start_element(b, off, pool) {
                    lemma_chunks_from_shift(pre, b, off + csize, apply_element_spec(m, elem, attrs), pool);
                }
            } else if ctype == RES_XML_TYPE {
                lemma_chunks_from_shift(pre, b, off + 8, m, pool);
            } else {
                lemma_chunks_from_shift(pre, b, off + csize, m, pool);
            }
        }
    }
}

/// A chunk of another kind (not a string pool, start element or XML
/// container) that states its own size is skipped and changes nothing: the
/// document read after it gives the same manifest, or fails as it would
/// alone (only an error's offset moves by the chunk's size).
pub proof fn lemma_unknown_chunk_skipped(c: Seq<u8>, y: Seq<u8>)
    requires
        c.len() >= 8,
        y.len() >= 8,
        le16(c, 0) != RES_STRING_POOL_TYPE,
        le16(c, 0) != RES_XML_TYPE,
        le16(c, 0) != RES_XML_START_ELEMENT_TYPE,
        le32(c, 4) as int == c.len(),
    ensures
        step_agree(axml_spec(c + y), axml_spec(y)),
{
    let d = c + y;
    assert(d[0] == c[0] && d[1] == c[1] && d[4] == c[4] && d[5] == c[5] && d[6] == c[6] && d[7]
        == c[7]);
    assert(le16(d, 0) == le16(c, 0));
    assert(le32(d, 4) == le32(c, 4));
    lemma_chunks_from_shift(c, y, 0, empty_manifest(), Seq::empty());
}

/// The attribute-name table covers framework attributes only (resource IDs
/// `0x0101XXXX`), and no two IDs share a name.
#[verifier::rlimit(40)]
pub proof fn lemma_attr_name_table(i: u32, j: u32)
    ensures
        attr_name_from_id_spec(i) is Some ==> 0x0101_0000 <= i <= 0x0101_FFFF,
        attr_name_from_id_spec(i) is Some && attr_name_from_id_spec(i) == attr_name_from_id_spec(j)
            ==> i == j,
{
    reveal_strlit("theme");
    reveal_strlit("label");
    reveal_strlit("icon");
    reveal_strlit("name");
    reveal_strlit("permission");
    reveal_strlit("enabled");
    reveal_strlit("debuggable");
    reveal_strlit("exported");
    reveal_strlit("process");
    reveal_strlit("taskAffinity");
    reveal_strlit("versionCode");
    reveal_strlit("versionName");
    reveal_strlit("minSdkVersion");
    reveal_strlit("targetSdkVersion");
    reveal_strlit("maxSdkVersion");
    reveal_strlit("compileSdkVersion");
    reveal_strlit("allowBackup");
    reveal_strlit("supportsRtl");
    reveal_strlit("usesCleartextTraffic");
    reveal_strlit("networkSecurityConfig");
    assert("theme"@.len() == 5 && "theme"@[0] == 't' && "theme"@[1] == 'h');
    assert("label"@.len() == 5 && "label"@[0] == 'l' && "label"@[1] == 'a');
    assert("icon"@.len() == 4 && "icon"@[0] == 'i' && "icon"@[1] == 'c');
    assert("name"@.len() == 4 && "name"@[0] == 'n' && "name"@[1] == 'a');
    assert("permission"@.len() == 10 && "permission"@[0] == 'p' && "permission"@[1] == 'e');
    assert("enabled"@.len() == 7 && "enabled"@[0] == 'e' && "enabled"@[1] == 'n');
    assert("debuggable"@.len() == 10 && "debuggable"@[0] == 'd' && "debuggable"@[1] == 'e');
    assert("exported"@.len() == 8 && "exported"@[0] == 'e' && "exported"@[1] == 'x');
    assert("process"@.len() == 7 && "process"@[0] == 'p' && "process"@[1] == 'r');
    assert("taskAffinity"@.len() == 12 && "taskAffinity"@[0] == 't' && "taskAffinity"@[1] == 'a');
    assert("versionCode"@.len() == 11 && "versionCode"@[0] == 'v' && "versionCode"@[1] == 'e');
    assert("versionName"@.len() == 11 && "versionName"@[0] == 'v' && "versionName"@[1] == 'e');
    assert("minSdkVersion"@.len() == 13 && "minSdkVersion"@[0] == 'm' && "minSdkVersion"@[1] == 'i');
    assert("targetSdkVersion"@.len() == 16 && "targetSdkVersion"@[0] == 't' && "targetSdkVersion"@[1] == 'a');
    assert("maxSdkVersion"@.len() == 13 && "maxSdkVersion"@[0] == 'm' && "maxSdkVersion"@[1] == 'a');
    assert("compileSdkVersion"@.len() == 17 && "compileSdkVersion"@[0] == 'c' && "compileSdkVersion"@[1] == 'o');
    assert("allowBackup"@.len() == 11 && "allowBackup"@[0] == 'a' && "allowBackup"@[1] == 'l');
    assert("supportsRtl"@.len() == 11 && "supportsRtl"@[0] == 's' && "supportsRtl"@[1] == 'u');
    assert("usesCleartextTraffic"@.len() == 20 && "usesCleartextTraffic"@[0] == 'u' && "usesCleartextTraffic"@[1] == 's');
    assert("networkSecurityConfig"@.len() == 21 && "networkSecurityConfig"@[0] == 'n' && "networkSecurityConfig"@[1] == 'e');
    assert("versionCode"@[7] == 'C' && "versionName"@[7] == 'N');
}

/// The text of an attribute value of type `val_type`.
pub open spec fn attr_value_spec(pool: Seq<Seq<char>>, val_type: u8, data: u32, raw: u32) -> Seq<
    char,
> {
    if val_type == TYPE_STRING {
        pool_get(pool, data as int)
    } else if val_type == TYPE_INT_BOOLEAN {
        bool_text(data != 0)
    } else if val_type == TYPE_INT_DEC {
        decimal(data as nat)
    } else if val_type == TYPE_INT_HEX {
        "0x"@ + hex_padded(data as nat, 0)
    } else if raw != NO_INDEX {
        pool_get(pool, raw as int)
    } else {
        "(type 0x"@ + hex_padded(val_type as nat, 2) + " data "@ + decimal(data as nat) + ")"@
    }
}

/// The name of an attribute: from the pool, or from its resource ID when it
/// has no pool name (`attr_0x...` for an unknown ID).
pub open spec fn attr_name_spec(pool: Seq<Seq<char>>, name_i: u32, raw: u32) -> Seq<char> {
    if name_i == NO_INDEX {
        match attr_name_from_id_spec(raw) {
            Some(n) => n,
            None => "attr_0x"@ + hex_padded(raw as nat, 8),
        }
    } else {
        pool_get(pool, name_i as int)
    }
}

/// The fields of one attribute record at `p`, read in order: namespace,
/// name, raw value, value size, reserved byte, value type, value data.
pub open spec fn attr_record(b: Seq<u8>, p: int) -> Result<(u32, u32, u8, u32), AxmlError> {
    match rd32(b, p) {
        Err(e) => Err(e),
        Ok(_ns) => match rd32(b, p + 4) {
            Err(e) => Err(e),
            Ok(name_i) => match rd32(b, p + 8) {
                Err(e) => Err(e),
                Ok(raw) => match rd16(b, p + 12) {
                    Err(e) => Err(e),
                    Ok(_size) => match rd8(b, p + 14) {
                        Err(e) => Err(e),
                        Ok(_res0) => match rd8(b, p + 15) {
                            Err(e) => Err(e),
                            Ok(val_type) => match rd32(b, p + 16) {
                                Err(e) => Err(e),
                                Ok(data) => Ok((name_i, raw, val_type, data)),
                            },
                        },
                    },
                },
            },
        },
    }
}

/// The start of the `i`-th attribute record's fields: records with a stride
/// above 20 bytes carry an 8-byte chunk header first.
pub open spec fn attr_pos(off: int, attr_start: int, attr_size: int, i: int) -> int {
    let ab = off + attr_start + i * attr_size;
    if attr_size > 20 {
        ab + 8
    } else {
        ab
    }
}

/// The attributes of an element from the `i`-th on, appended to `acc`.
pub open spec fn element_attrs(
    b: Seq<u8>,
    off: int,
    pool: Seq<Seq<char>>,
    count: nat,
    attr_start: int,
    attr_size: int,
    i: nat,
    acc: AttrsView,
) -> Result<AttrsView, AxmlError>
    decreases count - i,
{
    if i >= count {
        Ok(acc)
    } else {
        match attr_record(b, attr_pos(off, attr_start, attr_size, i as int)) {
            Err(e) => Err(e),
            Ok((name_i, raw, val_type, data)) => element_attrs(
                b,
                off,
                pool,
                count,
                attr_start,
                attr_size,
                i + 1,
                acc.push((attr_name_spec(pool, name_i, raw), attr_value_spec(pool, val_type, data, raw))),
            ),
        }
    }
}

/// A start-element chunk at `off`: its tag name (at +20) and attributes
/// (count at +24, start at +26, stride at +28).
pub open spec fn start_element(b: Seq<u8>, off: int, pool: Seq<Seq<char>>) -> Result<
    (Seq<char>, AttrsView),
    AxmlError,
> {
    match rd32(b, off + 20) {
        Err(e) => Err(e),
        Ok(name_idx) => match rd16(b, off + 24) {
            Err(e) => Err(e),
            Ok(attr_count) => match rd16(b, off + 26) {
                Err(e) => Err(e),
                Ok(attr_start) => match rd16(b, off + 28) {
                    Err(e) => Err(e),
                    Ok(attr_size) => {
                        let name = if name_idx == NO_INDEX {
                            "?"@
                        } else {
                            pool_get(pool, name_idx as int)
                        };
                        if attr_size == 0 {
                            Ok((name, Seq::empty()))
                        } else {
                            match element_attrs(
                                b,
                                off,
                                pool,
                                attr_count as nat,
                                attr_start as int,
                                attr_size as int,
                                0,
                                Seq::empty(),
                            ) {
                                Err(e) => Err(e),
                                Ok(attrs) => Ok((name, attrs)),
                            }
                        }
                    },
                },
            },
        },
    }
}

/// A component described by an element's attributes.
pub open spec fn element_component(kv: AttrsView) -> ComponentView {
    ComponentView {
        name: or_empty(kv_get(kv, "name"@)),
        exported: parse_opt_bool(kv_get(kv, "exported"@)),
        enabled: parse_opt_bool(kv_get(kv, "enabled"@)),
        permission: kv_get(kv, "permission"@),
    }
}

/// The effect of one element on the manifest read so far.
pub open spec fn apply_element_spec(m: ManifestView, elem: Seq<char>, kv: AttrsView) -> ManifestView {
    if elem == "manifest"@ {
        ManifestView {
            package: match kv_get(kv, "package"@) {
                Some(p) => p,
                None => m.package,
            },
            version_code: kv_get(kv, "versionCode"@),
            version_name: kv_get(kv, "versionName"@),
            ..m
        }
    } else if elem == "uses-sdk"@ {
        ManifestView {
            min_sdk_version: parse_opt_u32(kv_get(kv, "minSdkVersion"@)),
            target_sdk_version: parse_opt_u32(kv_get(kv, "targetSdkVersion"@)),
            max_sdk_version: parse_opt_u32(kv_get(kv, "maxSdkVersion"@)),
            compile_sdk_version: parse_opt_u32(kv_get(kv, "compileSdkVersion"@)),
            ..m
        }
    } else if elem == "uses-permission"@ || elem == "uses-permission-sdk-23"@ {
        match kv_get(kv, "name"@) {
            Some(name) => ManifestView {
                permissions: m.permissions.push(
                    PermissionView {
                        name,
                        max_sdk_version: parse_opt_u32(kv_get(kv, "maxSdkVersion"@)),
                    },
                ),
                ..m
            },
            None => m,
        }
    } else if elem == "application"@ {
        ManifestView { application: Some(element_component(kv)), ..m }
    } else if elem == "activity"@ || elem == "activity-alias"@ {
        ManifestView { activities: m.activities.push(element_component(kv)), ..m }
    } else if elem == "service"@ {
        ManifestView { services: m.services.push(element_component(kv)), ..m }
    } else if elem == "receiver"@ {
        ManifestView { receivers: m.receivers.push(element_component(kv)), ..m }
    } else if elem == "provider"@ {
        ManifestView { providers: m.providers.push(element_component(kv)), ..m }
    } else {
        m
    }
}

/// How far the chunk walk is from the end of the input.
pub open spec fn walk_measure(b: Seq<u8>, off: int) -> nat {
    if off < b.len() {
        (b.len() - off) as nat
    } else {
        0
    }
}

/// The chunks from `off` on, applied to `m` with string pool `pool`. A chunk
/// is a `u16` type and a `u32` size at +4; a zero size ends the walk, the
/// XML container's 8-byte header is stepped into, any other chunk is
/// stepped over by its size.
pub open spec fn chunks_from(b: Seq<u8>, off: int, m: ManifestView, pool: Seq<Seq<char>>) -> Step<
    ManifestView,
>
    decreases walk_measure(b, off),
{
    if off < 0 || off + 8 > b.len() {
        Step::Value(m)
    } else {
        let ctype = le16(b, off);
        let csize = le32(b, off + 4);
        if csize == 0 {
            Step::Value(m)
        } else if ctype == RES_STRING_POOL_TYPE {
            match string_pool(b, off) {
                Step::Value(p) => chunks_from(b, off + csize, m, p),
                Step::Error(e) => Step::Error(e),
                Step::Underflow => Step::Underflow,
            }
        } else if ctype == RES_XML_START_ELEMENT_TYPE {
            match start_element(b, off, pool) {
                Ok((elem, attrs)) => chunks_from(
                    b,
                    off + csize,
                    apply_element_spec(m, elem, attrs),
                    pool,
                ),
                Err(e) => Step::Error(e),
            }
        } else if ctype == RES_XML_TYPE {
            chunks_from(b, off + 8, m, pool)
        } else {
            chunks_from(b, off + csize, m, pool)
        }
    }
}

/// What a binary manifest says.
pub open spec fn axml_spec(b: Seq<u8>) -> Step<ManifestView> {
    if b.len() < 8 {
        Step::Error(AxmlError::Invalid("file too small to be AXML"))
    } else {
        chunks_from(b, 0, empty_manifest(), Seq::empty())
    }
}

// ---------------------------------------------------------------------------
// Laws of the element rules
// ---------------------------------------------------------------------------

/// The component an element with attributes `kv` describes, field by field.
pub open spec fn is_component_of(c: ComponentView, kv: AttrsView) -> bool {
    &&& c.name == (match kv_get(kv, "name"@) {
        Some(n) => n,
        None => Seq::empty(),
    })
    &&& c.exported == (match kv_get(kv, "exported"@) {
        Some(t) => crate::text::parse_bool_spec(t),
        None => None,
    })
    &&& c.enabled == (match kv_get(kv, "enabled"@) {
        Some(t) => crate::text::parse_bool_spec(t),
        None => None,
    })
    &&& c.permission == kv_get(kv, "permission"@)
}

/// Everything but the component lists and the application is unchanged.
pub open spec fn same_header(a: ManifestView, b: ManifestView) -> bool {
    &&& a.package == b.package
    &&& a.version_code == b.version_code
    &&& a.version_name == b.version_name
    &&& a.min_sdk_version == b.min_sdk_version
    &&& a.target_sdk_version == b.target_sdk_version
    &&& a.max_sdk_version == b.max_sdk_version
    &&& a.compile_sdk_version == b.compile_sdk_version
    &&& a.permissions == b.permissions
}

proof fn lemma_element_names_distinct()
    ensures
        "manifest"@ != "uses-sdk"@,
        "manifest"@ != "activity"@,
        "manifest"@ != "receiver"@,
        "manifest"@ != "provider"@,
        "uses-sdk"@ != "activity"@,
        "uses-sdk"@ != "receiver"@,
        "uses-sdk"@ != "provider"@,
        "activity"@ != "receiver"@,
        "activity"@ != "provider"@,
        "receiver"@ != "provider"@,
        "service"@.len() == 7,
        "application"@.len() == 11,
        "activity-alias"@.len() == 14,
        "uses-permission"@.len() == 15,
        "uses-permission-sdk-23"@.len() == 22,
        "manifest"@.len() == 8,
        "uses-sdk"@.len() == 8,
        "activity"@.len() == 8,
        "receiver"@.len() == 8,
        "provider"@.len() == 8,
{
    reveal_strlit("manifest");
    assert("manifest"@.len() == 8 && "manifest"@[0] == 'm');
    reveal_strlit("uses-sdk");
    assert("uses-sdk"@.len() == 8 && "uses-sdk"@[0] == 'u');
    reveal_strlit("uses-permission");
    assert("uses-permission"@.len() == 15 && "uses-permission"@[0] == 'u');
    reveal_strlit("uses-permission-sdk-23");
    assert("uses-permission-sdk-23"@.len() == 22 && "uses-permission-sdk-23"@[0] == 'u');
    reveal_strlit("application");
    assert("application"@.len() == 11 && "application"@[0] == 'a');
    reveal_strlit("activity");
    assert("activity"@.len() == 8 && "activity"@[0] == 'a');
    reveal_strlit("activity-alias");
    assert("activity-alias"@.len() == 14 && "activity-alias"@[0] == 'a');
    reveal_strlit("service");
    assert("service"@.len() == 7 && "service"@[0] == 's');
    reveal_strlit("receiver");
    assert("receiver"@.len() == 8 && "receiver"@[0] == 'r');
    reveal_strlit("provider");
    assert("provider"@.len() == 8 && "provider"@[0] == 'p');
}

/// Each component element lands in its own list, and only there: a
/// `<service>` appends one component, built from its attributes, to the
/// services and leaves the activities, receivers, providers, application and
/// everything else as they were; likewise `<receiver>`, `<provider>`,
/// `<activity>`/`<activity-alias>`; `<application>` sets the application.
pub proof fn lemma_component_elements(m: ManifestView, elem: Seq<char>, kv: AttrsView)
    ensures
        ({
            let r = apply_element_spec(m, elem, kv);
            &&& elem == "service"@ ==> r.services.len() == m.services.len() + 1
                && r.services.take(m.services.len() as int) == m.services && is_component_of(
                r.services.last(),
                kv,
            ) && r.receivers == m.receivers && r.activities == m.activities && r.providers
                == m.providers && r.application == m.application && same_header(r, m)
            &&& elem == "receiver"@ ==> r.receivers.len() == m.receivers.len() + 1
                && r.receivers.take(m.receivers.len() as int) == m.receivers && is_component_of(
                r.receivers.last(),
                kv,
            ) && r.services == m.services && r.activities == m.activities && r.providers
                == m.providers && r.application == m.application && same_header(r, m)
            &&& elem == "provider"@ ==> r.providers.len() == m.providers.len() + 1
                && r.providers.take(m.providers.len() as int) == m.providers && is_component_of(
                r.providers.last(),
                kv,
            ) && r.services == m.services && r.activities == m.activities && r.receivers
                == m.receivers && r.application == m.application && same_header(r, m)
            &&& (elem == "activity"@ || elem == "activity-alias"@) ==> r.activities.len()
                == m.activities.len() + 1 && r.activities.take(m.activities.len() as int)
                == m.activities && is_component_of(r.activities.last(), kv) && r.services
                == m.services && r.receivers == m.receivers && r.providers == m.providers
                && r.application == m.application && same_header(r, m)
            &&& elem == "application"@ ==> (r.application matches Some(a) && is_component_of(a, kv))
                && r.services == m.services && r.receivers == m.receivers && r.providers
                == m.providers && r.activities == m.activities && same_header(r, m)
        }),
{
    lemma_element_names_distinct();
    let r = apply_element_spec(m, elem, kv);
    assert(m.services.push(element_component(kv)).take(m.services.len() as int) =~= m.services);
    assert(m.receivers.push(element_component(kv)).take(m.receivers.len() as int) =~= m.receivers);
    assert(m.providers.push(element_component(kv)).take(m.providers.len() as int) =~= m.providers);
    assert(m.activities.push(element_component(kv)).take(m.activities.len() as int)
        =~= m.activities);
}

/// `<manifest>` sets the package when it carries one (and keeps the old one
/// otherwise) and sets both version fields from its own attributes; a
/// `<uses-permission>` (or `-sdk-23`) with a name appends exactly that
/// permission, one without a name changes nothing; neither touches the
/// component lists or the SDK levels.
pub proof fn lemma_manifest_and_permission_elements(m: ManifestView, elem: Seq<char>, kv: AttrsView)
    ensures
        ({
            let r = apply_element_spec(m, elem, kv);
            &&& elem == "manifest"@ ==> r.package == (match kv_get(kv, "package"@) {
                Some(p) => p,
                None => m.package,
            }) && r.version_code == kv_get(kv, "versionCode"@) && r.version_name == kv_get(
                kv,
                "versionName"@,
            ) && r.permissions == m.permissions && r.activities == m.activities && r.services
                == m.services && r.receivers == m.receivers && r.providers == m.providers
                && r.application == m.application && r.min_sdk_version == m.min_sdk_version
                && r.target_sdk_version == m.target_sdk_version && r.max_sdk_version
                == m.max_sdk_version && r.compile_sdk_version == m.compile_sdk_version
            &&& (elem == "uses-permission"@ || elem == "uses-permission-sdk-23"@) ==> (match kv_get(
                kv,
                "name"@,
            ) {
                Some(n) => r.permissions.len() == m.permissions.len() + 1 && r.permissions.take(
                    m.permissions.len() as int,
                ) == m.permissions && r.permissions.last().name == n
                    && r.permissions.last().max_sdk_version == (match kv_get(kv, "maxSdkVersion"@) {
                    Some(t) => crate::text::parse_u32_spec(t),
                    None => None,
                }),
                None => r.permissions == m.permissions,
            }) && r.activities == m.activities && r.services == m.services && r.receivers
                == m.receivers && r.providers == m.providers && r.application == m.application
                && r.package == m.package && r.min_sdk_version == m.min_sdk_version
                && r.max_sdk_version == m.max_sdk_version
        }),
{
    lemma_element_names_distinct();
    if let Some(n) = kv_get(kv, "name"@) {
        let pv = PermissionView {
            name: n,
            max_sdk_version: parse_opt_u32(kv_get(kv, "maxSdkVersion"@)),
        };
        assert(m.permissions.push(pv).take(m.permissions.len() as int) =~= m.permissions);
    }
}

/// An element that the manifest does not describe changes nothing.
pub proof fn lemma_other_elements_ignored(m: ManifestView, elem: Seq<char>, kv: AttrsView)
    requires
        elem != "manifest"@,
        elem != "uses-sdk"@,
        elem != "uses-permission"@,
        elem != "uses-permission-sdk-23"@,
        elem != "application"@,
        elem != "activity"@,
        elem != "activity-alias"@,
        elem != "service"@,
        elem != "receiver"@,
        elem != "provider"@,
    ensures
        apply_element_spec(m, elem, kv) == m,
{
}

/// `<uses-sdk>` sets each SDK level from its own attribute: the maximum
/// level is the parsed `maxSdkVersion` and unknown when that attribute is
/// missing, whatever the others say (and likewise minimum, target, compile).
/// A decimal attribute value `n` reads as `n`. Nothing else changes.
pub proof fn lemma_uses_sdk_levels(m: ManifestView, kv: AttrsView, n: u32)
    ensures
        ({
            let r = apply_element_spec(m, "uses-sdk"@, kv);
            &&& r.max_sdk_version == (match kv_get(kv, "maxSdkVersion"@) {
                Some(t) => crate::text::parse_u32_spec(t),
                None => None,
            })
            &&& r.min_sdk_version == (match kv_get(kv, "minSdkVersion"@) {
                Some(t) => crate::text::parse_u32_spec(t),
                None => None,
            })
            &&& r.target_sdk_version == (match kv_get(kv, "targetSdkVersion"@) {
                Some(t) => crate::text::parse_u32_spec(t),
                None => None,
            })
            &&& r.compile_sdk_version == (match kv_get(kv, "compileSdkVersion"@) {
                Some(t) => crate::text::parse_u32_spec(t),
                None => None,
            })
            &&& kv_get(kv, "maxSdkVersion"@) is None ==> r.max_sdk_version is None
            &&& kv_get(kv, "maxSdkVersion"@) == Some(decimal(n as nat)) ==> r.max_sdk_version
                == Some(n)
            &&& kv_get(kv, "targetSdkVersion"@) == Some(decimal(n as nat))
                ==> r.target_sdk_version == Some(n)
            &&& kv_get(kv, "minSdkVersion"@) == Some(decimal(n as nat)) ==> r.min_sdk_version
                == Some(n)
            &&& r.package == m.package && r.version_code == m.version_code && r.version_name
                == m.version_name && r.permissions == m.permissions && r.activities
                == m.activities && r.services == m.services && r.receivers == m.receivers
                && r.providers == m.providers && r.application == m.application
        }),
{
    lemma_element_names_distinct();
    crate::text::lemma_decimal_parses_back(n);
}

/// The resource-ID table: each framework attribute ID gives its own
/// `android.R.attr` name.
pub proof fn lemma_attr_name_table_entries()
    ensures
        attr_name_from_id_spec(0x01010000) == Some("theme"@),
        attr_name_from_id_spec(0x01010001) == Some("label"@),
        attr_name_from_id_spec(0x01010002) == Some("icon"@),
        attr_name_from_id_spec(0x01010003) == Some("name"@),
        attr_name_from_id_spec(0x01010006) == Some("permission"@),
        attr_name_from_id_spec(0x0101000e) == Some("enabled"@),
        attr_name_from_id_spec(0x0101000f) == Some("debuggable"@),
        attr_name_from_id_spec(0x01010010) == Some("exported"@),
        attr_name_from_id_spec(0x01010011) == Some("process"@),
        attr_name_from_id_spec(0x01010012) == Some("taskAffinity"@),
        attr_name_from_id_spec(0x0101021b) == Some("versionCode"@),
        attr_name_from_id_spec(0x0101021c) == Some("versionName"@),
        attr_name_from_id_spec(0x0101020c) == Some("minSdkVersion"@),
        attr_name_from_id_spec(0x01010270) == Some("targetSdkVersion"@),
        attr_name_from_id_spec(0x01010271) == Some("maxSdkVersion"@),
        attr_name_from_id_spec(0x01010572) == Some("compileSdkVersion"@),
        attr_name_from_id_spec(0x01010280) == Some("allowBackup"@),
        attr_name_from_id_spec(0x0101027b) == Some("supportsRtl"@),
        attr_name_from_id_spec(0x010103a2) == Some("usesCleartextTraffic"@),
        attr_name_from_id_spec(0x010104f6) == Some("networkSecurityConfig"@),
{
}

/// An attribute with no pool name and a known framework ID is named by the
/// table: e.g. an `<activity>`'s `enabled` given only as ID `0x0101000e` is
/// the element's `enabled` attribute, and `0x0101000f` is `debuggable`.
pub proof fn lemma_attr_names_by_id(pool: Seq<Seq<char>>, raw: u32)
    ensures
        raw == 0x0101000e ==> attr_name_spec(pool, NO_INDEX, raw) == "enabled"@,
        raw == 0x0101000f ==> attr_name_spec(pool, NO_INDEX, raw) == "debuggable"@,
        raw == 0x01010010 ==> attr_name_spec(pool, NO_INDEX, raw) == "exported"@,
        raw == 0x01010003 ==> attr_name_spec(pool, NO_INDEX, raw) == "name"@,
        raw == 0x01010006 ==> attr_name_spec(pool, NO_INDEX, raw) == "permission"@,
        raw == 0x0101020c ==> attr_name_spec(pool, NO_INDEX, raw) == "minSdkVersion"@,
        raw == 0x01010270 ==> attr_name_spec(pool, NO_INDEX, raw) == "targetSdkVersion"@,
        raw == 0x01010271 ==> attr_name_spec(pool, NO_INDEX, raw) == "maxSdkVersion"@,
{
}

/// Typed attribute values read back: a decimal integer attribute is read as
/// its number where the manifest expects one (SDK levels), and a boolean
/// attribute as its truth value (`exported`, `enabled`).
pub proof fn lemma_typed_values_read_back(pool: Seq<Seq<char>>, data: u32, raw: u32)
    ensures
        parse_opt_u32(Some(attr_value_spec(pool, TYPE_INT_DEC, data, raw))) == Some(data),
        parse_opt_bool(Some(attr_value_spec(pool, TYPE_INT_BOOLEAN, data, raw))) == Some(data != 0),
{
    crate::text::lemma_decimal_parses_back(data);
    crate::text::lemma_bool_text_parses_back(data != 0);
}

proof fn lemma_utf16_units_oob(b: Seq<u8>, p: int, n: nat, acc: Seq<char>)
    ensures
        utf16_units(b, p, n, acc) matches Step::Error(e) ==> e is OutOfBounds,
    decreases n,
{
    if n > 0 {
        if let Ok(cu) = rd16(b, p) {
            if 0xD800 <= cu && cu <= 0xDBFF {
                if let Ok(lo) = rd16(b, p + 2) {
                    if lo >= 0xDC00 {
                        lemma_utf16_units_oob(
                            b,
                            p + 4,
                            (n - 1) as nat,
                            acc.push(
                                char_or_replacement(
                                    (0x10000 + (cu - 0xD800) * 1024 + (lo - 0xDC00)) as u32,
                                ),
                            ),
                        );
                    }
                }
            } else {
                lemma_utf16_units_oob(b, p + 2, (n - 1) as nat, acc.push(char_or_replacement(cu as u32)));
            }
        }
    }
}

#[verifier::rlimit(40)]
proof fn lemma_pool_strings_oob(
    b: Seq<u8>,
    offsets_base: int,
    strings_base: int,
    is_utf8: bool,
    count: nat,
    i: nat,
    acc: Seq<Seq<char>>,
)
    ensures
        pool_strings(b, offsets_base, strings_base, is_utf8, count, i, acc) matches Step::Error(e)
            ==> e is OutOfBounds,
    decreases count - i,
{
    if i < count {
        if let Ok(rel) = rd32(b, offsets_base + i * 4) {
            let start = strings_base + rel;
            if !is_utf8 {
                match rd16(b, start) {
                    Ok(len0) => {
                        if len0 & 0x8000 != 0 {
                            if let Ok(lo) = rd16(b, start + 2) {
                                lemma_utf16_units_oob(
                                    b,
                                    start + 4,
                                    ((((len0 & 0x7fff) as u32) << 16u32) | (lo as u32)) as nat,
                                    Seq::empty(),
                                );
                            }
                        } else {
                            lemma_utf16_units_oob(b, start + 2, len0 as nat, Seq::empty());
                        }
                    },
                    Err(_) => {},
                }
            }
            let r = if is_utf8 {
                utf8_string(b, start)
            } else {
                utf16_string(b, start)
            };
            if let Step::Value(s) = r {
                lemma_pool_strings_oob(b, offsets_base, strings_base, is_utf8, count, i + 1, acc.push(s));
            }
        }
    }
}

proof fn lemma_element_attrs_oob(
    b: Seq<u8>,
    off: int,
    pool: Seq<Seq<char>>,
    count: nat,
    attr_start: int,
    attr_size: int,
    i: nat,
    acc: AttrsView,
)
    ensures
        element_attrs(b, off, pool, count, attr_start, attr_size, i, acc) matches Err(e)
            ==> e is OutOfBounds,
    decreases count - i,
{
    if i < count {
        if let Ok((name_i, raw, val_type, data)) = attr_record(
            b,
            attr_pos(off, attr_start, attr_size, i as int),
        ) {
            lemma_element_attrs_oob(
                b,
                off,
                pool,
                count,
                attr_start,
                attr_size,
                i + 1,
                acc.push((attr_name_spec(pool, name_i, raw), attr_value_spec(pool, val_type, data, raw))),
            );
        }
    }
}

#[verifier::rlimit(40)]
proof fn lemma_chunks_from_oob(b: Seq<u8>, off: int, m: ManifestView, pool: Seq<Seq<char>>)
    ensures
        chunks_from(b, off, m, pool) matches Step::Error(e) ==> e is OutOfBounds,
    decreases walk_measure(b, off),
{
    if !(off < 0 || off + 8 > b.len()) {
        let ctype = le16(b, off);
        let csize = le32(b, off + 4);
        if csize != 0 {
            if ctype == RES_STRING_POOL_TYPE {
                if let Ok(count) = rd32(b, off + 8) {
                    if let Ok(flags) = rd32(b, off + 16) {
                        if let Ok(strings_start) = rd32(b, off + 20) {
                            lemma_pool_strings_oob(
                                b,
                                off + 28,
                                off + strings_start,
                                flags & 0x100 != 0,
                                count as nat,
                                0,
                                Seq::empty(),
                            );
                        }
                    }
                }
                if let Step::Value(p) = string_pool(b, off) {
                    lemma_chunks_from_oob(b, off + csize, m, p);
                }
            } else if ctype == RES_XML_START_ELEMENT_TYPE {
                if let Ok(attr_count) = rd16(b, off + 24) {
                    if let Ok(attr_start) = rd16(b, off + 26) {
                        if let Ok(attr_size) = rd16(b, off + 28) {
                            lemma_element_attrs_oob(
                                b,
                                off,
                                pool,
                                attr_count as nat,
                                attr_start as int,
                                attr_size as int,
                                0,
                                Seq::empty(),
                            );
                        }
                    }
                }
                if let Ok((elem, attrs)) = start_element(b, off, pool) {
                    lemma_chunks_from_oob(b, off + csize, apply_element_spec(m, elem, attrs), pool);
                }
            } else if ctype == RES_XML_TYPE {
                lemma_chunks_from_oob(b, off + 8, m, pool);
            } else {
                lemma_chunks_from_oob(b, off + csize, m, pool);
            }
        }
    }
}

/// The reader refuses an input as invalid exactly when it is too small to
/// hold a chunk header (under 8 bytes); every other error is a read past the
/// end of the input.
pub proof fn lemma_axml_errors(b: Seq<u8>)
    ensures
        axml_spec(b) matches Step::Error(e) ==> (e is Invalid <==> b.len() < 8),
        b.len() >= 8 ==> (axml_spec(b) matches Step::Error(e) ==> e is OutOfBounds),
        b.len() < 8 ==> axml_spec(b) is Error,
{
    if b.len() >= 8 {
        lemma_chunks_from_oob(b, 0, empty_manifest(), Seq::empty());
    }
}

// ---------------------------------------------------------------------------
// Executable reader
// ---------------------------------------------------------------------------

/// The slack above the input length that offsets computed from header fields
/// stay within.
pub open spec fn slack() -> int {
    0x10_0000_0000
}

/// An offset the reader may compute: bounded so that 64-bit arithmetic on it
/// cannot overflow.
pub open spec fn in_reach(b: Seq<u8>, o: int) -> bool {
    0 <= o <= b.len() + slack()
}

fn rd_u8(b: &[u8], o: u64) -> (res: Result<u8, AxmlError>)
    requires
        b@.len() <= isize::MAX,
        in_reach(b@, o as int),
    ensures
        res == rd8(b@, o as int),
{
    if o >= b.len() as u64 {
        Err(AxmlError::OutOfBounds(#[verifier::truncate] (o as usize)))
    } else {
        Ok(b[o as usize])
    }
}

fn rd_u16(b: &[u8], o: u64) -> (res: Result<u16, AxmlError>)
    requires
        b@.len() <= isize::MAX,
        in_reach(b@, o as int),
    ensures
        res == rd16(b@, o as int),
{
    if o + 2 > b.len() as u64 {
        Err(AxmlError::OutOfBounds(#[verifier::truncate] (o as usize)))
    } else {
        let i = o as usize;
        Ok((b[i] as u16) + (b[i + 1] as u16) * 256)
    }
}

fn rd_u32(b: &[u8], o: u64) -> (res: Result<u32, AxmlError>)
    requires
        b@.len() <= isize::MAX,
        in_reach(b@, o as int),
    ensures
        res == rd32(b@, o as int),
{
    if o + 4 > b.len() as u64 {
        Err(AxmlError::OutOfBounds(#[verifier::truncate] (o as usize)))
    } else {
        let i = o as usize;
        Ok((b[i] as u32) + (b[i + 1] as u32) * 256 + (b[i + 2] as u32) * 65536 + (b[i + 3] as u32)
            * 16777216)
    }
}

fn char_or_fffd(c: u32) -> (res: char)
    ensures
        res == char_or_replacement(c),
{
    match char_from_u32(c) {
        Some(ch) => ch,
        None => '\u{fffd}',
    }
}

#[verifier::rlimit(40)]
pub fn decode_utf16(b: &[u8], start: u64) -> (res: Step<String>)
    requires
        b@.len() <= isize::MAX,
    ensures
        step_agrees(res, utf16_string(b@, start as int)),
        start > b@.len() ==> (res matches Step::Error(e) && e == out_of_bounds(start as int)),
{
    if start > b.len() as u64 {
        // The first read, at `start`, is already past the end.
        return Step::Error(AxmlError::OutOfBounds(#[verifier::truncate] (start as usize)));
    }
    let len0 = match rd_u16(b, start) {
        Ok(v) => v,
        Err(e) => return Step::Error(e),
    };
    let len: u32;
    let mut p: u64;
    if len0 & 0x8000 != 0 {
        let lo = match rd_u16(b, start + 2) {
            Ok(v) => v,
            Err(e) => return Step::Error(e),
        };
        len = (((len0 & 0x7fff) as u32) << 16u32) | (lo as u32);
        p = start + 4;
    } else {
        len = len0 as u32;
        p = start + 2;
    }
    let mut s = String::new();
    let mut k: u32 = len;
    assert(s@ =~= Seq::<char>::empty());
    while k > 0
        invariant
            b@.len() <= isize::MAX,
            0 <= p <= b@.len() + 0x2_0000_0004,
            utf16_string(b@, start as int) == utf16_units(b@, p as int, k as nat, s@),
        decreases k,
    {
        let cu = match rd_u16(b, p) {
            Ok(v) => v,
            Err(e) => return Step::Error(e),
        };
        if 0xD800 <= cu && cu <= 0xDBFF {
            let lo = match rd_u16(b, p + 2) {
                Ok(v) => v,
                Err(e) => return Step::Error(e),
            };
            if lo < 0xDC00 {
                return Step::Underflow;
            }
            let c = 0x10000u32 + ((cu - 0xD800) as u32) * 1024 + ((lo - 0xDC00) as u32);
            push_char(&mut s, char_or_fffd(c));
            p = p + 4;
        } else {
            push_char(&mut s, char_or_fffd(cu as u32));
            p = p + 2;
        }
        k = k - 1;
    }
    Step::Value(s)
}

fn read_utf8_len(b: &[u8], o: u64) -> (res: Result<(u32, u64), AxmlError>)
    requires
        b@.len() <= isize::MAX,
        0 <= o <= b@.len() + 0x2_0000_0002,
    ensures
        match utf8_len(b@, o as int) {
            Ok((n, a)) => res matches Ok((n2, a2)) && n2 == n && a2 == a && 1 <= a <= 2,
            Err(e) => res matches Err(e2) && e2 == e,
        },
{
    let b0 = rd_u8(b, o)?;
    if b0 & 0x80 == 0 {
        Ok((b0 as u32, 1))
    } else {
        let b1 = rd_u8(b, o + 1)?;
        Ok(((((b0 & 0x7f) as u32) << 8u32) | (b1 as u32), 2))
    }
}

pub fn decode_utf8(b: &[u8], start: u64) -> (res: Step<String>)
    requires
        b@.len() <= isize::MAX,
    ensures
        step_agrees(res, utf8_string(b@, start as int)),
        start > b@.len() ==> (res matches Step::Error(e) && e == out_of_bounds(start as int)),
{
    if start > b.len() as u64 {
        // The first read, at `start`, is already past the end.
        return Step::Error(AxmlError::OutOfBounds(#[verifier::truncate] (start as usize)));
    }
    let (_u16len, a1) = match read_utf8_len(b, start) {
        Ok(v) => v,
        Err(e) => return Step::Error(e),
    };
    let (n, a2) = match read_utf8_len(b, start + a1) {
        Ok(v) => v,
        Err(e) => return Step::Error(e),
    };
    let bs = start + a1 + a2;
    let end = bs + n as u64;
    if end > b.len() as u64 {
        return Step::Error(AxmlError::OutOfBounds(#[verifier::truncate] (end as usize)));
    }
    let text = string_from_utf8_lossy(slice_subrange(b, bs as usize, end as usize));
    Step::Value(text)
}

#[verifier::rlimit(40)]
fn parse_string_pool(b: &[u8], start: u64) -> (res: Step<Vec<String>>)
    requires
        b@.len() <= isize::MAX,
        start < b@.len(),
    ensures
        step_agrees(res, string_pool(b@, start as int)),
{
    let count = match rd_u32(b, start + 8) {
        Ok(v) => v,
        Err(e) => return Step::Error(e),
    };
    let flags = match rd_u32(b, start + 16) {
        Ok(v) => v,
        Err(e) => return Step::Error(e),
    };
    let strings_start = match rd_u32(b, start + 20) {
        Ok(v) => v,
        Err(e) => return Step::Error(e),
    };
    let offsets_base = start + 28;
    let strings_base = start + strings_start as u64;
    let is_utf8 = (flags & 0x100) != 0;
    let mut out: Vec<String> = Vec::new();
    let mut i: u64 = 0;
    assert(out.deep_view() =~= Seq::<Seq<char>>::empty());
    while i < count as u64
        invariant
            b@.len() <= isize::MAX,
            start < b@.len(),
            offsets_base == start + 28,
            strings_base == start + strings_start,
            i <= count,
            offsets_base + i * 4 <= b@.len() + 28,
            string_pool(b@, start as int) == pool_strings(
                b@,
                offsets_base as int,
                strings_base as int,
                is_utf8,
                count as nat,
                i as nat,
                out.deep_view(),
            ),
        decreases count - i,
    {
        let rel = match rd_u32(b, offsets_base + i * 4) {
            Ok(v) => v,
            Err(e) => return Step::Error(e),
        };
        let p = strings_base + rel as u64;
        let r = if is_utf8 {
            decode_utf8(b, p)
        } else {
            decode_utf16(b, p)
        };
        match r {
            Step::Value(s) => {
                let ghost before = out.deep_view();
                out.push(s);
                assert(out.deep_view() =~= before.push(s@));
            },
            Step::Error(e) => return Step::Error(e),
            Step::Underflow => return Step::Underflow,
        }
        i = i + 1;
    }
    Step::Value(out)
}

/// A copy of the pool string at `i`, or the empty string.
fn pool_string(pool: &Vec<String>, i: u32) -> (res: String)
    ensures
        res@ == pool_get(pool.deep_view(), i as int),
{
    if (i as usize) < pool.len() {
        pool[i as usize].clone()
    } else {
        String::new()
    }
}

/// Map an Android framework attribute resource ID to its attribute name.
pub fn attr_name_from_id(id: u32) -> (res: Option<&'static str>)
    ensures
        match res {
            Some(s) => attr_name_from_id_spec(id) == Some(s@),
            None => attr_name_from_id_spec(id) is None,
        },
{
    if id == 0x01010000 {
        Some("theme")
    } else if id == 0x01010001 {
        Some("label")
    } else if id == 0x01010002 {
        Some("icon")
    } else if id == 0x01010003 {
        Some("name")
    } else if id == 0x01010006 {
        Some("permission")
    } else if id == 0x0101000e {
        Some("enabled")
    } else if id == 0x0101000f {
        Some("debuggable")
    } else if id == 0x01010010 {
        Some("exported")
    } else if id == 0x01010011 {
        Some("process")
    } else if id == 0x01010012 {
        Some("taskAffinity")
    } else if id == 0x0101021b {
        Some("versionCode")
    } else if id == 0x0101021c {
        Some("versionName")
    } else if id == 0x0101020c {
        Some("minSdkVersion")
    } else if id == 0x01010270 {
        Some("targetSdkVersion")
    } else if id == 0x01010271 {
        Some("maxSdkVersion")
    } else if id == 0x01010572 {
        Some("compileSdkVersion")
    } else if id == 0x01010280 {
        Some("allowBackup")
    } else if id == 0x0101027b {
        Some("supportsRtl")
    } else if id == 0x010103a2 {
        Some("usesCleartextTraffic")
    } else if id == 0x010104f6 {
        Some("networkSecurityConfig")
    } else {
        None
    }
}

fn attr_name(pool: &Vec<String>, name_i: u32, raw: u32) -> (res: String)
    ensures
        res@ == attr_name_spec(pool.deep_view(), name_i, raw),
{
    if name_i == NO_INDEX {
        match attr_name_from_id(raw) {
            Some(n) => String::from_str(n),
            None => {
                let mut s = String::from_str("attr_0x");
                push_hex_padded(&mut s, raw, 8);
                s
            },
        }
    } else {
        pool_string(pool, name_i)
    }
}

pub fn attr_value_to_string(pool: &Vec<String>, val_type: u8, data: u32, raw: u32) -> (res: String)
    ensures
        res@ == attr_value_spec(pool.deep_view(), val_type, data, raw),
{
    if val_type == TYPE_STRING {
        pool_string(pool, data)
    } else if val_type == TYPE_INT_BOOLEAN {
        bool_string(data != 0)
    } else if val_type == TYPE_INT_DEC {
        let mut s = String::new();
        push_decimal(&mut s, data);
        assert(s@ =~= decimal(data as nat));
        s
    } else if val_type == TYPE_INT_HEX {
        let mut s = String::from_str("0x");
        push_hex_padded(&mut s, data, 0);
        s
    } else if raw != NO_INDEX {
        pool_string(pool, raw)
    } else {
        let mut s = String::from_str("(type 0x");
        push_hex_padded(&mut s, val_type as u32, 2);
        s.append(" data ");
        push_decimal(&mut s, data);
        s.append(")");
        s
    }
}

fn read_attr(b: &[u8], p: u64) -> (res: Result<(u32, u32, u8, u32), AxmlError>)
    requires
        b@.len() <= isize::MAX,
        in_reach(b@, p as int),
        p as int + 20 <= b@.len() + slack(),
    ensures
        res == attr_record(b@, p as int),
{
    let _ns = rd_u32(b, p)?;
    let name_i = rd_u32(b, p + 4)?;
    let raw = rd_u32(b, p + 8)?;
    let _val_size = rd_u16(b, p + 12)?;
    let _res0 = rd_u8(b, p + 14)?;
    let val_type = rd_u8(b, p + 15)?;
    let val_data = rd_u32(b, p + 16)?;
    Ok((name_i, raw, val_type, val_data))
}

/// Parse a start-element chunk: its tag name and attribute list.
#[verifier::rlimit(40)]
fn parse_start_element(b: &[u8], off: u64, pool: &Vec<String>) -> (res: Result<
    (String, Vec<(String, String)>),
    AxmlError,
>)
    requires
        b@.len() <= isize::MAX,
        off < b@.len(),
    ensures
        match start_element(b@, off as int, pool.deep_view()) {
            Ok((n, a)) => res matches Ok((n2, a2)) && n2@ == n && a2.deep_view() == a,
            Err(e) => res matches Err(e2) && e2 == e,
        },
{
    let name_idx = rd_u32(b, off + 20)?;
    let attr_count = rd_u16(b, off + 24)?;
    let attr_start = rd_u16(b, off + 26)?;
    let attr_size = rd_u16(b, off + 28)?;
    let elem_name = if name_idx == NO_INDEX {
        String::from_str("?")
    } else {
        pool_string(pool, name_idx)
    };
    let mut attrs: Vec<(String, String)> = Vec::new();
    assert(attrs.deep_view() =~= Seq::<(Seq<char>, Seq<char>)>::empty());
    if attr_size == 0 {
        return Ok((elem_name, attrs));
    }
    let ghost whole = element_attrs(
        b@,
        off as int,
        pool.deep_view(),
        attr_count as nat,
        attr_start as int,
        attr_size as int,
        0,
        Seq::empty(),
    );
    assert(start_element(b@, off as int, pool.deep_view()) == match whole {
        Err(e) => Err(e),
        Ok(a) => Ok((elem_name@, a)),
    });
    let mut i: u64 = 0;
    while i < attr_count as u64
        invariant
            b@.len() <= isize::MAX,
            off < b@.len(),
            i <= attr_count,
            attr_size > 0,
            start_element(b@, off as int, pool.deep_view()) == match whole {
                Err(e) => Err(e),
                Ok(a) => Ok((elem_name@, a)),
            },
            whole == element_attrs(
                b@,
                off as int,
                pool.deep_view(),
                attr_count as nat,
                attr_start as int,
                attr_size as int,
                0,
                Seq::empty(),
            ),
            element_attrs(
                b@,
                off as int,
                pool.deep_view(),
                attr_count as nat,
                attr_start as int,
                attr_size as int,
                0,
                Seq::empty(),
            ) == element_attrs(
                b@,
                off as int,
                pool.deep_view(),
                attr_count as nat,
                attr_start as int,
                attr_size as int,
                i as nat,
                attrs.deep_view(),
            ),
        decreases attr_count - i,
    {
        assert(i * attr_size < 0x1_0000_0000) by (nonlinear_arith)
            requires
                i < 0x10000,
                attr_size < 0x10000,
        ;
        let stride = i * (attr_size as u64);
        let ab = off + attr_start as u64 + stride;
        let p = if attr_size > 20 {
            ab + 8
        } else {
            ab
        };
        let (name_i, raw, val_type, val_data) = read_attr(b, p)?;
        let aname = attr_name(pool, name_i, raw);
        let value = attr_value_to_string(pool, val_type, val_data, raw);
        attr_push(&mut attrs, aname, value);
        i = i + 1;
    }
    Ok((elem_name, attrs))
}

fn opt_u32(o: Option<String>) -> (res: Option<u32>)
    ensures
        res == parse_opt_u32(o.deep_view()),
{
    match o {
        Some(s) => parse_u32_str(s.as_str()),
        None => None,
    }
}

fn opt_bool(o: Option<String>) -> (res: Option<bool>)
    ensures
        res == parse_opt_bool(o.deep_view()),
{
    match o {
        Some(s) => parse_bool_str(s.as_str()),
        None => None,
    }
}

fn component_from_attrs(attrs: &Vec<(String, String)>) -> (res: Component)
    ensures
        res@ == element_component(attrs.deep_view()),
{
    let name = match attr_get(attrs, "name") {
        Some(n) => n,
        None => String::new(),
    };
    Component {
        name,
        exported: opt_bool(attr_get(attrs, "exported")),
        enabled: opt_bool(attr_get(attrs, "enabled")),
        permission: attr_get(attrs, "permission"),
    }
}

fn apply_element(m: &mut ApkManifest, elem: &String, attrs: &Vec<(String, String)>)
    ensures
        final(m)@ == apply_element_spec(old(m)@, elem@, attrs.deep_view()),
{
    let e = elem.as_str();
    if str_is(e, "manifest") {
        if let Some(p) = attr_get(attrs, "package") {
            m.package = p;
        }
        m.version_code = attr_get(attrs, "versionCode");
        m.version_name = attr_get(attrs, "versionName");
    } else if str_is(e, "uses-sdk") {
        m.min_sdk_version = opt_u32(attr_get(attrs, "minSdkVersion"));
        m.target_sdk_version = opt_u32(attr_get(attrs, "targetSdkVersion"));
        m.max_sdk_version = opt_u32(attr_get(attrs, "maxSdkVersion"));
        m.compile_sdk_version = opt_u32(attr_get(attrs, "compileSdkVersion"));
    } else if str_is(e, "uses-permission") || str_is(e, "uses-permission-sdk-23") {
        if let Some(n) = attr_get(attrs, "name") {
            let max = opt_u32(attr_get(attrs, "maxSdkVersion"));
            push_permission(&mut m.permissions, Permission { name: n, max_sdk_version: max });
        }
    } else if str_is(e, "application") {
        m.application = Some(component_from_attrs(attrs));
    } else if str_is(e, "activity") || str_is(e, "activity-alias") {
        push_component(&mut m.activities, component_from_attrs(attrs));
    } else if str_is(e, "service") {
        push_component(&mut m.services, component_from_attrs(attrs));
    } else if str_is(e, "receiver") {
        push_component(&mut m.receivers, component_from_attrs(attrs));
    } else if str_is(e, "provider") {
        push_component(&mut m.providers, component_from_attrs(attrs));
    }
}

/// Parse the binary `AndroidManifest.xml` payload. `None` exactly on the
/// inputs where UTF-16 surrogate decoding underflows (see [`Step`]).
#[verifier::rlimit(40)]
pub fn parse_axml_checked(bytes: &[u8]) -> (res: Option<Result<ApkManifest, AxmlError>>)
    requires
        bytes@.len() <= isize::MAX,
    ensures
        match axml_spec(bytes@) {
            Step::Value(m) => res matches Some(Ok(r)) && r@ == m,
            Step::Error(e) => res matches Some(Err(e2)) && e2 == e,
            Step::Underflow => res is None,
        },
{
    if bytes.len() < 8 {
        return Some(Err(AxmlError::Invalid("file too small to be AXML")));
    }
    let mut manifest = ApkManifest::default();
    let mut pool: Vec<String> = Vec::new();
    assert(pool.deep_view() =~= Seq::<Seq<char>>::empty());
    let end = bytes.len() as u64;
    let mut off: u64 = 0;
    while off + 8 <= end
        invariant
            bytes@.len() <= isize::MAX,
            end == bytes@.len(),
            off <= end + 0x1_0000_0000,
            axml_spec(bytes@) == chunks_from(bytes@, off as int, manifest@, pool.deep_view()),
        decreases walk_measure(bytes@, off as int),
    {
        let ctype = match rd_u16(bytes, off) {
            Ok(v) => v,
            Err(e) => return Some(Err(e)),
        };
        let csize = match rd_u32(bytes, off + 4) {
            Ok(v) => v,
            Err(e) => return Some(Err(e)),
        };
        if csize == 0 {
            return Some(Ok(manifest));
        }
        if ctype == RES_STRING_POOL_TYPE {
            match parse_string_pool(bytes, off) {
                Step::Value(p) => {
                    pool = p;
                },
                Step::Error(e) => return Some(Err(e)),
                Step::Underflow => return None,
            }
        } else if ctype == RES_XML_START_ELEMENT_TYPE {
            match parse_start_element(bytes, off, &pool) {
                Ok((elem, attrs)) => apply_element(&mut manifest, &elem, &attrs),
                Err(e) => return Some(Err(e)),
            }
        } else if ctype == RES_XML_TYPE {
            // The top-level container: step into it; its children follow.
            off = off + 8;
            continue;
        }
        // Resource map, namespaces, end-element, CDATA and the rest: skip by size.
        off = off + csize as u64;
    }
    Some(Ok(manifest))
}

/// Parse the binary `AndroidManifest.xml` payload and return the extracted
/// manifest facts.
pub fn parse_axml(bytes: &[u8]) -> (res: Result<ApkManifest, AxmlError>)
    requires
        bytes@.len() <= isize::MAX,
        !(axml_spec(bytes@) is Underflow),
    ensures
        match axml_spec(bytes@) {
            Step::Value(m) => res matches Ok(r) && r@ == m,
            Step::Error(e) => res matches Err(e2) && e2 == e,
            Step::Underflow => false,
        },
{
    match parse_axml_checked(bytes) {
        Some(r) => r,
        None => Err(AxmlError::Invalid("file too small to be AXML")),
    }
}

} // verus!
