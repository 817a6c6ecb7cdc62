//! Text file processing with UTF-8 and UTF-16 support.
//!
//! Placeholders are replaced on the encoded code units of the text (bytes for
//! UTF-8, 16-bit units for UTF-16): in well-formed text a placeholder's
//! encoding can only match at character boundaries, so this is the same as
//! replacing characters.

use vstd::prelude::*;
use vstd::utf8::*;

use crate::error::Error;
use crate::placeholders::PlaceholderMap;

verus! {

broadcast use vstd::string::group_string_axioms;

// ---------------------------------------------------------------------------
// Specification of `str::replace` on code units
// ---------------------------------------------------------------------------

/// Whether a UTF-8 byte begins a character (is not a continuation byte).
pub open spec fn utf8_char_start(b: u8) -> bool {
    !(0x80 <= b && b <= 0xBF)
}

/// Whether a UTF-16 unit begins a character (is not a low surrogate).
pub open spec fn utf16_char_start(u: u16) -> bool {
    !(0xDC00 <= u && u <= 0xDFFF)
}

/// `utf8_char_start` as a function value.
pub open spec fn utf8_starts() -> spec_fn(u8) -> bool {
    |b: u8| utf8_char_start(b)
}

/// `utf16_char_start` as a function value.
pub open spec fn utf16_starts() -> spec_fn(u16) -> bool {
    |u: u16| utf16_char_start(u)
}

/// `rep` inserted before every character and once at the end: what
/// `str::replace` does with an empty pattern.
pub open spec fn insert_everywhere<T>(t: Seq<T>, rep: Seq<T>, starts: spec_fn(T) -> bool) -> Seq<T>
    decreases t.len(),
{
    if t.len() == 0 {
        rep
    } else {
        (if starts(t[0]) {
            rep
        } else {
            Seq::<T>::empty()
        }) + seq![t[0]] + insert_everywhere(t.skip(1), rep, starts)
    }
}

/// Every non-overlapping occurrence of `pat`, found from left to right,
/// replaced by `rep` (`str::replace`).
pub open spec fn replace_all<T>(t: Seq<T>, pat: Seq<T>, rep: Seq<T>, starts: spec_fn(T) -> bool) -> Seq<T>
    decreases t.len(),
{
    if pat.len() == 0 {
        insert_everywhere(t, rep, starts)
    } else if t.len() < pat.len() {
        t
    } else if t.take(pat.len() as int) == pat {
        rep + replace_all(t.skip(pat.len() as int), pat, rep, starts)
    } else {
        seq![t[0]] + replace_all(t.skip(1), pat, rep, starts)
    }
}

/// The UTF-16 encoding of one character.
pub open spec fn utf16_of(c: char) -> Seq<u16> {
    let u = c as u32;
    if u < 0x10000 {
        seq![u as u16]
    } else {
        seq![(0xD800 + (u - 0x10000) / 0x400) as u16, (0xDC00 + (u - 0x10000) % 0x400) as u16]
    }
}

/// The UTF-16 encoding of a character sequence (`str::encode_utf16`).
pub open spec fn encode_utf16(s: Seq<char>) -> Seq<u16>
    decreases s.len(),
{
    if s.len() == 0 {
        Seq::empty()
    } else {
        encode_utf16(s.drop_last()) + utf16_of(s.last())
    }
}

/// Whether a unit is a high (leading) surrogate.
pub open spec fn is_high_surrogate(u: u16) -> bool {
    0xD800 <= u && u <= 0xDBFF
}

/// Whether a unit is a low (trailing) surrogate.
pub open spec fn is_low_surrogate(u: u16) -> bool {
    0xDC00 <= u && u <= 0xDFFF
}

/// Well-formed UTF-16: every high surrogate is followed by a low one and no
/// low surrogate stands alone (what `String::from_utf16` accepts).
pub open spec fn valid_utf16(u: Seq<u16>) -> bool
    decreases u.len(),
{
    if u.len() == 0 {
        true
    } else if is_high_surrogate(u[0]) {
        u.len() >= 2 && is_low_surrogate(u[1]) && valid_utf16(u.skip(2))
    } else if is_low_surrogate(u[0]) {
        false
    } else {
        valid_utf16(u.skip(1))
    }
}

/// The 16-bit units of a byte sequence read in pairs, little- or big-endian.
pub open spec fn units_of(b: Seq<u8>, le: bool) -> Seq<u16> {
    Seq::new(
        b.len() / 2,
        |i: int|
            if le {
                (b[2 * i] + 256 * b[2 * i + 1]) as u16
            } else {
                (256 * b[2 * i] + b[2 * i + 1]) as u16
            },
    )
}

/// The bytes of a unit sequence, little- or big-endian.
pub open spec fn bytes_of_units(u: Seq<u16>, le: bool) -> Seq<u8> {
    Seq::new(
        2 * u.len(),
        |k: int|
            if (k % 2 == 0) == le {
                (u[k / 2] % 256) as u8
            } else {
                (u[k / 2] / 256) as u8
            },
    )
}

/// The placeholders replaced one after another, in table order, on UTF-8 bytes.
pub open spec fn replace_placeholders_utf8(t: Seq<u8>, ph: Seq<(Seq<char>, Seq<char>)>) -> Seq<u8>
    decreases ph.len(),
{
    if ph.len() == 0 {
        t
    } else {
        replace_placeholders_utf8(
            replace_all(t, encode_utf8(ph[0].0), encode_utf8(ph[0].1), utf8_starts()),
            ph.drop_first(),
        )
    }
}

/// The placeholders replaced one after another, in table order, on UTF-16 units.
pub open spec fn replace_placeholders_utf16(t: Seq<u16>, ph: Seq<(Seq<char>, Seq<char>)>) -> Seq<u16>
    decreases ph.len(),
{
    if ph.len() == 0 {
        t
    } else {
        replace_placeholders_utf16(
            replace_all(t, encode_utf16(ph[0].0), encode_utf16(ph[0].1), utf16_starts()),
            ph.drop_first(),
        )
    }
}

/// The result of decoding `bytes` as UTF-16 and replacing placeholders:
/// the re-encoded bytes when the text is well-formed and changed.
pub open spec fn utf16_attempt(bytes: Seq<u8>, le: bool, ph: Seq<(Seq<char>, Seq<char>)>) -> Option<Seq<u8>> {
    if bytes.len() % 2 != 0 {
        None
    } else {
        let u = units_of(bytes, le);
        if !valid_utf16(u) {
            None
        } else {
            let out = replace_placeholders_utf16(u, ph);
            if out == u {
                None
            } else {
                Some(bytes_of_units(out, le))
            }
        }
    }
}

/// What processing a text file yields: the new contents when placeholders
/// were replaced, `None` when nothing changed or the bytes are neither UTF-8
/// nor UTF-16. UTF-8 is tried first; then UTF-16 behind a little-endian or
/// big-endian byte-order mark (which is kept); then UTF-16 LE and BE without one.
pub open spec fn text_file_result(bytes: Seq<u8>, ph: Seq<(Seq<char>, Seq<char>)>) -> Option<Seq<u8>> {
    if valid_utf8(bytes) {
        let out = replace_placeholders_utf8(bytes, ph);
        if out == bytes {
            None
        } else {
            Some(out)
        }
    } else if bytes.len() >= 2 && bytes.len() % 2 == 0 {
        if bytes[0] == 0xFF && bytes[1] == 0xFE && utf16_attempt(bytes.skip(2), true, ph) is Some {
            Some(seq![0xFFu8, 0xFEu8] + utf16_attempt(bytes.skip(2), true, ph).unwrap())
        } else if bytes[0] == 0xFE && bytes[1] == 0xFF && utf16_attempt(bytes.skip(2), false, ph) is Some {
            Some(seq![0xFEu8, 0xFFu8] + utf16_attempt(bytes.skip(2), false, ph).unwrap())
        } else if utf16_attempt(bytes, true, ph) is Some {
            utf16_attempt(bytes, true, ph)
        } else {
            utf16_attempt(bytes, false, ph)
        }
    } else {
        None
    }
}


// ---------------------------------------------------------------------------
// Replacement on u8 units
// ---------------------------------------------------------------------------

/// Whether `pat` occurs in `t` at position `i`.
fn matches_at_u8(t: &[u8], pat: &[u8], i: usize) -> (r: bool)
    requires
        i <= t@.len(),
    ensures
        r == (i + pat@.len() <= t@.len() && t@.subrange(i as int, i + pat@.len()) == pat@),
{
    if t.len() - i < pat.len() {
        return false;
    }
    let mut k: usize = 0;
    while k < pat.len()
        invariant
            i + pat@.len() <= t@.len(),
            t@.len() <= usize::MAX,
            0 <= k <= pat@.len(),
            forall|j: int| 0 <= j < k ==> t@[i + j] == pat@[j],
        decreases pat@.len() - k,
    {
        if t[i + k] != pat[k] {
            assert(t@.subrange(i as int, i + pat@.len())[k as int] != pat@[k as int]);
            return false;
        }
        k = k + 1;
    }
    assert(t@.subrange(i as int, i + pat@.len()) =~= pat@);
    true
}

/// Appends all of `src` to `out`.
fn append_u8(out: &mut Vec<u8>, src: &[u8])
    ensures
        final(out)@ == old(out)@ + src@,
{
    let mut k: usize = 0;
    while k < src.len()
        invariant
            0 <= k <= src@.len(),
            out@ == old(out)@ + src@.take(k as int),
        decreases src@.len() - k,
    {
        out.push(src[k]);
        k = k + 1;
        assert(out@ =~= old(out)@ + src@.take(k as int));
    }
    assert(src@.take(k as int) =~= src@);
}

/// Whether a unit begins a character.
fn starts_char_u8(u: u8) -> (r: bool)
    ensures
        r == utf8_char_start(u),
{
    !(0x80 <= u && u <= 0xBF)
}

/// `str::replace` on u8 units.
fn replace_units_u8(t: &[u8], pat: &[u8], rep: &[u8]) -> (r: Vec<u8>)
    ensures
        r@ == replace_all(t@, pat@, rep@, utf8_starts()),
{
    let n = t.len();
    let mut out: Vec<u8> = Vec::new();
    let mut i: usize = 0;
    assert(t@.skip(0) =~= t@);
    if pat.len() == 0 {
        while i < n
            invariant
                n == t@.len(),
                pat@.len() == 0,
                0 <= i <= n,
                out@ + insert_everywhere(t@.skip(i as int), rep@, utf8_starts()) == replace_all(
                    t@,
                    pat@,
                    rep@,
                    utf8_starts(),
                ),
            decreases n - i,
        {
            let ghost s = t@.skip(i as int);
            let ghost before = out@;
            assert(s.skip(1) =~= t@.skip(i + 1));
            assert(s[0] == t@[i as int]);
            if starts_char_u8(t[i]) {
                append_u8(&mut out, rep);
            }
            out.push(t[i]);
            i = i + 1;
            proof {
                let e = if utf8_char_start(s[0]) {
                    rep@
                } else {
                    Seq::<u8>::empty()
                };
                assert(utf8_starts()(s[0]) == utf8_char_start(s[0]));
                assert(insert_everywhere(s, rep@, utf8_starts()) == e + seq![s[0]] + insert_everywhere(
                    s.skip(1),
                    rep@,
                    utf8_starts(),
                ));
                assert(out@ =~= before + e + seq![s[0]]);
                assert(before + insert_everywhere(s, rep@, utf8_starts()) =~= out@ + insert_everywhere(
                    t@.skip(i as int),
                    rep@,
                    utf8_starts(),
                ));
            }
        }
        assert(t@.skip(n as int) =~= Seq::<u8>::empty());
        append_u8(&mut out, rep);
        return out;
    }
    let m = pat.len();
    while i < n
        invariant
            n == t@.len(),
            m == pat@.len(),
            m > 0,
            0 <= i <= n,
            out@ + replace_all(t@.skip(i as int), pat@, rep@, utf8_starts()) == replace_all(
                t@,
                pat@,
                rep@,
                utf8_starts(),
            ),
        decreases n - i,
    {
        let ghost s = t@.skip(i as int);
        if matches_at_u8(t, pat, i) {
            assert(s.take(m as int) =~= t@.subrange(i as int, i + m));
            assert(s.skip(m as int) =~= t@.skip(i + m));
            let ghost before = out@;
            append_u8(&mut out, rep);
            i = i + m;
            assert(before + replace_all(s, pat@, rep@, utf8_starts()) =~= out@ + replace_all(
                t@.skip(i as int),
                pat@,
                rep@,
                utf8_starts(),
            ));
        } else {
            proof {
                assert(s.skip(1) =~= t@.skip(i + 1));
                if s.len() < m as nat {
                    assert(replace_all(s.skip(1), pat@, rep@, utf8_starts()) == s.skip(1));
                    assert(s =~= seq![s[0]] + s.skip(1));
                } else {
                    assert(s.take(m as int) =~= t@.subrange(i as int, i + m));
                }
            }
            let ghost before = out@;
            out.push(t[i]);
            i = i + 1;
            assert(before + replace_all(s, pat@, rep@, utf8_starts()) =~= out@ + replace_all(
                t@.skip(i as int),
                pat@,
                rep@,
                utf8_starts(),
            ));
        }
    }
    assert(t@.skip(n as int) =~= Seq::<u8>::empty());
    out
}

// ---------------------------------------------------------------------------
// Replacement on u16 units
// ---------------------------------------------------------------------------

/// Whether `pat` occurs in `t` at position `i`.
fn matches_at_u16(t: &[u16], pat: &[u16], i: usize) -> (r: bool)
    requires
        i <= t@.len(),
    ensures
        r == (i + pat@.len() <= t@.len() && t@.subrange(i as int, i + pat@.len()) == pat@),
{
    if t.len() - i < pat.len() {
        return false;
    }
    let mut k: usize = 0;
    while k < pat.len()
        invariant
            i + pat@.len() <= t@.len(),
            t@.len() <= usize::MAX,
            0 <= k <= pat@.len(),
            forall|j: int| 0 <= j < k ==> t@[i + j] == pat@[j],
        decreases pat@.len() - k,
    {
        if t[i + k] != pat[k] {
            assert(t@.subrange(i as int, i + pat@.len())[k as int] != pat@[k as int]);
            return false;
        }
        k = k + 1;
    }
    assert(t@.subrange(i as int, i + pat@.len()) =~= pat@);
    true
}

/// Appends all of `src` to `out`.
fn append_u16(out: &mut Vec<u16>, src: &[u16])
    ensures
        final(out)@ == old(out)@ + src@,
{
    let mut k: usize = 0;
    while k < src.len()
        invariant
            0 <= k <= src@.len(),
            out@ == old(out)@ + src@.take(k as int),
        decreases src@.len() - k,
    {
        out.push(src[k]);
        k = k + 1;
        assert(out@ =~= old(out)@ + src@.take(k as int));
    }
    assert(src@.take(k as int) =~= src@);
}

/// Whether a unit begins a character.
fn starts_char_u16(u: u16) -> (r: bool)
    ensures
        r == utf16_char_start(u),
{
    !(0xDC00 <= u && u <= 0xDFFF)
}

/// `str::replace` on u16 units.
fn replace_units_u16(t: &[u16], pat: &[u16], rep: &[u16]) -> (r: Vec<u16>)
    ensures
        r@ == replace_all(t@, pat@, rep@, utf16_starts()),
{
    let n = t.len();
    let mut out: Vec<u16> = Vec::new();
    let mut i: usize = 0;
    assert(t@.skip(0) =~= t@);
    if pat.len() == 0 {
        while i < n
            invariant
                n == t@.len(),
                pat@.len() == 0,
                0 <= i <= n,
                out@ + insert_everywhere(t@.skip(i as int), rep@, utf16_starts()) == replace_all(
                    t@,
                    pat@,
                    rep@,
                    utf16_starts(),
                ),
            decreases n - i,
        {
            let ghost s = t@.skip(i as int);
            let ghost before = out@;
            assert(s.skip(1) =~= t@.skip(i + 1));
            assert(s[0] == t@[i as int]);
            if starts_char_u16(t[i]) {
                append_u16(&mut out, rep);
            }
            out.push(t[i]);
            i = i + 1;
            proof {
                let e = if utf16_char_start(s[0]) {
                    rep@
                } else {
                    Seq::<u16>::empty()
                };
                assert(utf16_starts()(s[0]) == utf16_char_start(s[0]));
                assert(insert_everywhere(s, rep@, utf16_starts()) == e + seq![s[0]] + insert_everywhere(
                    s.skip(1),
                    rep@,
                    utf16_starts(),
                ));
                assert(out@ =~= before + e + seq![s[0]]);
                assert(before + insert_everywhere(s, rep@, utf16_starts()) =~= out@ + insert_everywhere(
                    t@.skip(i as int),
                    rep@,
                    utf16_starts(),
                ));
            }
        }
        assert(t@.skip(n as int) =~= Seq::<u16>::empty());
        append_u16(&mut out, rep);
        return out;
    }
    let m = pat.len();
    while i < n
        invariant
            n == t@.len(),
            m == pat@.len(),
            m > 0,
            0 <= i <= n,
            out@ + replace_all(t@.skip(i as int), pat@, rep@, utf16_starts()) == replace_all(
                t@,
                pat@,
                rep@,
                utf16_starts(),
            ),
        decreases n - i,
    {
        let ghost s = t@.skip(i as int);
        if matches_at_u16(t, pat, i) {
            assert(s.take(m as int) =~= t@.subrange(i as int, i + m));
            assert(s.skip(m as int) =~= t@.skip(i + m));
            let ghost before = out@;
            append_u16(&mut out, rep);
            i = i + m;
            assert(before + replace_all(s, pat@, rep@, utf16_starts()) =~= out@ + replace_all(
                t@.skip(i as int),
                pat@,
                rep@,
                utf16_starts(),
            ));
        } else {
            proof {
                assert(s.skip(1) =~= t@.skip(i + 1));
                if s.len() < m as nat {
                    assert(replace_all(s.skip(1), pat@, rep@, utf16_starts()) == s.skip(1));
                    assert(s =~= seq![s[0]] + s.skip(1));
                } else {
                    assert(s.take(m as int) =~= t@.subrange(i as int, i + m));
                }
            }
            let ghost before = out@;
            out.push(t[i]);
            i = i + 1;
            assert(before + replace_all(s, pat@, rep@, utf16_starts()) =~= out@ + replace_all(
                t@.skip(i as int),
                pat@,
                rep@,
                utf16_starts(),
            ));
        }
    }
    assert(t@.skip(n as int) =~= Seq::<u16>::empty());
    out
}

// ---------------------------------------------------------------------------
// Placeholder tables applied to encoded text
// ---------------------------------------------------------------------------

/// The UTF-16 units of a string.
fn utf16_units_of(s: &str) -> (r: Vec<u16>)
    ensures
        r@ == encode_utf16(s@),
{
    let cs = crate::strings::chars_of(s);
    let mut out: Vec<u16> = Vec::new();
    let mut i: usize = 0;
    while i < cs.len()
        invariant
            cs@ == s@,
            0 <= i <= cs@.len(),
            out@ == encode_utf16(cs@.take(i as int)),
        decreases cs@.len() - i,
    {
        let c = cs[i];
        let u = c as u32;
        proof {
            char_is_scalar(c);
        }
        if u < 0x10000 {
            out.push(u as u16);
        } else {
            let v = u - 0x10000;
            out.push((0xD800 + v / 0x400) as u16);
            out.push((0xDC00 + v % 0x400) as u16);
        }
        assert(cs@.take(i + 1).drop_last() =~= cs@.take(i as int));
        assert(out@ =~= encode_utf16(cs@.take(i as int)) + utf16_of(c));
        i = i + 1;
    }
    assert(cs@.take(i as int) =~= cs@);
    out
}

/// Replaces every placeholder, in table order, in UTF-8 bytes.
pub fn replace_placeholders(text: &[u8], placeholders: &PlaceholderMap) -> (r: Vec<u8>)
    ensures
        r@ == replace_placeholders_utf8(text@, placeholders@),
{
    let entries = placeholders.entries();
    let ghost ph = placeholders@;
    let mut cur: Vec<u8> = vstd::slice::slice_to_vec(text);
    let mut j: usize = 0;
    assert(ph.skip(0) =~= ph);
    while j < entries.len()
        invariant
            entries@.map_values(|e: (String, String)| (e.0@, e.1@)) == ph,
            ph == placeholders@,
            0 <= j <= ph.len(),
            replace_placeholders_utf8(text@, ph) == replace_placeholders_utf8(cur@, ph.skip(j as int)),
        decreases ph.len() - j,
    {
        let key = entries[j].0.as_str().as_bytes();
        let value = entries[j].1.as_str().as_bytes();
        assert(ph[j as int] == (entries@[j as int].0@, entries@[j as int].1@));
        assert(ph.skip(j as int).drop_first() =~= ph.skip(j + 1));
        let next = replace_units_u8(cur.as_slice(), key, value);
        cur = next;
        j = j + 1;
    }
    assert(ph.skip(j as int) =~= Seq::<(Seq<char>, Seq<char>)>::empty());
    cur
}

/// Replaces every placeholder, in table order, in UTF-16 units.
fn replace_placeholders_units(text: &[u16], placeholders: &PlaceholderMap) -> (r: Vec<u16>)
    ensures
        r@ == replace_placeholders_utf16(text@, placeholders@),
{
    let entries = placeholders.entries();
    let ghost ph = placeholders@;
    let mut cur: Vec<u16> = vstd::slice::slice_to_vec(text);
    let mut j: usize = 0;
    assert(ph.skip(0) =~= ph);
    while j < entries.len()
        invariant
            entries@.map_values(|e: (String, String)| (e.0@, e.1@)) == ph,
            ph == placeholders@,
            0 <= j <= ph.len(),
            replace_placeholders_utf16(text@, ph) == replace_placeholders_utf16(cur@, ph.skip(j as int)),
        decreases ph.len() - j,
    {
        let key = utf16_units_of(entries[j].0.as_str());
        let value = utf16_units_of(entries[j].1.as_str());
        assert(ph[j as int] == (entries@[j as int].0@, entries@[j as int].1@));
        assert(ph.skip(j as int).drop_first() =~= ph.skip(j + 1));
        let next = replace_units_u16(cur.as_slice(), key.as_slice(), value.as_slice());
        cur = next;
        j = j + 1;
    }
    assert(ph.skip(j as int) =~= Seq::<(Seq<char>, Seq<char>)>::empty());
    cur
}

// ---------------------------------------------------------------------------
// Encodings
// ---------------------------------------------------------------------------

/// Whether bytes are well-formed UTF-8 (`std::str::from_utf8(..).is_ok()`).
#[verifier::external_body]
pub(crate) fn is_utf8(bytes: &[u8]) -> (r: bool)
    ensures
        r == valid_utf8(bytes@),
{
    std::str::from_utf8(bytes).is_ok()
}

/// Reads bytes in pairs as 16-bit units.
fn units_from_bytes(bytes: &[u8], le: bool) -> (r: Vec<u16>)
    ensures
        r@ == units_of(bytes@, le),
{
    let n = bytes.len() / 2;
    let mut out: Vec<u16> = Vec::new();
    let mut i: usize = 0;
    while i < n
        invariant
            n == bytes@.len() / 2,
            2 * n <= bytes@.len(),
            bytes@.len() <= usize::MAX,
            0 <= i <= n,
            out@.len() == i,
            forall|k: int| 0 <= k < i ==> out@[k] == units_of(bytes@, le)[k],
        decreases n - i,
    {
        let a = bytes[2 * i] as u16;
        let b = bytes[2 * i + 1] as u16;
        let u: u16 = if le {
            a + 256 * b
        } else {
            256 * a + b
        };
        out.push(u);
        i = i + 1;
    }
    assert(out@ =~= units_of(bytes@, le));
    out
}

/// Writes 16-bit units as bytes.
fn bytes_from_units(units: &[u16], le: bool) -> (r: Vec<u8>)
    ensures
        r@ == bytes_of_units(units@, le),
{
    let mut out: Vec<u8> = Vec::new();
    let mut i: usize = 0;
    while i < units.len()
        invariant
            0 <= i <= units@.len(),
            out@.len() == 2 * i,
            forall|k: int| 0 <= k < 2 * i ==> out@[k] == bytes_of_units(units@, le)[k],
        decreases units@.len() - i,
    {
        let u = units[i];
        let lo = (u % 256) as u8;
        let hi = (u / 256) as u8;
        if le {
            out.push(lo);
            out.push(hi);
        } else {
            out.push(hi);
            out.push(lo);
        }
        assert forall|k: int| 0 <= k < 2 * (i + 1) implies out@[k] == bytes_of_units(units@, le)[k] by {
            if k >= 2 * i {
                assert(k / 2 == i);
            }
        }
        i = i + 1;
    }
    assert(out@ =~= bytes_of_units(units@, le));
    out
}

/// Whether units are well-formed UTF-16 (`String::from_utf16(..).is_ok()`).
fn utf16_is_valid(u: &[u16]) -> (r: bool)
    ensures
        r == valid_utf16(u@),
{
    let n = u.len();
    let mut i: usize = 0;
    assert(u@.skip(0) =~= u@);
    while i < n
        invariant
            n == u@.len(),
            0 <= i <= n,
            valid_utf16(u@) == valid_utf16(u@.skip(i as int)),
        decreases n - i,
    {
        let x = u[i];
        let ghost s = u@.skip(i as int);
        assert(s[0] == x);
        if 0xD800 <= x && x <= 0xDBFF {
            if i + 1 >= n {
                return false;
            }
            let y = u[i + 1];
            assert(s[1] == y);
            if !(0xDC00 <= y && y <= 0xDFFF) {
                return false;
            }
            assert(s.skip(2) =~= u@.skip(i + 2));
            i = i + 2;
        } else if 0xDC00 <= x && x <= 0xDFFF {
            return false;
        } else {
            assert(s.skip(1) =~= u@.skip(i + 1));
            i = i + 1;
        }
    }
    true
}

/// Whether two unit sequences are equal.
fn units_equal(a: &[u16], b: &[u16]) -> (r: bool)
    ensures
        r == (a@ == b@),
{
    if a.len() != b.len() {
        return false;
    }
    let mut i: usize = 0;
    while i < a.len()
        invariant
            a@.len() == b@.len(),
            0 <= i <= a@.len(),
            forall|k: int| 0 <= k < i ==> a@[k] == b@[k],
        decreases a@.len() - i,
    {
        if a[i] != b[i] {
            return false;
        }
        i = i + 1;
    }
    assert(a@ =~= b@);
    true
}

/// Whether two byte sequences are equal.
pub fn bytes_equal(a: &[u8], b: &[u8]) -> (r: bool)
    ensures
        r == (a@ == b@),
{
    if a.len() != b.len() {
        return false;
    }
    let mut i: usize = 0;
    while i < a.len()
        invariant
            a@.len() == b@.len(),
            0 <= i <= a@.len(),
            forall|k: int| 0 <= k < i ==> a@[k] == b@[k],
        decreases a@.len() - i,
    {
        if a[i] != b[i] {
            return false;
        }
        i = i + 1;
    }
    assert(a@ =~= b@);
    true
}

/// Decodes as UTF-16 in the given byte order and replaces placeholders.
pub(crate) fn try_utf16(bytes: &[u8], le: bool, placeholders: &PlaceholderMap) -> (r: Option<Vec<u8>>)
    ensures
        match r {
            Some(v) => utf16_attempt(bytes@, le, placeholders@) == Some(v@),
            None => utf16_attempt(bytes@, le, placeholders@).is_none(),
        },
{
    if bytes.len() % 2 != 0 {
        return None;
    }
    let units = units_from_bytes(bytes, le);
    if !utf16_is_valid(units.as_slice()) {
        return None;
    }
    let processed = replace_placeholders_units(units.as_slice(), placeholders);
    if units_equal(processed.as_slice(), units.as_slice()) {
        return None;
    }
    Some(bytes_from_units(processed.as_slice(), le))
}

/// Decodes as UTF-16 LE and replaces placeholders.
fn try_utf16_le(bytes: &[u8], placeholders: &PlaceholderMap) -> (r: Result<Option<Vec<u8>>, Error>)
    ensures
        r matches Ok(o) && match o {
            Some(v) => utf16_attempt(bytes@, true, placeholders@) == Some(v@),
            None => utf16_attempt(bytes@, true, placeholders@).is_none(),
        },
{
    Ok(try_utf16(bytes, true, placeholders))
}

/// Decodes as UTF-16 BE and replaces placeholders.
fn try_utf16_be(bytes: &[u8], placeholders: &PlaceholderMap) -> (r: Result<Option<Vec<u8>>, Error>)
    ensures
        r matches Ok(o) && match o {
            Some(v) => utf16_attempt(bytes@, false, placeholders@) == Some(v@),
            None => utf16_attempt(bytes@, false, placeholders@).is_none(),
        },
{
    Ok(try_utf16(bytes, false, placeholders))
}

/// Processes a text file, replacing placeholders.
///
/// Supports UTF-8 and UTF-16 (LE/BE) encodings with auto-detection.
/// Returns `Some(bytes)` with the modified content if changes were made,
/// or `None` if no placeholders were found or the bytes are not text.
pub fn process_text_file(file_bytes: &[u8], placeholders: &PlaceholderMap) -> (r: Result<Option<Vec<u8>>, Error>)
    ensures
        r matches Ok(o) && match o {
            Some(v) => text_file_result(file_bytes@, placeholders@) == Some(v@),
            None => text_file_result(file_bytes@, placeholders@).is_none(),
        },
{
    if is_utf8(file_bytes) {
        let processed = replace_placeholders(file_bytes, placeholders);
        if !bytes_equal(processed.as_slice(), file_bytes) {
            return Ok(Some(processed));
        }
        return Ok(None);
    }
    if file_bytes.len() >= 2 && file_bytes.len() % 2 == 0 {
        let n = file_bytes.len();
        let rest = slice_tail(file_bytes, 2);
        if file_bytes[0] == 0xFF && file_bytes[1] == 0xFE {
            if let Ok(Some(processed)) = try_utf16_le(rest, placeholders) {
                let mut result: Vec<u8> = Vec::new();
                result.push(0xFF);
                result.push(0xFE);
                let ghost pre = result@;
                let mut p = processed;
                result.append(&mut p);
                assert(result@ =~= seq![0xFFu8, 0xFEu8] + utf16_attempt(file_bytes@.skip(2), true, placeholders@).unwrap());
                return Ok(Some(result));
            }
        }
        if file_bytes[0] == 0xFE && file_bytes[1] == 0xFF {
            if let Ok(Some(processed)) = try_utf16_be(rest, placeholders) {
                let mut result: Vec<u8> = Vec::new();
                result.push(0xFE);
                result.push(0xFF);
                let mut p = processed;
                result.append(&mut p);
                assert(result@ =~= seq![0xFEu8, 0xFFu8] + utf16_attempt(file_bytes@.skip(2), false, placeholders@).unwrap());
                return Ok(Some(result));
            }
        }
        if let Ok(Some(processed)) = try_utf16_le(file_bytes, placeholders) {
            return Ok(Some(processed));
        }
        if let Ok(Some(processed)) = try_utf16_be(file_bytes, placeholders) {
            return Ok(Some(processed));
        }
    }
    Ok(None)
}

/// The bytes from position `start` on.
fn slice_tail(s: &[u8], start: usize) -> (r: &[u8])
    requires
        start <= s@.len(),
    ensures
        r@ == s@.skip(start as int),
{
    vstd::slice::slice_subrange(s, start, s.len())
}

/// With an empty placeholder table the text is left as it is.
proof fn lemma_empty_table_utf16(bytes: Seq<u8>, le: bool)
    ensures
        utf16_attempt(bytes, le, Seq::empty()) is None,
{
}

/// Processing a text file with an empty placeholder table changes nothing.
pub proof fn law_empty_table_changes_nothing(bytes: Seq<u8>)
    ensures
        text_file_result(bytes, Seq::empty()) is None,
{
    lemma_empty_table_utf16(bytes, true);
    lemma_empty_table_utf16(bytes, false);
    if bytes.len() >= 2 {
        lemma_empty_table_utf16(bytes.skip(2), true);
        lemma_empty_table_utf16(bytes.skip(2), false);
    }
}

} // verus!
