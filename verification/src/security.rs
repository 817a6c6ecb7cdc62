//! Security utilities for path validation and traversal protection.
//!
//! Paths are read the way `std::path::Path::components` reads them on Unix:
//! `/` separates components, empty components and `.` components vanish, and
//! `..` is a parent-directory reference.

use vstd::prelude::*;
use vstd::utf8::*;

use crate::error::Error;
use crate::strings::{
    chars_of, concat, concat3, decimal, decimal_string, eq_ignore_ascii_case, owned, starts_with,
    str_eq_ignore_ascii_case, string_from_chars,
};

verus! {

broadcast use vstd::string::group_string_axioms;

/// Maximum allowed path depth to prevent deeply nested zip bombs.
pub const MAX_PATH_DEPTH: usize = 50;

/// Maximum allowed path length in bytes.
pub const MAX_PATH_LENGTH: usize = 4096;

// ---------------------------------------------------------------------------
// Path components
// ---------------------------------------------------------------------------

/// Adds a finished segment to the component list unless it is empty or `.`.
pub open spec fn flush_segment(cs: Seq<Seq<char>>, cur: Seq<char>) -> Seq<Seq<char>> {
    if cur.len() == 0 || cur == seq!['.'] {
        cs
    } else {
        cs.push(cur)
    }
}

/// The components finished so far and the segment in progress after reading `s`.
pub open spec fn scan_components(s: Seq<char>) -> (Seq<Seq<char>>, Seq<char>)
    decreases s.len(),
{
    if s.len() == 0 {
        (Seq::empty(), Seq::empty())
    } else {
        let (cs, cur) = scan_components(s.drop_last());
        if s.last() == '/' {
            (flush_segment(cs, cur), Seq::empty())
        } else {
            (cs, cur.push(s.last()))
        }
    }
}

/// The components of a relative Unix path other than `.`: the non-empty
/// `/`-separated segments that are not `.`, in order.
pub open spec fn path_components(s: Seq<char>) -> Seq<Seq<char>> {
    flush_segment(scan_components(s).0, scan_components(s).1)
}

/// The components joined with `/`.
pub open spec fn join_components(cs: Seq<Seq<char>>) -> Seq<char>
    decreases cs.len(),
{
    if cs.len() == 0 {
        Seq::empty()
    } else if cs.len() == 1 {
        cs[0]
    } else {
        join_components(cs.drop_last()) + seq!['/'] + cs.last()
    }
}

/// Splits a path into its components (`Path::components` on Unix, without the `.` ones).
pub fn components_of(s: &[char]) -> (r: Vec<Vec<char>>)
    ensures
        r@.map_values(|c: Vec<char>| c@) == path_components(s@),
{
    let mut cs: Vec<Vec<char>> = Vec::new();
    let mut cur: Vec<char> = Vec::new();
    let mut i: usize = 0;
    while i < s.len()
        invariant
            0 <= i <= s@.len(),
            cs@.map_values(|c: Vec<char>| c@) == scan_components(s@.take(i as int)).0,
            cur@ == scan_components(s@.take(i as int)).1,
        decreases s@.len() - i,
    {
        assert(s@.take(i + 1).drop_last() =~= s@.take(i as int));
        let c = s[i];
        if c == '/' {
            flush(&mut cs, cur);
            cur = Vec::new();
        } else {
            cur.push(c);
        }
        i = i + 1;
    }
    assert(s@.take(i as int) =~= s@);
    flush(&mut cs, cur);
    cs
}

/// Executable `flush_segment`.
fn flush(cs: &mut Vec<Vec<char>>, cur: Vec<char>)
    ensures
        final(cs)@.map_values(|c: Vec<char>| c@) == flush_segment(
            old(cs)@.map_values(|c: Vec<char>| c@),
            cur@,
        ),
{
    let dot = cur.len() == 1 && cur[0] == '.';
    if cur.len() == 0 || dot {
        assert(dot ==> cur@ =~= seq!['.']);
        return ;
    }
    assert(cur@ != seq!['.']) by {
        if cur@ == seq!['.'] {
            assert(cur@[0] == '.');
        }
    }
    let ghost c = cur@;
    cs.push(cur);
    assert(cs@.map_values(|c: Vec<char>| c@) =~= old(cs)@.map_values(|c: Vec<char>| c@).push(c));
}

/// Joins components with `/`.
fn join_with_slash(cs: &Vec<Vec<char>>) -> (r: Vec<char>)
    ensures
        r@ == join_components(cs@.map_values(|c: Vec<char>| c@)),
{
    let ghost v = cs@.map_values(|c: Vec<char>| c@);
    let mut out: Vec<char> = Vec::new();
    let mut i: usize = 0;
    while i < cs.len()
        invariant
            v == cs@.map_values(|c: Vec<char>| c@),
            0 <= i <= cs@.len(),
            out@ == join_components(v.take(i as int)),
        decreases cs@.len() - i,
    {
        assert(v.take(i + 1).drop_last() =~= v.take(i as int));
        assert(v.take(i + 1).last() == cs@[i as int]@);
        if i > 0 {
            out.push('/');
        }
        let seg = &cs[i];
        let mut k: usize = 0;
        let ghost before = out@;
        while k < seg.len()
            invariant
                0 <= k <= seg@.len(),
                out@ == before + seg@.take(k as int),
            decreases seg@.len() - k,
        {
            out.push(seg[k]);
            k = k + 1;
            assert(out@ =~= before + seg@.take(k as int));
        }
        assert(seg@.take(k as int) =~= seg@);
        proof {
            if i == 0 {
                assert(before =~= Seq::<char>::empty());
                assert(out@ =~= seg@);
            }
        }
        i = i + 1;
    }
    assert(v.take(i as int) =~= v);
    out
}

// ---------------------------------------------------------------------------
// Reserved names
// ---------------------------------------------------------------------------

/// The part of a file name before its first `.`.
pub open spec fn base_name(name: Seq<char>) -> Seq<char>
    decreases name.len(),
{
    if name.len() == 0 {
        Seq::empty()
    } else if name.last() == '.' && !name.drop_last().contains('.') {
        name.drop_last()
    } else if name.drop_last().contains('.') {
        base_name(name.drop_last())
    } else {
        name
    }
}

/// Whether a file name is reserved on Windows: its part before the first
/// `.` equals, ignoring ASCII case, CON, PRN, AUX, NUL, COM1-9 or LPT1-9.
pub open spec fn is_reserved_name(name: Seq<char>) -> bool {
    let b = base_name(name);
    ||| eq_ignore_ascii_case(b, "CON"@)
    ||| eq_ignore_ascii_case(b, "PRN"@)
    ||| eq_ignore_ascii_case(b, "AUX"@)
    ||| eq_ignore_ascii_case(b, "NUL"@)
    ||| eq_ignore_ascii_case(b, "COM1"@)
    ||| eq_ignore_ascii_case(b, "COM2"@)
    ||| eq_ignore_ascii_case(b, "COM3"@)
    ||| eq_ignore_ascii_case(b, "COM4"@)
    ||| eq_ignore_ascii_case(b, "COM5"@)
    ||| eq_ignore_ascii_case(b, "COM6"@)
    ||| eq_ignore_ascii_case(b, "COM7"@)
    ||| eq_ignore_ascii_case(b, "COM8"@)
    ||| eq_ignore_ascii_case(b, "COM9"@)
    ||| eq_ignore_ascii_case(b, "LPT1"@)
    ||| eq_ignore_ascii_case(b, "LPT2"@)
    ||| eq_ignore_ascii_case(b, "LPT3"@)
    ||| eq_ignore_ascii_case(b, "LPT4"@)
    ||| eq_ignore_ascii_case(b, "LPT5"@)
    ||| eq_ignore_ascii_case(b, "LPT6"@)
    ||| eq_ignore_ascii_case(b, "LPT7"@)
    ||| eq_ignore_ascii_case(b, "LPT8"@)
    ||| eq_ignore_ascii_case(b, "LPT9"@)
}

/// The characters before the first `.`.
fn base_name_of(name: &[char]) -> (r: Vec<char>)
    ensures
        r@ == base_name(name@),
{
    let mut out: Vec<char> = Vec::new();
    let mut i: usize = 0;
    while i < name.len() && name[i] != '.'
        invariant
            0 <= i <= name@.len(),
            out@ == name@.take(i as int),
            !out@.contains('.'),
        decreases name@.len() - i,
    {
        out.push(name[i]);
        i = i + 1;
        assert(out@ =~= name@.take(i as int));
    }
    proof {
        lemma_base_name_prefix(name@, i as int);
    }
    out
}

proof fn lemma_base_name_prefix(name: Seq<char>, i: int)
    requires
        0 <= i <= name.len(),
        !name.take(i).contains('.'),
        i == name.len() || name[i] == '.',
    ensures
        base_name(name) == name.take(i),
    decreases name.len(),
{
    if name.len() == 0 {
        assert(name.take(i) =~= name);
    } else if i == name.len() {
        assert(name.take(i) =~= name);
        assert(!name.drop_last().contains('.')) by {
            if name.drop_last().contains('.') {
                let k = choose|k: int| 0 <= k < name.drop_last().len() && name.drop_last()[k] == '.';
                assert(name.take(i)[k] == '.');
            }
        }
    } else if i == name.len() - 1 {
        assert(name.drop_last() =~= name.take(i));
    } else {
        assert(name.drop_last().contains('.')) by {
            assert(name.drop_last()[i] == '.');
        }
        assert(name.drop_last().take(i) =~= name.take(i));
        lemma_base_name_prefix(name.drop_last(), i);
    }
}

/// Checks if a filename is a Windows reserved name.
pub fn is_windows_reserved_name(name: &str) -> (r: bool)
    ensures
        r == is_reserved_name(name@),
{
    let cs = chars_of(name);
    let b = base_name_of(cs.as_slice());
    let bs = string_from_chars(b.as_slice());
    let b = bs.as_str();
    str_eq_ignore_ascii_case(b, "CON") || str_eq_ignore_ascii_case(b, "PRN")
        || str_eq_ignore_ascii_case(b, "AUX") || str_eq_ignore_ascii_case(b, "NUL")
        || str_eq_ignore_ascii_case(b, "COM1") || str_eq_ignore_ascii_case(b, "COM2")
        || str_eq_ignore_ascii_case(b, "COM3") || str_eq_ignore_ascii_case(b, "COM4")
        || str_eq_ignore_ascii_case(b, "COM5") || str_eq_ignore_ascii_case(b, "COM6")
        || str_eq_ignore_ascii_case(b, "COM7") || str_eq_ignore_ascii_case(b, "COM8")
        || str_eq_ignore_ascii_case(b, "COM9") || str_eq_ignore_ascii_case(b, "LPT1")
        || str_eq_ignore_ascii_case(b, "LPT2") || str_eq_ignore_ascii_case(b, "LPT3")
        || str_eq_ignore_ascii_case(b, "LPT4") || str_eq_ignore_ascii_case(b, "LPT5")
        || str_eq_ignore_ascii_case(b, "LPT6") || str_eq_ignore_ascii_case(b, "LPT7")
        || str_eq_ignore_ascii_case(b, "LPT8") || str_eq_ignore_ascii_case(b, "LPT9")
}

// ---------------------------------------------------------------------------
// Archive path validation
// ---------------------------------------------------------------------------

/// What walking the components finds first.
pub enum ComponentVerdict {
    /// Every component is acceptable.
    Fine,
    /// A `..` component.
    ParentDir,
    /// A reserved file name.
    Reserved(Seq<char>),
    /// More than `MAX_PATH_DEPTH` components.
    TooDeep,
}

/// Walks the components in order; `depth` counts those already accepted.
pub open spec fn scan_verdict(cs: Seq<Seq<char>>, depth: nat) -> ComponentVerdict
    decreases cs.len(),
{
    if cs.len() == 0 {
        ComponentVerdict::Fine
    } else if cs[0] == seq!['.', '.'] {
        ComponentVerdict::ParentDir
    } else if is_reserved_name(cs[0]) {
        ComponentVerdict::Reserved(cs[0])
    } else if depth + 1 > MAX_PATH_DEPTH {
        ComponentVerdict::TooDeep
    } else {
        scan_verdict(cs.drop_first(), depth + 1)
    }
}

/// The path with every NUL character written as the two characters `\0`.
pub open spec fn escape_nul(p: Seq<char>) -> Seq<char>
    decreases p.len(),
{
    if p.len() == 0 {
        Seq::empty()
    } else {
        escape_nul(p.drop_last()) + if p.last() == '\0' {
            seq!['\\', '0']
        } else {
            seq![p.last()]
        }
    }
}

/// The outcome of validating an archive entry path: the normalized path, or
/// the message of the `PathTraversal` error.
pub open spec fn archive_path_verdict(p: Seq<char>) -> Result<Seq<char>, Seq<char>> {
    let b = encode_utf8(p);
    let cs = path_components(p);
    if p.contains('\0') {
        Err("Null byte in path: "@ + escape_nul(p))
    } else if b.len() > MAX_PATH_LENGTH {
        Err("Path exceeds maximum length of 4096 bytes: "@ + decimal(b.len()) + " bytes"@)
    } else if p.len() == 0 {
        Err("Empty path"@)
    } else if p[0] == '/' {
        Err("Absolute path not allowed: "@ + p)
    } else if p[0] == '\\' || (b.len() >= 2 && b[1] == 0x3Au8) {
        Err("Windows absolute path not allowed: "@ + p)
    } else {
        match scan_verdict(cs, 0) {
            ComponentVerdict::ParentDir => Err("Parent directory traversal not allowed: "@ + p),
            ComponentVerdict::Reserved(name) => Err("Reserved filename not allowed: "@ + name),
            ComponentVerdict::TooDeep => Err("Path depth exceeds maximum of 50: "@ + p),
            ComponentVerdict::Fine => if cs.len() == 0 {
                Err("Path normalizes to empty: "@ + p)
            } else {
                Ok(join_components(cs))
            },
        }
    }
}

/// What a walk that finds every component acceptable says of them.
proof fn lemma_fine_components(cs: Seq<Seq<char>>, depth: nat)
    requires
        scan_verdict(cs, depth) is Fine,
        depth <= MAX_PATH_DEPTH,
    ensures
        depth + cs.len() <= MAX_PATH_DEPTH,
        forall|i: int|
            0 <= i < cs.len() ==> #[trigger] cs[i] != seq!['.', '.'] && !is_reserved_name(cs[i]),
    decreases cs.len(),
{
    if cs.len() > 0 {
        lemma_fine_components(cs.drop_first(), depth + 1);
        assert forall|i: int| 0 < i < cs.len() implies #[trigger] cs[i] != seq!['.', '.']
            && !is_reserved_name(cs[i]) by {
            assert(cs[i] == cs.drop_first()[i - 1]);
        }
    }
}

/// An archive path that passes validation cannot leave the directory it is
/// extracted into: it has no NUL character, does not start with `/` or
/// `\`, and has between 1 and 50 components, none of them `..` or a
/// reserved Windows name.
pub proof fn law_accepted_path_stays_inside(p: Seq<char>)
    requires
        archive_path_verdict(p) is Ok,
    ensures
        !p.contains('\0'),
        p.len() > 0,
        p[0] != '/',
        p[0] != '\\',
        0 < path_components(p).len() <= MAX_PATH_DEPTH,
        forall|i: int|
            0 <= i < path_components(p).len() ==> #[trigger] path_components(p)[i] != seq![
                '.',
                '.',
            ] && !is_reserved_name(path_components(p)[i]),
{
    lemma_fine_components(path_components(p), 0);
}

/// Whether a path component is one that `path_components` can give: not
/// empty, not `.`, and without `/` or NUL.
pub open spec fn plain_component(c: Seq<char>) -> bool {
    c.len() > 0 && c != seq!['.'] && !c.contains('/') && !c.contains('\0')
}

/// Reading characters other than `/` only extends the segment in progress.
proof fn lemma_scan_no_slash(a: Seq<char>, y: Seq<char>)
    requires
        !y.contains('/'),
    ensures
        scan_components(a + y) == (scan_components(a).0, scan_components(a).1 + y),
    decreases y.len(),
{
    if y.len() == 0 {
        assert(a + y =~= a);
        assert(scan_components(a).1 + y =~= scan_components(a).1);
    } else {
        let y0 = y.drop_last();
        assert(!y0.contains('/')) by {
            if y0.contains('/') {
                let k = choose|k: int| 0 <= k < y0.len() && y0[k] == '/';
                assert(y[k] == '/');
            }
        }
        lemma_scan_no_slash(a, y0);
        assert((a + y).drop_last() =~= a + y0);
        assert((a + y).last() == y.last());
        assert(y.last() != '/') by {
            assert(y[y.len() - 1] == y.last());
        }
        assert(scan_components(a).1 + y0 + seq![y.last()] =~= scan_components(a).1 + y);
        assert((scan_components(a).1 + y0).push(y.last()) =~= scan_components(a).1 + y);
    }
}

/// What scanning the components joined with `/` gives: all but the last,
/// with the last one in progress.
proof fn lemma_scan_join(cs: Seq<Seq<char>>)
    requires
        cs.len() > 0,
        forall|i: int| 0 <= i < cs.len() ==> #[trigger] plain_component(cs[i]),
    ensures
        scan_components(join_components(cs)) == (cs.drop_last(), cs.last()),
        join_components(cs).len() > 0 && join_components(cs)[0] == cs[0][0],
    decreases cs.len(),
{
    if cs.len() == 1 {
        assert(plain_component(cs[0]));
        lemma_scan_no_slash(Seq::empty(), cs[0]);
        assert(Seq::<char>::empty() + cs[0] =~= cs[0]);
        assert(Seq::<char>::empty() + cs[0] =~= cs[0]);
        assert(cs.drop_last() =~= Seq::<Seq<char>>::empty());
    } else {
        let d = cs.drop_last();
        assert forall|i: int| 0 <= i < d.len() implies #[trigger] plain_component(d[i]) by {
            assert(d[i] == cs[i]);
        }
        lemma_scan_join(d);
        let jd = join_components(d);
        let l = cs.last();
        assert(plain_component(cs[cs.len() - 1]));
        assert((jd + seq!['/']).drop_last() =~= jd);
        assert(scan_components(jd + seq!['/']) == (flush_segment(d.drop_last(), d.last()), Seq::<char>::empty()));
        assert(plain_component(d[d.len() - 1]));
        assert(flush_segment(d.drop_last(), d.last()) =~= d);
        lemma_scan_no_slash(jd + seq!['/'], l);
        assert(Seq::<char>::empty() + l =~= l);
        assert(join_components(cs) == jd + seq!['/'] + l);
        assert(cs.drop_last() == d);
        assert((jd + seq!['/'] + l)[0] == jd[0]);
    }
}

/// The components of `/`-joined plain components are those components.
pub proof fn lemma_components_of_join(cs: Seq<Seq<char>>)
    requires
        forall|i: int| 0 <= i < cs.len() ==> #[trigger] plain_component(cs[i]),
    ensures
        path_components(join_components(cs)) == cs,
{
    if cs.len() == 0 {
        assert(path_components(Seq::<char>::empty()) =~= Seq::<Seq<char>>::empty());
    } else {
        lemma_scan_join(cs);
        assert(plain_component(cs[cs.len() - 1]));
        assert(cs.drop_last().push(cs.last()) =~= cs);
    }
}

/// The UTF-8 encoding of a concatenation is the concatenation of the encodings.
proof fn lemma_encode_concat(a: Seq<char>, b: Seq<char>)
    ensures
        encode_utf8(a + b) == encode_utf8(a) + encode_utf8(b),
    decreases a.len(),
{
    if a.len() == 0 {
        assert(a + b =~= b);
        assert(encode_utf8(a) =~= Seq::<u8>::empty());
        assert(Seq::<u8>::empty() + encode_utf8(b) =~= encode_utf8(b));
    } else {
        lemma_encode_concat(a.drop_first(), b);
        assert((a + b).drop_first() =~= a.drop_first() + b);
        assert((a + b)[0] == a[0]);
        assert(encode_scalar(a[0] as u32) + (encode_utf8(a.drop_first()) + encode_utf8(b))
            =~= (encode_scalar(a[0] as u32) + encode_utf8(a.drop_first())) + encode_utf8(b));
    }
}

/// `/` takes one byte in UTF-8.
proof fn lemma_slash_one_byte()
    ensures
        encode_utf8(seq!['/']).len() == 1,
{
    let s = seq!['/'];
    assert(s.drop_first() =~= Seq::<char>::empty());
    assert(s[0] == '/');
    assert(('/' as u32) == 47u32);
    assert(has_width_1_encoding(s[0] as u32));
    assert(encode_scalar(s[0] as u32).len() == 1);
    assert(encode_utf8(s.drop_first()) =~= Seq::<u8>::empty());
}

/// The bytes of the components joined so far, a separator after them when
/// there are any, and the segment in progress.
pub open spec fn scanned_bytes(cs: Seq<Seq<char>>, cur: Seq<char>) -> int {
    encode_utf8(join_components(cs)).len() + (if cs.len() > 0 { 1int } else { 0int }) + encode_utf8(
        cur,
    ).len()
}

/// The components of `s` and the segment in progress are plain (the
/// segment only lacks being non-empty and not `.`) and take no more bytes
/// than `s` itself.
proof fn lemma_scan_facts(s: Seq<char>)
    requires
        !s.contains('\0'),
    ensures
        forall|i: int| 0 <= i < scan_components(s).0.len() ==> #[trigger] plain_component(scan_components(s).0[i]),
        !scan_components(s).1.contains('/') && !scan_components(s).1.contains('\0'),
        scanned_bytes(scan_components(s).0, scan_components(s).1) <= encode_utf8(s).len(),
    decreases s.len(),
{
    if s.len() > 0 {
        let a = s.drop_last();
        let c = s.last();
        assert(!a.contains('\0')) by {
            if a.contains('\0') {
                let k = choose|k: int| 0 <= k < a.len() && a[k] == '\0';
                assert(s[k] == '\0');
            }
        }
        assert(c != '\0') by {
            assert(s[s.len() - 1] == c);
        }
        lemma_scan_facts(a);
        let (cs, cur) = scan_components(a);
        assert(s =~= a + seq![c]);
        lemma_encode_concat(a, seq![c]);
        assert(encode_utf8(seq![c]).len() >= 1) by {
            assert(seq![c].drop_first() =~= Seq::<char>::empty());
        }
        if c == '/' {
            if cur.len() == 0 || cur == seq!['.'] {
                assert(encode_utf8(Seq::<char>::empty()) =~= Seq::<u8>::empty());
            } else {
                let ncs = cs.push(cur);
                assert(ncs.drop_last() =~= cs);
                if cs.len() == 0 {
                    assert(join_components(ncs) == cur);
                } else {
                    lemma_encode_concat(join_components(cs) + seq!['/'], cur);
                    lemma_encode_concat(join_components(cs), seq!['/']);
                    lemma_slash_one_byte();
                }
                assert(encode_utf8(Seq::<char>::empty()) =~= Seq::<u8>::empty());
                assert forall|i: int| 0 <= i < ncs.len() implies #[trigger] plain_component(ncs[i]) by {
                    if i < cs.len() {
                        assert(ncs[i] == cs[i]);
                    }
                }
            }
        } else {
            lemma_encode_concat(cur, seq![c]);
            assert(!cur.push(c).contains('/') && !cur.push(c).contains('\0')) by {
                if cur.push(c).contains('/') || cur.push(c).contains('\0') {
                    let k = choose|k: int| 0 <= k < cur.push(c).len() && (cur.push(c)[k] == '/' || cur.push(c)[k] == '\0');
                    if k < cur.len() {
                        assert(cur.push(c)[k] == cur[k]);
                    }
                }
            }
            assert(cur + seq![c] =~= cur.push(c));
        }
    }
}

/// A path's components are plain, and joined with `/` they take no more
/// bytes than the path.
pub proof fn lemma_components_facts(s: Seq<char>)
    requires
        !s.contains('\0'),
    ensures
        forall|i: int| 0 <= i < path_components(s).len() ==> #[trigger] plain_component(path_components(s)[i]),
        encode_utf8(join_components(path_components(s))).len() <= encode_utf8(s).len(),
{
    lemma_scan_facts(s);
    let (cs, cur) = scan_components(s);
    if !(cur.len() == 0 || cur == seq!['.']) {
        let ncs = cs.push(cur);
        assert(ncs.drop_last() =~= cs);
        if cs.len() > 0 {
            lemma_encode_concat(join_components(cs) + seq!['/'], cur);
            lemma_encode_concat(join_components(cs), seq!['/']);
            lemma_slash_one_byte();
        }
        assert forall|i: int| 0 <= i < ncs.len() implies #[trigger] plain_component(ncs[i]) by {
            if i < cs.len() {
                assert(ncs[i] == cs[i]);
            }
        }
    }
}

/// Plain components joined with `/` have no NUL character.
proof fn lemma_join_no_nul(cs: Seq<Seq<char>>)
    requires
        forall|i: int| 0 <= i < cs.len() ==> #[trigger] plain_component(cs[i]),
    ensures
        !join_components(cs).contains('\0'),
    decreases cs.len(),
{
    if cs.len() == 1 {
        assert(plain_component(cs[0]));
    } else if cs.len() > 1 {
        let d = cs.drop_last();
        assert forall|i: int| 0 <= i < d.len() implies #[trigger] plain_component(d[i]) by {
            assert(d[i] == cs[i]);
        }
        lemma_join_no_nul(d);
        assert(plain_component(cs[cs.len() - 1]));
        let j = join_components(cs);
        assert(j == join_components(d) + seq!['/'] + cs.last());
        if j.contains('\0') {
            let k = choose|k: int| 0 <= k < j.len() && j[k] == '\0';
            let jd = join_components(d);
            if k < jd.len() {
                assert(jd[k] == '\0');
            } else if k > jd.len() {
                assert(cs.last()[k - jd.len() - 1] == '\0');
            }
        }
    }
}

/// Validating an accepted path again accepts it as it is: the normalized
/// path is its own normalization. The exceptions are normalized paths that
/// the Windows check refuses (one starting with `\`, or whose second byte
/// is `:`), which the first path can avoid through a leading `./`.
pub proof fn law_normalized_path_revalidates(p: Seq<char>, n: Seq<char>)
    requires
        archive_path_verdict(p) == Ok::<Seq<char>, Seq<char>>(n),
        n.len() > 0 ==> n[0] != '\\',
        !(encode_utf8(n).len() >= 2 && encode_utf8(n)[1] == 0x3Au8),
    ensures
        archive_path_verdict(n) == Ok::<Seq<char>, Seq<char>>(n),
{
    let cs = path_components(p);
    lemma_components_facts(p);
    lemma_components_of_join(cs);
    lemma_join_no_nul(cs);
    lemma_scan_join(cs);
    assert(plain_component(cs[0]));
    assert(cs[0][0] != '/') by {
        if cs[0][0] == '/' {
            assert(cs[0].contains('/'));
        }
    }
}

/// The position of the first NUL character, if any.
fn find_nul(cs: &[char]) -> (r: bool)
    ensures
        r == cs@.contains('\0'),
{
    let mut i: usize = 0;
    while i < cs.len()
        invariant
            0 <= i <= cs@.len(),
            forall|k: int| 0 <= k < i ==> cs@[k] != '\0',
        decreases cs@.len() - i,
    {
        if cs[i] == '\0' {
            return true;
        }
        i = i + 1;
    }
    false
}

/// `escape_nul` on characters.
fn escape_nul_chars(cs: &[char]) -> (r: String)
    ensures
        r@ == escape_nul(cs@),
{
    let mut out: Vec<char> = Vec::new();
    let mut i: usize = 0;
    while i < cs.len()
        invariant
            0 <= i <= cs@.len(),
            out@ == escape_nul(cs@.take(i as int)),
        decreases cs@.len() - i,
    {
        assert(cs@.take(i + 1).drop_last() =~= cs@.take(i as int));
        if cs[i] == '\0' {
            out.push('\\');
            out.push('0');
        } else {
            out.push(cs[i]);
        }
        i = i + 1;
        assert(out@ =~= escape_nul(cs@.take(i as int)));
    }
    assert(cs@.take(i as int) =~= cs@);
    string_from_chars(out.as_slice())
}

/// Validates a path from an archive entry for security issues.
///
/// This function performs comprehensive security checks:
/// - Path traversal detection (../, absolute paths)
/// - Null byte injection
/// - Excessive path length
/// - Excessive nesting depth
/// - Reserved/dangerous filenames on Windows
///
/// Returns the normalized path (components joined with `/`), or a
/// `PathTraversal` error.
pub fn validate_archive_path(path: &str) -> (r: Result<String, Error>)
    ensures
        match r {
            Ok(n) => archive_path_verdict(path@) == Ok::<Seq<char>, Seq<char>>(n@),
            Err(e) => e matches Error::PathTraversal(m) && archive_path_verdict(path@) == Err::<
                Seq<char>,
                Seq<char>,
            >(m@),
        },
{
    let cs = chars_of(path);
    let bytes = path.as_bytes();
    if find_nul(cs.as_slice()) {
        let esc = escape_nul_chars(cs.as_slice());
        return Err(Error::PathTraversal(concat("Null byte in path: ", esc.as_str())));
    }
    let nbytes = bytes.len();
    if nbytes > MAX_PATH_LENGTH {
        let n = decimal_string(nbytes as u64);
        return Err(
            Error::PathTraversal(
                concat3("Path exceeds maximum length of 4096 bytes: ", n.as_str(), " bytes"),
            ),
        );
    }
    if cs.len() == 0 {
        return Err(Error::PathTraversal(owned("Empty path")));
    }
    if cs[0] == '/' {
        return Err(Error::PathTraversal(concat("Absolute path not allowed: ", path)));
    }
    if cs[0] == '\\' || (bytes.len() >= 2 && bytes[1] == 0x3Au8) {
        return Err(Error::PathTraversal(concat("Windows absolute path not allowed: ", path)));
    }
    let comps = components_of(cs.as_slice());
    let ghost v = comps@.map_values(|c: Vec<char>| c@);
    let mut depth: usize = 0;
    assert(v.skip(0) =~= v);
    while depth < comps.len()
        invariant
            v == comps@.map_values(|c: Vec<char>| c@),
            v == path_components(path@),
            archive_path_verdict(path@) == match scan_verdict(v, 0) {
                ComponentVerdict::ParentDir => Err("Parent directory traversal not allowed: "@ + path@),
                ComponentVerdict::Reserved(name) => Err("Reserved filename not allowed: "@ + name),
                ComponentVerdict::TooDeep => Err("Path depth exceeds maximum of 50: "@ + path@),
                ComponentVerdict::Fine => if v.len() == 0 {
                    Err("Path normalizes to empty: "@ + path@)
                } else {
                    Ok(join_components(v))
                },
            },
            0 <= depth <= v.len(),
            depth <= MAX_PATH_DEPTH,
            scan_verdict(v, 0) == scan_verdict(v.skip(depth as int), depth as nat),
        decreases v.len() - depth,
    {
        let c = &comps[depth];
        let ghost s = v.skip(depth as int);
        assert(s[0] == c@);
        assert(s.drop_first() =~= v.skip(depth + 1));
        if c.len() == 2 && c[0] == '.' && c[1] == '.' {
            assert(c@ =~= seq!['.', '.']);
            return Err(
                Error::PathTraversal(concat("Parent directory traversal not allowed: ", path)),
            );
        }
        assert(c@ != seq!['.', '.']) by {
            if c@ == seq!['.', '.'] {
                assert(c@[0] == '.' && c@[1] == '.');
            }
        }
        let name = string_from_chars(c.as_slice());
        if is_windows_reserved_name(name.as_str()) {
            return Err(
                Error::PathTraversal(concat("Reserved filename not allowed: ", name.as_str())),
            );
        }
        if depth + 1 > MAX_PATH_DEPTH {
            return Err(Error::PathTraversal(concat("Path depth exceeds maximum of 50: ", path)));
        }
        depth = depth + 1;
    }
    assert(v.skip(depth as int) =~= Seq::<Seq<char>>::empty());
    if comps.len() == 0 {
        return Err(Error::PathTraversal(concat("Path normalizes to empty: ", path)));
    }
    let joined = join_with_slash(&comps);
    Ok(string_from_chars(joined.as_slice()))
}

// ---------------------------------------------------------------------------
// Joining an entry path onto a base directory
// ---------------------------------------------------------------------------

/// `PathBuf::push` of a relative component: a separator is added unless the
/// base is empty or already ends with one.
pub open spec fn push_component(base: Seq<char>, name: Seq<char>) -> Seq<char> {
    if base.len() == 0 || base.last() == '/' {
        base + name
    } else {
        base + seq!['/'] + name
    }
}

/// The base with each component pushed in turn.
pub open spec fn push_all(base: Seq<char>, cs: Seq<Seq<char>>) -> Seq<char>
    decreases cs.len(),
{
    if cs.len() == 0 {
        base
    } else {
        push_component(push_all(base, cs.drop_last()), cs.last())
    }
}

/// Whether some component is `..`.
pub open spec fn has_parent_component(cs: Seq<Seq<char>>) -> bool {
    exists|i: int| 0 <= i < cs.len() && cs[i] == seq!['.', '.']
}

/// Whether a path has a `..` component.
pub fn has_parent_dir(path: &str) -> (r: bool)
    ensures
        r == has_parent_component(path_components(path@)),
{
    let cs = chars_of(path);
    let comps = components_of(cs.as_slice());
    let ghost v = comps@.map_values(|c: Vec<char>| c@);
    let mut i: usize = 0;
    while i < comps.len()
        invariant
            v == comps@.map_values(|c: Vec<char>| c@),
            v == path_components(path@),
            0 <= i <= v.len(),
            forall|k: int| 0 <= k < i ==> v[k] != seq!['.', '.'],
        decreases v.len() - i,
    {
        let c = &comps[i];
        assert(v[i as int] == c@);
        if c.len() == 2 && c[0] == '.' && c[1] == '.' {
            assert(c@ =~= seq!['.', '.']);
            return true;
        }
        assert(c@ != seq!['.', '.']) by {
            if c@ == seq!['.', '.'] {
                assert(c@[0] == '.' && c@[1] == '.');
            }
        }
        i = i + 1;
    }
    false
}

/// The outcome of joining an entry path onto an existing canonical base:
/// the joined path, or the message of the `PathTraversal` error.
pub open spec fn safe_join_verdict(base: Seq<char>, entry: Seq<char>) -> Result<Seq<char>, Seq<char>> {
    let cs = path_components(entry);
    if entry.len() > 0 && entry[0] == '/' {
        Err("Invalid component in path: "@ + entry)
    } else if has_parent_component(cs) {
        Err("Path traversal in joined path: "@ + entry)
    } else {
        Ok(push_all(base, cs))
    }
}

/// Validates that an extraction path stays within the intended base directory.
///
/// `canonical_base` is the base directory after canonicalization (done by the
/// caller, which reads the file system). Returns the full path if safe, or
/// an error if the path would escape; the result always begins with the base.
pub fn safe_join(canonical_base: &str, entry_path: &str) -> (r: Result<String, Error>)
    ensures
        match r {
            Ok(p) => safe_join_verdict(canonical_base@, entry_path@) == Ok::<Seq<char>, Seq<char>>(
                p@,
            ) && starts_with(p@, canonical_base@),
            Err(e) => e matches Error::PathTraversal(m) && safe_join_verdict(
                canonical_base@,
                entry_path@,
            ) == Err::<Seq<char>, Seq<char>>(m@),
        },
{
    let es = chars_of(entry_path);
    if es.len() > 0 && es[0] == '/' {
        return Err(Error::PathTraversal(concat("Invalid component in path: ", entry_path)));
    }
    let comps = components_of(es.as_slice());
    let ghost v = comps@.map_values(|c: Vec<char>| c@);
    let mut current = chars_of(canonical_base);
    let mut i: usize = 0;
    assert(current@.take(current@.len() as int) =~= current@);
    assert(v.take(0) =~= Seq::<Seq<char>>::empty());
    while i < comps.len()
        invariant
            v == comps@.map_values(|c: Vec<char>| c@),
            v == path_components(entry_path@),
            !(entry_path@.len() > 0 && entry_path@[0] == '/'),
            0 <= i <= v.len(),
            forall|k: int| 0 <= k < i ==> v[k] != seq!['.', '.'],
            current@ == push_all(canonical_base@, v.take(i as int)),
            starts_with(current@, canonical_base@),
        decreases v.len() - i,
    {
        let c = &comps[i];
        assert(v[i as int] == c@);
        if c.len() == 2 && c[0] == '.' && c[1] == '.' {
            assert(c@ =~= seq!['.', '.']);
            return Err(Error::PathTraversal(concat("Path traversal in joined path: ", entry_path)));
        }
        assert(c@ != seq!['.', '.']) by {
            if c@ == seq!['.', '.'] {
                assert(c@[0] == '.' && c@[1] == '.');
            }
        }
        let ghost before = current@;
        if current.len() > 0 && current[current.len() - 1] != '/' {
            current.push('/');
        }
        let mut k: usize = 0;
        let ghost mid = current@;
        while k < c.len()
            invariant
                0 <= k <= c@.len(),
                current@ == mid + c@.take(k as int),
            decreases c@.len() - k,
        {
            current.push(c[k]);
            k = k + 1;
            assert(current@ =~= mid + c@.take(k as int));
        }
        assert(c@.take(k as int) =~= c@);
        assert(v.take(i + 1).drop_last() =~= v.take(i as int));
        assert(current@ =~= push_component(before, c@));
        assert(current@.take(canonical_base@.len() as int) =~= before.take(
            canonical_base@.len() as int,
        ));
        i = i + 1;
    }
    assert(v.take(i as int) =~= v);
    assert(!has_parent_component(v));
    Ok(string_from_chars(current.as_slice()))
}

} // verus!
