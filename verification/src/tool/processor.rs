//! Class file processing and placeholder replacement.

use vstd::prelude::*;
use vstd::utf8::valid_utf8;

use rayon::prelude::{IntoParallelIterator, ParallelIterator};

use crate::archive::last_extension;
use crate::classfile::class_parses;
use crate::config::is_text_ext;
use crate::placeholders::PlaceholderMap;
use crate::jar::entries_view;
use crate::processor::{all_classes_rewrite, classes_rewritten, rewrite_classes_parallel};
use crate::strings::{chars_of, str_eq_ignore_ascii_case, string_from_chars};
use crate::text::{bytes_equal, is_utf8, replace_placeholders, replace_placeholders_utf8, try_utf16, utf16_attempt};
use crate::tool::config::{default_text_file_extension_list, default_text_file_extensions};
use crate::tool::jar::{outside_text, JarMemory};

verus! {

broadcast use vstd::string::group_string_axioms;

/// Processes all class files in a JAR, replacing placeholders in the
/// constant pool; the classes are processed in parallel.
///
/// Every UTF-8 constant whose whole text is a placeholder key is replaced by
/// the key's value, and every class is checked before it is written back.
/// The other files are left alone; the classes keep their paths and order.
pub fn process_classes(jar_memory: &mut JarMemory, placeholders: &PlaceholderMap) -> (r: Result<
    (),
    String,
>)
    ensures
        (exists|i: int|
            0 <= i < old(jar_memory).classes@.len() && !class_parses(
                #[trigger] old(jar_memory).classes@[i].1@,
            )) ==> r is Err,
        all_classes_rewrite(entries_view(old(jar_memory).classes@), placeholders@, true) ==> r is Ok,
        final(jar_memory).other_files@ == old(jar_memory).other_files@,
        r is Ok ==> classes_rewritten(
            old(jar_memory).classes@,
            placeholders@,
            true,
            final(jar_memory).classes@,
        ),
{
    let mut classes: Vec<(String, Vec<u8>)> = Vec::new();
    std::mem::swap(&mut classes, &mut jar_memory.classes);
    match rewrite_classes_parallel(classes, placeholders) {
        Ok(processed) => {
            jar_memory.classes = processed;
            Ok(())
        },
        Err(e) => Err(outside_text(e)),
    }
}

/// What processing a text file yields: UTF-8 is tried first, then UTF-16
/// LE and BE; the new contents when placeholders were replaced, `None` when
/// nothing changed or the bytes decode as none of them.
pub open spec fn plain_text_result(bytes: Seq<u8>, ph: Seq<(Seq<char>, Seq<char>)>) -> Option<
    Seq<u8>,
> {
    if valid_utf8(bytes) {
        let out = replace_placeholders_utf8(bytes, ph);
        if out == bytes {
            None
        } else {
            Some(out)
        }
    } else if bytes.len() >= 2 && bytes.len() % 2 == 0 {
        if utf16_attempt(bytes, true, ph) is Some {
            utf16_attempt(bytes, true, ph)
        } else {
            utf16_attempt(bytes, false, ph)
        }
    } else {
        None
    }
}

/// Processes a single text file, detecting the encoding and replacing placeholders.
fn process_text_file(file_bytes: &[u8], placeholders: &PlaceholderMap) -> (r: Option<Vec<u8>>)
    ensures
        match r {
            Some(v) => plain_text_result(file_bytes@, placeholders@) == Some(v@),
            None => plain_text_result(file_bytes@, placeholders@) is None,
        },
{
    if is_utf8(file_bytes) {
        let processed = replace_placeholders(file_bytes, placeholders);
        if !bytes_equal(processed.as_slice(), file_bytes) {
            return Some(processed);
        }
        return None;
    }
    if file_bytes.len() >= 2 && file_bytes.len() % 2 == 0 {
        if let Some(processed) = try_utf16(file_bytes, true, placeholders) {
            return Some(processed);
        }
        if let Some(processed) = try_utf16(file_bytes, false, placeholders) {
            return Some(processed);
        }
    }
    None
}

/// Whether a path's extension (the text after its last `.`) is one of
/// `exts`, ignoring ASCII case; a path without a `.` has none.
pub open spec fn has_text_extension(exts: Seq<Seq<char>>, path: Seq<char>) -> bool {
    path.contains('.') && is_text_ext(exts, last_extension(path))
}

/// Executable `has_text_extension`.
fn path_has_extension(path: &str, exts: &[String]) -> (r: bool)
    ensures
        r == has_text_extension(exts@.map_values(|s: String| s@), path@),
{
    let cs = chars_of(path);
    let mut dot: Option<usize> = None;
    let mut i: usize = 0;
    while i < cs.len()
        invariant
            cs@ == path@,
            0 <= i <= cs@.len(),
            match dot {
                Some(d) => d < i && cs@[d as int] == '.' && forall|k: int|
                    d < k < i ==> cs@[k] != '.',
                None => forall|k: int| 0 <= k < i ==> cs@[k] != '.',
            },
        decreases cs@.len() - i,
    {
        if cs[i] == '.' {
            dot = Some(i);
        }
        i = i + 1;
    }
    let d = match dot {
        Some(d) => d,
        None => {
            assert(!path@.contains('.'));
            return false;
        },
    };
    assert(path@.contains('.'));
    let ext_chars = vstd::slice::slice_to_vec(vstd::slice::slice_subrange(cs.as_slice(), d + 1, cs.len()));
    proof {
        lemma_last_extension_after(path@, d as int);
    }
    let ext = string_from_chars(ext_chars.as_slice());
    let ghost es = exts@.map_values(|s: String| s@);
    let mut j: usize = 0;
    while j < exts.len()
        invariant
            es == exts@.map_values(|s: String| s@),
            0 <= j <= exts@.len(),
            ext@ == last_extension(path@),
            path@.contains('.'),
            forall|k: int| 0 <= k < j ==> !crate::strings::eq_ignore_ascii_case(#[trigger] es[k], ext@),
        decreases exts@.len() - j,
    {
        assert(es[j as int] == exts@[j as int]@);
        if str_eq_ignore_ascii_case(exts[j].as_str(), ext.as_str()) {
            assert(crate::strings::eq_ignore_ascii_case(es[j as int], ext@));
            return true;
        }
        j = j + 1;
    }
    false
}

/// The text after the last `.` starts right after it.
proof fn lemma_last_extension_after(s: Seq<char>, d: int)
    requires
        0 <= d < s.len(),
        s[d] == '.',
        forall|k: int| d < k < s.len() ==> s[k] != '.',
    ensures
        last_extension(s) == s.subrange(d + 1, s.len() as int),
    decreases s.len(),
{
    if s.last() == '.' {
        assert(d == s.len() - 1);
    } else {
        lemma_last_extension_after(s.drop_last(), d);
        assert(s.subrange(d + 1, s.len() as int) =~= s.drop_last().subrange(
            d + 1,
            s.len() - 1,
        ).push(s.last()));
    }
}

/// What becomes of one other file: its processed text when its extension
/// is listed and placeholders were replaced, its contents otherwise.
pub open spec fn processed_other_file(
    path: Seq<char>,
    content: Seq<u8>,
    exts: Seq<Seq<char>>,
    ph: Seq<(Seq<char>, Seq<char>)>,
) -> Seq<u8> {
    if has_text_extension(exts, path) && plain_text_result(content, ph) is Some {
        plain_text_result(content, ph).unwrap()
    } else {
        content
    }
}

/// Processes one other file of a JAR: its text with placeholders replaced
/// when its extension is one of `extensions` and the text changed,
/// otherwise its contents unchanged; the path is kept.
pub fn process_other_file(path: String, bytes: Vec<u8>, placeholders: &PlaceholderMap, extensions: &[String]) -> (r: (
    String,
    Vec<u8>,
))
    ensures
        r.0@ == path@,
        r.1@ == processed_other_file(path@, bytes@, extensions@.map_values(|s: String| s@), placeholders@),
{
    if path_has_extension(path.as_str(), extensions) {
        if let Some(processed) = process_text_file(bytes.as_slice(), placeholders) {
            return (path, processed);
        }
    }
    (path, bytes)
}

/// Processes every other file with `process_other_file` on rayon's thread
/// pool (`into_par_iter().map(..).collect()`), which keeps the order.
#[verifier::external_body]
fn process_other_files_in_parallel(
    files: Vec<(String, Vec<u8>)>,
    placeholders: &PlaceholderMap,
    extensions: &[String],
) -> (r: Vec<(String, Vec<u8>)>)
    ensures
        r@.len() == files@.len(),
        forall|i: int|
            0 <= i < r@.len() ==> (#[trigger] r@[i]).0@ == files@[i].0@ && r@[i].1@
                == processed_other_file(
                files@[i].0@,
                files@[i].1@,
                extensions@.map_values(|s: String| s@),
                placeholders@,
            ),
{
    files.into_par_iter().map(|(path, bytes)| process_other_file(path, bytes, placeholders, extensions)).collect()
}

/// Processes UTF-8 and UTF-16 text files in a JAR, replacing placeholders.
///
/// A file is processed when its extension is one of `file_extensions`
/// (ASCII case-insensitively), or of the common text extensions when none
/// are given; UTF-8 is tried first, then UTF-16 LE and BE. The classes are
/// left alone; every file keeps its path and position.
pub fn process_utf_files(
    jar_memory: &mut JarMemory,
    placeholders: &PlaceholderMap,
    file_extensions: Option<&[String]>,
) -> (r: Result<(), String>)
    ensures
        r is Ok,
        final(jar_memory).classes@ == old(jar_memory).classes@,
        ({
            let exts = match file_extensions {
                Some(e) => e@.map_values(|s: String| s@),
                None => default_text_file_extensions(),
            };
            &&& final(jar_memory).other_files@.len() == old(jar_memory).other_files@.len()
            &&& forall|i: int|
                0 <= i < final(jar_memory).other_files@.len() ==> (#[trigger] final(jar_memory).other_files@[i]).0@ == old(jar_memory).other_files@[i].0@ && final(jar_memory).other_files@[i].1@ == processed_other_file(
                    old(jar_memory).other_files@[i].0@,
                    old(jar_memory).other_files@[i].1@,
                    exts,
                    placeholders@,
                )
        }),
{
    let defaults = default_text_file_extension_list();
    let extensions: &[String] = match file_extensions {
        Some(e) => e,
        None => defaults.as_slice(),
    };
    let mut files: Vec<(String, Vec<u8>)> = Vec::new();
    std::mem::swap(&mut files, &mut jar_memory.other_files);
    let out = process_other_files_in_parallel(files, placeholders, extensions);
    jar_memory.other_files = out;
    Ok(())
}

} // verus!
