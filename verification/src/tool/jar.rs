//! JAR file operations and in-memory representation.

use vstd::prelude::*;

use crate::error::Error;
use crate::jar::{entries_view, EntryView};
use crate::strings::{chars_end_with, chars_of, ends_with};
use crate::zipio::{
    archive_holds, files_writable, lemma_writable_split, files_written, write_files, zip_entry_count, zip_entry_data, zip_entry_meta, zip_entry_opens,
    zip_entry_reads, zip_opens,
    Compression, ZipBuilder, ZipReader,
};

verus! {

broadcast use vstd::string::group_string_axioms;

/// In-memory representation of a JAR file.
///
/// Separates class files from other resources for efficient processing.
#[derive(Debug, Clone)]
pub struct JarMemory {
    /// Class files with their paths and bytecode.
    pub classes: Vec<(String, Vec<u8>)>,
    /// Non-class files (resources, manifests, etc.).
    pub other_files: Vec<(String, Vec<u8>)>,
}

/// The message an outside crate gave for an error (ZIP reader or writer,
/// I/O, class-file parser).
pub open spec fn outside_message(e: Error) -> Seq<char> {
    match e {
        Error::Zip(m) => m@,
        Error::Io(m) => m@,
        Error::ClassFile(m) => m@,
        _ => Seq::empty(),
    }
}

/// The message an outside crate gave for an error.
pub fn outside_text(e: Error) -> (r: String)
    ensures
        r@ == outside_message(e),
{
    match e {
        Error::Zip(m) => m,
        Error::Io(m) => m,
        Error::ClassFile(m) => m,
        _ => String::new(),
    }
}

/// The classes and other files among the first `n` entries of an archive,
/// in archive order: entries whose names end in `.class` are classes.
pub open spec fn memory_scan(src: Seq<u8>, n: nat) -> (Seq<EntryView>, Seq<EntryView>)
    decreases n,
{
    if n == 0 {
        (Seq::empty(), Seq::empty())
    } else {
        let (cl, other) = memory_scan(src, (n - 1) as nat);
        let name = zip_entry_meta(src, n - 1).name;
        let data = zip_entry_data(src, n - 1);
        if ends_with(name, ".class"@) {
            (cl.push((name, data)), other)
        } else {
            (cl, other.push((name, data)))
        }
    }
}

/// Whether `jar` holds the entries of the archive `bytes`: every entry,
/// with its contents, split into classes and other files in archive order.
pub open spec fn memory_loaded_as(bytes: Seq<u8>, jar: JarMemory) -> bool {
    &&& zip_opens(bytes)
    &&& entries_view(jar.classes@) == memory_scan(bytes, zip_entry_count(bytes)).0
    &&& entries_view(jar.other_files@) == memory_scan(bytes, zip_entry_count(bytes)).1
}

/// Whether the reader opens the bytes as an archive and reads every entry
/// to the end.
pub open spec fn all_entries_read(bytes: Seq<u8>) -> bool {
    &&& zip_opens(bytes)
    &&& forall|i: int| 0 <= i < zip_entry_count(bytes) ==> #[trigger] zip_entry_opens(bytes, i)
    &&& forall|i: int| 0 <= i < zip_entry_count(bytes) ==> #[trigger] zip_entry_reads(bytes, i)
}

/// Loads a JAR file from bytes into memory.
///
/// Every entry is read; those whose names end in `.class` are classes, the
/// rest (directories included) other files, each list in archive order.
/// Loading succeeds exactly when the reader opens the archive and reads
/// every entry; otherwise the error is the ZIP reader's message.
pub fn load_jar_in_memory(bytes: Vec<u8>) -> (r: Result<JarMemory, String>)
    ensures
        r is Ok <==> all_entries_read(bytes@),
        r matches Ok(jar) ==> memory_loaded_as(bytes@, jar),
{
    let mut archive = match ZipReader::open(bytes.as_slice()) {
        Ok(a) => a,
        Err(e) => {
            return Err(outside_text(e));
        },
    };
    let ghost src = bytes@;
    let count = archive.len();
    let dot_class = chars_of(".class");
    let mut classes: Vec<(String, Vec<u8>)> = Vec::new();
    let mut other_files: Vec<(String, Vec<u8>)> = Vec::new();
    let mut i: usize = 0;
    while i < count
        invariant
            archive.source() == src,
            src == bytes@,
            count == zip_entry_count(src),
            dot_class@ == ".class"@,
            0 <= i <= count,
            memory_scan(src, i as nat) == (entries_view(classes@), entries_view(other_files@)),
            zip_opens(src),
            forall|k: int| 0 <= k < i ==> #[trigger] zip_entry_opens(src, k),
            forall|k: int| 0 <= k < i ==> #[trigger] zip_entry_reads(src, k),
        decreases count - i,
    {
        let info = match archive.entry_info(i) {
            Ok(info) => info,
            Err(e) => {
                assert(!zip_entry_opens(src, i as int));
                return Err(outside_text(e));
            },
        };
        let data = match archive.entry_data(i) {
            Ok(d) => d,
            Err(e) => {
                assert(!zip_entry_reads(src, i as int));
                assert(zip_entry_opens(src, i as int));
                return Err(outside_text(e));
            },
        };
        assert(zip_entry_opens(src, i as int) && zip_entry_reads(src, i as int));
        let ghost name = info.name@;
        let ghost d = data@;
        let ghost old_cl = entries_view(classes@);
        let ghost old_other = entries_view(other_files@);
        let nc = chars_of(info.name.as_str());
        if chars_end_with(nc.as_slice(), dot_class.as_slice()) {
            classes.push((info.name, data));
            assert(entries_view(classes@) =~= old_cl.push((name, d)));
        } else {
            other_files.push((info.name, data));
            assert(entries_view(other_files@) =~= old_other.push((name, d)));
        }
        i = i + 1;
    }
    Ok(JarMemory { classes, other_files })
}

/// Writes a [`JarMemory`] as JAR bytes: classes first, then the other
/// files, each stored uncompressed with permissions 0o644. Read back, the
/// bytes hold exactly these entries. Writing succeeds when every name fits
/// a ZIP header and is used once, and every file's data is under 2 GiB.
pub fn write_jar(jar_memory: &JarMemory) -> (r: Result<Vec<u8>, String>)
    ensures
        r matches Ok(b) ==> archive_holds(
            b@,
            files_written(entries_view(jar_memory.classes@) + entries_view(jar_memory.other_files@)),
        ),
        files_writable(
            Seq::empty(),
            entries_view(jar_memory.classes@) + entries_view(jar_memory.other_files@),
        ) ==> r is Ok,
{
    proof {
        if files_writable(Seq::empty(), entries_view(jar_memory.classes@) + entries_view(jar_memory.other_files@)) {
            lemma_writable_split(entries_view(jar_memory.classes@), entries_view(jar_memory.other_files@));
        }
    }
    let mut zip = ZipBuilder::new();
    if let Err(e) = write_files(&mut zip, &jar_memory.classes, Compression::Stored, 0o644) {
        return Err(outside_text(e));
    }
    if let Err(e) = write_files(&mut zip, &jar_memory.other_files, Compression::Stored, 0o644) {
        return Err(outside_text(e));
    }
    assert(files_written(entries_view(jar_memory.classes@) + entries_view(jar_memory.other_files@))
        =~= Seq::<(Seq<char>, Seq<u8>, bool)>::empty() + files_written(entries_view(jar_memory.classes@))
        + files_written(entries_view(jar_memory.other_files@)));
    match zip.finish() {
        Ok(b) => Ok(b),
        Err(e) => Err(outside_text(e)),
    }
}

/// What the first `n` entries of an archive holding `classes` then `others`
/// split into.
proof fn lemma_scan_of_written(
    bytes: Seq<u8>,
    classes: Seq<EntryView>,
    others: Seq<EntryView>,
    n: nat,
)
    requires
        archive_holds(bytes, files_written(classes + others)),
        n <= classes.len() + others.len(),
        forall|i: int| 0 <= i < classes.len() ==> ends_with(#[trigger] classes[i].0, ".class"@),
        forall|i: int| 0 <= i < others.len() ==> !ends_with(#[trigger] others[i].0, ".class"@),
    ensures
        n <= classes.len() ==> memory_scan(bytes, n) == (classes.take(n as int), Seq::<EntryView>::empty()),
        n > classes.len() ==> memory_scan(bytes, n) == (classes, others.take(n - classes.len())),
    decreases n,
{
    if n > 0 {
        lemma_scan_of_written(bytes, classes, others, (n - 1) as nat);
        let all = classes + others;
        let k = n - 1;
        assert(files_written(all)[k] == (all[k].0, all[k].1, false));
        assert(zip_entry_meta(bytes, k).name == all[k].0);
        if n <= classes.len() {
            assert(all[k] == classes[k]);
            assert(classes.take(n as int) =~= classes.take(k).push(classes[k]));
        } else {
            assert(all[k] == others[k - classes.len()]);
            if k == classes.len() {
                assert(classes.take(k) =~= classes);
                assert(others.take(1) =~= Seq::<EntryView>::empty().push(others[0]));
            } else {
                assert(others.take(n - classes.len()) =~= others.take(k - classes.len()).push(
                    others[k - classes.len()],
                ));
            }
        }
    }
}

/// Writing a JAR and reading it back gives the same classes and other
/// files, in the same order, when the classes are exactly the entries whose
/// names end in `.class`.
pub proof fn law_written_jar_reads_back(bytes: Seq<u8>, classes: Seq<EntryView>, others: Seq<EntryView>)
    requires
        archive_holds(bytes, files_written(classes + others)),
        forall|i: int| 0 <= i < classes.len() ==> ends_with(#[trigger] classes[i].0, ".class"@),
        forall|i: int| 0 <= i < others.len() ==> !ends_with(#[trigger] others[i].0, ".class"@),
    ensures
        zip_opens(bytes),
        memory_scan(bytes, zip_entry_count(bytes)) == (classes, others),
{
    let n = classes.len() + others.len();
    lemma_scan_of_written(bytes, classes, others, n);
    if others.len() == 0 {
        assert(classes.take(n as int) =~= classes);
        assert(others =~= Seq::<EntryView>::empty());
    } else {
        assert(others.take(n - classes.len()) =~= others);
    }
}

} // verus!
