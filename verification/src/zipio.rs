//! Reading and writing ZIP archives in memory (the `zip` crate).
//!
//! A reader remembers the bytes it was opened on; what it reports about the
//! entries is named as a function of those bytes.

use std::io::{Read, Write};
use vstd::prelude::*;
use vstd::string::StringSliceAdditionalSpecFns;
use vstd::utf8::encode_utf8;

use crate::error::Error;
use crate::jar::entries_view;

verus! {

#[verifier::external_type_specification]
#[verifier::external_body]
#[verifier::reject_recursive_types(T)]
pub struct ExCursor<T>(std::io::Cursor<T>);

#[verifier::external_type_specification]
#[verifier::external_body]
#[verifier::reject_recursive_types(R)]
pub struct ExZipArchive<R>(zip::ZipArchive<R>);

/// What the central directory says of one entry.
pub struct EntryMeta {
    pub name: Seq<char>,
    pub is_dir: bool,
    pub size: u64,
    pub compressed_size: u64,
}

/// Whether `zip::ZipArchive::new` accepts the bytes as an archive.
pub uninterp spec fn zip_opens(archive: Seq<u8>) -> bool;

/// The number of entries `zip::ZipArchive::len` reports.
pub uninterp spec fn zip_entry_count(archive: Seq<u8>) -> nat;

/// The name, directory flag and sizes of entry `index` as `zip::ZipArchive::by_index` reports them.
pub uninterp spec fn zip_entry_meta(archive: Seq<u8>, index: int) -> EntryMeta;

/// The decompressed contents of entry `index`, as reading it to the end yields them.
pub uninterp spec fn zip_entry_data(archive: Seq<u8>, index: int) -> Seq<u8>;

/// Whether `zip::ZipArchive::by_index` opens entry `index`: its local
/// header is read and its compression method is one the reader supports.
pub uninterp spec fn zip_entry_opens(archive: Seq<u8>, index: int) -> bool;

/// Whether entry `index` opens and reading it to the end succeeds: the data
/// decompresses and its checksum matches.
pub uninterp spec fn zip_entry_reads(archive: Seq<u8>, index: int) -> bool;

/// The entry names in central-directory order (`zip::ZipArchive::file_names`).
pub uninterp spec fn zip_entry_names(archive: Seq<u8>) -> Seq<Seq<char>>;

/// An entry's name, directory flag and sizes.
#[derive(Debug, Clone)]
pub struct EntryInfo {
    pub name: String,
    pub is_dir: bool,
    pub size: u64,
    pub compressed_size: u64,
}

impl View for EntryInfo {
    type V = EntryMeta;

    open spec fn view(&self) -> EntryMeta {
        EntryMeta {
            name: self.name@,
            is_dir: self.is_dir,
            size: self.size,
            compressed_size: self.compressed_size,
        }
    }
}

/// An archive opened for reading, with the bytes it was opened on.
pub struct ZipReader {
    archive: zip::ZipArchive<std::io::Cursor<Vec<u8>>>,
    source: Ghost<Seq<u8>>,
}

impl ZipReader {
    /// The bytes the archive was opened on.
    pub closed spec fn source(&self) -> Seq<u8> {
        self.source@
    }

    /// Opens an archive (`zip::ZipArchive::new`); on failure, the zip crate's message.
    #[verifier::external_body]
    pub(crate) fn open(bytes: &[u8]) -> (r: Result<ZipReader, Error>)
        ensures
            r is Ok <==> zip_opens(bytes@),
            r matches Ok(z) ==> z.source() == bytes@,
            r matches Err(e) ==> e is Zip,
    {
        match zip::ZipArchive::new(std::io::Cursor::new(bytes.to_vec())) {
            Ok(archive) => Ok(ZipReader { archive, source: Ghost(bytes@) }),
            Err(e) => Err(Error::Zip(e.to_string())),
        }
    }

    /// The number of entries (`zip::ZipArchive::len`).
    #[verifier::external_body]
    pub(crate) fn len(&self) -> (r: usize)
        ensures
            r == zip_entry_count(self.source()),
    {
        self.archive.len()
    }

    /// The name, directory flag and sizes of an entry (`by_index`, then
    /// `name`, `is_dir`, `size`, `compressed_size`); the reader calls an
    /// entry a directory when its name ends with `/` or `\\`.
    #[verifier::external_body]
    pub(crate) fn entry_info(&mut self, index: usize) -> (r: Result<EntryInfo, Error>)
        ensures
            final(self).source() == old(self).source(),
            r is Ok <==> zip_entry_opens(old(self).source(), index as int),
            r matches Ok(e) ==> e@ == zip_entry_meta(old(self).source(), index as int)
                && e.is_dir == ends_in_separator(e.name@),
            r matches Err(e) ==> e is Zip,
    {
        match self.archive.by_index(index) {
            Ok(f) => Ok(
                EntryInfo {
                    name: f.name().to_string(),
                    is_dir: f.is_dir(),
                    size: f.size(),
                    compressed_size: f.compressed_size(),
                },
            ),
            Err(e) => Err(Error::Zip(e.to_string())),
        }
    }

    /// The decompressed contents of an entry (`by_index`, then `read_to_end`);
    /// the buffer grows as the data arrives, whatever size the entry declares.
    #[verifier::external_body]
    pub(crate) fn entry_data(&mut self, index: usize) -> (r: Result<Vec<u8>, Error>)
        ensures
            final(self).source() == old(self).source(),
            r is Ok <==> zip_entry_reads(old(self).source(), index as int),
            r is Ok ==> zip_entry_opens(old(self).source(), index as int),
            r matches Ok(d) ==> d@ == zip_entry_data(old(self).source(), index as int),
            r matches Err(e) ==> e is Zip || e is Io,
    {
        match self.archive.by_index(index) {
            Ok(mut f) => {
                let mut buf = Vec::new();
                match f.read_to_end(&mut buf) {
                    Ok(_) => Ok(buf),
                    Err(e) => Err(Error::Io(e.to_string())),
                }
            },
            Err(e) => Err(Error::Zip(e.to_string())),
        }
    }

    /// The entry names in central-directory order (`zip::ZipArchive::file_names`).
    #[verifier::external_body]
    pub(crate) fn names(&self) -> (r: Vec<String>)
        ensures
            r@.map_values(|s: String| s@) == zip_entry_names(self.source()),
    {
        self.archive.file_names().map(|n| n.to_string()).collect()
    }
}

/// How an entry's data is stored.
#[derive(Debug, Clone, Copy)]
pub enum Compression {
    Stored,
    Deflated,
}

/// An archive being written into memory.
///
/// The writer's type has trait bounds (`Write + Seek`) that Verus cannot
/// declare, so the struct is opaque and every operation on it is a wrapper.
#[verifier::external_body]
pub struct ZipBuilder {
    writer: zip::ZipWriter<std::io::Cursor<Vec<u8>>>,
}

/// The entries written into a builder so far, in order: name, contents, and
/// whether the entry is a directory.
pub uninterp spec fn builder_entries(builder: ZipBuilder) -> Seq<(Seq<char>, Seq<u8>, bool)>;

/// Whether a file entry of the builder is open for data (the writer's
/// open-file flag): `start_file` opened one and no directory was added
/// since.
pub uninterp spec fn builder_open(builder: ZipBuilder) -> bool;

/// The largest entry data the writer takes without its large-file option:
/// under 2 GiB, so that even deflated data stays under the 4 GiB limit of a
/// ZIP header.
pub open spec fn data_fits(data: Seq<u8>) -> bool {
    data.len() < 0x8000_0000
}

/// Whether every entry's data fits.
pub open spec fn entries_fit(es: Seq<(Seq<char>, Seq<u8>, bool)>) -> bool {
    forall|i: int| 0 <= i < es.len() ==> data_fits(#[trigger] es[i].1)
}

/// Whether no entry has this name (the writer refuses a duplicate name).
pub open spec fn name_is_new(es: Seq<(Seq<char>, Seq<u8>, bool)>, name: Seq<char>) -> bool {
    forall|i: int| 0 <= i < es.len() ==> (#[trigger] es[i]).0 != name
}

/// The name `zip::ZipWriter::add_directory` gives a directory: a `/` is
/// appended unless the name ends with `/` or `\`.
pub open spec fn directory_name(name: Seq<char>) -> Seq<char> {
    if name.len() > 0 && (name.last() == '/' || name.last() == '\\') {
        name
    } else {
        name.push('/')
    }
}

/// Whether a name ends with `/` or `\\`, which makes the ZIP reader report
/// its entry as a directory.
pub open spec fn ends_in_separator(name: Seq<char>) -> bool {
    name.len() > 0 && (name.last() == '/' || name.last() == '\\')
}

/// Whether reading `bytes` as an archive gives back these entries: it
/// opens, has one entry per written entry, and each entry has the written
/// name, is a directory exactly when that name ends with a separator, and
/// has, decompressed, the written contents.
pub open spec fn archive_holds(bytes: Seq<u8>, entries: Seq<(Seq<char>, Seq<u8>, bool)>) -> bool {
    &&& zip_opens(bytes)
    &&& zip_entry_count(bytes) == entries.len()
    &&& forall|i: int|
        0 <= i < entries.len() ==> (#[trigger] zip_entry_meta(bytes, i)).name == entries[i].0
            && zip_entry_meta(bytes, i).is_dir == ends_in_separator(entries[i].0)
            && zip_entry_data(bytes, i) == entries[i].1
}

impl ZipBuilder {
    /// Starts an empty archive (`zip::ZipWriter::new`).
    #[verifier::external_body]
    pub(crate) fn new() -> (r: ZipBuilder)
        ensures
            builder_entries(r) == Seq::<(Seq<char>, Seq<u8>, bool)>::empty(),
            !builder_open(r),
    {
        ZipBuilder { writer: zip::ZipWriter::new(std::io::Cursor::new(Vec::new())) }
    }

    /// Starts a file entry (`zip::ZipWriter::start_file`) with the given
    /// compression and Unix permissions; the data written next goes into it.
    /// The writer stores the name's length in 16 bits and panics on a longer
    /// name, so the name must fit. It refuses a name already used; it
    /// finishes the entry open before, which fails only when that entry's
    /// data exceeds 4 GiB.
    #[verifier::external_body]
    pub(crate) fn start_file(&mut self, name: &str, method: Compression, permissions: u32) -> (r:
        Result<(), Error>)
        requires
            name.spec_bytes().len() <= MAX_NAME_BYTES,
        ensures
            r is Ok ==> builder_entries(*final(self)) == builder_entries(*old(self)).push(
                (name@, Seq::empty(), false),
            ),
            r is Ok ==> builder_open(*final(self)),
            name_is_new(builder_entries(*old(self)), name@) && entries_fit(builder_entries(*old(self)))
                ==> r is Ok,
            r matches Err(e) ==> e is Zip,
    {
        let m = match method {
            Compression::Stored => zip::CompressionMethod::Stored,
            Compression::Deflated => zip::CompressionMethod::Deflated,
        };
        let options: zip::write::FileOptions<'_, ()> = zip::write::FileOptions::default()
            .compression_method(m)
            .unix_permissions(permissions);
        self.writer.start_file(name, options).map_err(|e| Error::Zip(e.to_string()))
    }

    /// Writes data into the current file entry (`Write::write_all`); writing
    /// fails when no file entry is open, or when the entry's data would
    /// exceed 4 GiB. Empty data is never handed to the writer: writing it
    /// succeeds and changes nothing, whether or not an entry is open.
    #[verifier::external_body]
    pub(crate) fn write_all(&mut self, data: &[u8]) -> (r: Result<(), Error>)
        ensures
            data@.len() == 0 ==> r is Ok && builder_entries(*final(self)) == builder_entries(
                *old(self),
            ) && builder_open(*final(self)) == builder_open(*old(self)),
            r is Ok && data@.len() > 0 ==> ({
                let es = builder_entries(*old(self));
                &&& es.len() > 0
                &&& !es.last().2
                &&& builder_entries(*final(self)) == es.drop_last().push(
                    (es.last().0, es.last().1 + data@, false),
                )
            }),
            r is Ok && data@.len() > 0 ==> builder_open(*final(self)),
            builder_open(*old(self)) && entries_fit(builder_entries(*old(self))) && (builder_entries(
                *old(self),
            ).len() > 0 ==> data_fits(builder_entries(*old(self)).last().1 + data@)) ==> r is Ok,
            r matches Err(e) ==> e is Io,
    {
        self.writer.write_all(data).map_err(|e| Error::Io(e.to_string()))
    }

    /// Adds a directory entry (`zip::ZipWriter::add_directory`) with the
    /// given compression and Unix permissions. The name, with the `/` the
    /// writer may append, must fit in the 16-bit length field. Like
    /// `start_file`, it refuses a name already used and finishes the entry
    /// open before.
    #[verifier::external_body]
    pub(crate) fn add_directory(&mut self, name: &str, method: Compression, permissions: u32) -> (r:
        Result<(), Error>)
        requires
            name.spec_bytes().len() < MAX_NAME_BYTES,
        ensures
            r is Ok ==> builder_entries(*final(self)) == builder_entries(*old(self)).push(
                (directory_name(name@), Seq::empty(), true),
            ),
            r is Ok ==> !builder_open(*final(self)),
            name_is_new(builder_entries(*old(self)), directory_name(name@)) && entries_fit(
                builder_entries(*old(self)),
            ) ==> r is Ok,
            r matches Err(e) ==> e is Zip,
    {
        let m = match method {
            Compression::Stored => zip::CompressionMethod::Stored,
            Compression::Deflated => zip::CompressionMethod::Deflated,
        };
        let options: zip::write::FileOptions<'_, ()> = zip::write::FileOptions::default()
            .compression_method(m)
            .unix_permissions(permissions);
        self.writer.add_directory(name, options).map_err(|e| Error::Zip(e.to_string()))
    }

    /// Finishes the archive (`zip::ZipWriter::finish`) and returns its bytes,
    /// which read back as the entries written. Writing into memory, it fails
    /// only when the open entry's data exceeds 4 GiB.
    #[verifier::external_body]
    pub(crate) fn finish(self) -> (r: Result<Vec<u8>, Error>)
        ensures
            r matches Ok(b) ==> archive_holds(b@, builder_entries(self)),
            entries_fit(builder_entries(self)) ==> r is Ok,
            r matches Err(e) ==> e is Zip,
    {
        self.writer.finish().map(|c| c.into_inner()).map_err(|e| Error::Zip(e.to_string()))
    }
}

/// The longest entry name, in bytes, that a ZIP header can hold.
pub const MAX_NAME_BYTES: usize = 65535;

/// Whether a name is short enough to be written as an entry name.
pub fn name_fits(name: &str) -> (r: bool)
    ensures
        r == (name.spec_bytes().len() <= MAX_NAME_BYTES),
{
    name.as_bytes().len() <= MAX_NAME_BYTES
}

/// The error for an entry name longer than a ZIP header can hold.
pub fn name_too_long() -> (r: Error)
    ensures
        r is Zip,
{
    Error::Zip("Entry name longer than 65535 bytes".to_owned())
}

/// Named entries as written file entries.
pub open spec fn files_written(v: Seq<(Seq<char>, Seq<u8>)>) -> Seq<(Seq<char>, Seq<u8>, bool)> {
    v.map_values(|e: (Seq<char>, Seq<u8>)| (e.0, e.1, false))
}

/// Writes one named file into a builder.
pub(crate) fn write_file(
    zip: &mut ZipBuilder,
    name: &str,
    bytes: &[u8],
    method: Compression,
    permissions: u32,
) -> (r: Result<(), Error>)
    ensures
        r is Ok ==> builder_entries(*final(zip)) == builder_entries(*old(zip)).push(
            (name@, bytes@, false),
        ),
        name.spec_bytes().len() <= MAX_NAME_BYTES && name_is_new(builder_entries(*old(zip)), name@)
            && entries_fit(builder_entries(*old(zip))) && data_fits(bytes@) ==> r is Ok,
        r matches Err(e) ==> e is Zip || e is Io,
{
    if !name_fits(name) {
        return Err(name_too_long());
    }
    zip.start_file(name, method, permissions)?;
    let ghost started = builder_entries(*zip);
    proof {
        assert(started.last().1 + bytes@ =~= bytes@);
        if entries_fit(builder_entries(*old(zip))) {
            assert forall|i: int| 0 <= i < started.len() implies data_fits(#[trigger] started[i].1) by {
                if i < started.len() - 1 {
                    assert(started[i] == builder_entries(*old(zip))[i]);
                }
            }
        }
    }
    zip.write_all(bytes)?;
    proof {
        if bytes@.len() == 0 {
            assert(bytes@ =~= Seq::<u8>::empty());
        } else {
            assert(started.drop_last() == builder_entries(*old(zip)));
            assert(Seq::<u8>::empty() + bytes@ =~= bytes@);
        }
    }
    Ok(())
}

/// Whether named files can be written after the entries `start`: every
/// name fits a ZIP header and is used once among the start and the files,
/// and all data fits.
pub open spec fn files_writable(start: Seq<(Seq<char>, Seq<u8>, bool)>, fs: Seq<(Seq<char>, Seq<u8>)>) -> bool {
    &&& entries_fit(start)
    &&& forall|i: int|
        0 <= i < fs.len() ==> encode_utf8((#[trigger] fs[i]).0).len() <= MAX_NAME_BYTES && data_fits(
            fs[i].1,
        ) && name_is_new(start, fs[i].0)
    &&& forall|i: int, j: int| 0 <= i < j < fs.len() ==> (#[trigger] fs[i]).0 != (#[trigger] fs[j]).0
}

/// Files that can be written one list after the other can be written as
/// the first list, then the second after it, and all their data fits.
pub proof fn lemma_writable_split(a: Seq<(Seq<char>, Seq<u8>)>, b: Seq<(Seq<char>, Seq<u8>)>)
    requires
        files_writable(Seq::empty(), a + b),
    ensures
        files_writable(Seq::empty(), a),
        files_writable(files_written(a), b),
        entries_fit(files_written(a) + files_written(b)),
{
    let ab = a + b;
    assert forall|i: int| 0 <= i < a.len() implies encode_utf8((#[trigger] a[i]).0).len() <= MAX_NAME_BYTES
        && data_fits(a[i].1) && name_is_new(Seq::empty(), a[i].0) by {
        assert(ab[i] == a[i]);
    }
    assert forall|i: int, j: int| 0 <= i < j < a.len() implies (#[trigger] a[i]).0 != (#[trigger] a[j]).0 by {
        assert(ab[i] == a[i] && ab[j] == a[j]);
    }
    let wa = files_written(a);
    assert forall|k: int| 0 <= k < wa.len() implies data_fits(#[trigger] wa[k].1) by {
        assert(ab[k] == a[k]);
    }
    assert forall|i: int| 0 <= i < b.len() implies encode_utf8((#[trigger] b[i]).0).len() <= MAX_NAME_BYTES
        && data_fits(b[i].1) && name_is_new(wa, b[i].0) by {
        assert(ab[a.len() + i] == b[i]);
        assert forall|k: int| 0 <= k < wa.len() implies (#[trigger] wa[k]).0 != b[i].0 by {
            assert(ab[k] == a[k]);
        }
    }
    assert forall|i: int, j: int| 0 <= i < j < b.len() implies (#[trigger] b[i]).0 != (#[trigger] b[j]).0 by {
        assert(ab[a.len() + i] == b[i] && ab[a.len() + j] == b[j]);
    }
    let w = files_written(a) + files_written(b);
    assert forall|k: int| 0 <= k < w.len() implies data_fits(#[trigger] w[k].1) by {
        if k < a.len() {
            assert(ab[k] == a[k]);
        } else {
            assert(ab[k] == b[k - a.len()]);
        }
    }
}

/// Writes named files into a builder, in order.
pub(crate) fn write_files(
    zip: &mut ZipBuilder,
    files: &Vec<(String, Vec<u8>)>,
    method: Compression,
    permissions: u32,
) -> (r: Result<(), Error>)
    ensures
        r is Ok ==> builder_entries(*final(zip)) == builder_entries(*old(zip)) + files_written(
            entries_view(files@),
        ),
        files_writable(builder_entries(*old(zip)), entries_view(files@)) ==> r is Ok,
        r matches Err(e) ==> e is Zip || e is Io,
{
    let ghost start = builder_entries(*zip);
    let ghost fs = entries_view(files@);
    let mut i: usize = 0;
    while i < files.len()
        invariant
            0 <= i <= files@.len(),
            fs == entries_view(files@),
            start == builder_entries(*old(zip)),
            builder_entries(*zip) == start + files_written(entries_view(files@.take(i as int))),
        decreases files@.len() - i,
    {
        let (name, bytes) = &files[i];
        proof {
            if files_writable(start, fs) {
                let es = builder_entries(*zip);
                assert(fs[i as int] == (name@, bytes@));
                assert forall|j: int| 0 <= j < es.len() implies (#[trigger] es[j]).0 != name@ by {
                    if j >= start.len() {
                        assert(es[j].0 == fs[j - start.len()].0);
                    }
                }
                assert forall|j: int| 0 <= j < es.len() implies data_fits(#[trigger] es[j].1) by {
                    if j >= start.len() {
                        assert(es[j].1 == fs[j - start.len()].1);
                    }
                }
            }
        }
        write_file(zip, name.as_str(), bytes.as_slice(), method, permissions)?;
        assert(files@.take(i + 1) =~= files@.take(i as int).push(files@[i as int]));
        assert(files_written(entries_view(files@.take(i + 1))) =~= files_written(
            entries_view(files@.take(i as int)),
        ).push((name@, bytes@, false)));
        i = i + 1;
    }
    assert(files@.take(i as int) =~= files@);
    Ok(())
}

} // verus!
