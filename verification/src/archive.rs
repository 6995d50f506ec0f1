//! The zip layer: reading a `.gtpack` archive entry by entry and writing a
//! new one, over the `zip` crate. What an archive holds is modelled as the
//! sequence of its entries, `(name, contents)`, in central-directory order.
use std::io::Cursor;
use vstd::prelude::*;
use zip::result::ZipError;
use zip::write::SimpleFileOptions;
use zip::{CompressionMethod, ZipArchive, ZipWriter};

verus! {

/// `std::io::Cursor`, held opaque.
#[verifier::external_type_specification]
#[verifier::external_body]
#[verifier::reject_recursive_types(T)]
pub struct ExCursor<T>(Cursor<T>);

/// `zip::ZipArchive`, held opaque; what it holds is [`archive_entries`].
#[verifier::external_type_specification]
#[verifier::external_body]
#[verifier::reject_recursive_types(R)]
pub struct ExZipArchive<R>(ZipArchive<R>);

/// A `zip::ZipWriter` over an in-memory buffer. (Verus does not take the
/// writer's own declaration: its `Write + Seek` bounds are outside traits.)
#[verifier::external_body]
pub struct PackWriter {
    inner: ZipWriter<Cursor<Vec<u8>>>,
}

/// `zip::result::ZipError`, held opaque.
#[verifier::external_type_specification]
#[verifier::external_body]
pub struct ExZipError(ZipError);

/// `std::io::Error`, held opaque.
#[verifier::external_type_specification]
#[verifier::external_body]
pub struct ExIoError(std::io::Error);

/// An archive entry: its name and its contents.
pub type EntryV = (Seq<char>, Seq<u8>);

/// The entries, in central-directory order, that `zip::ZipArchive` reads
/// out of `bytes`.
pub uninterp spec fn zip_entries(bytes: Seq<u8>) -> Seq<(Seq<char>, Seq<u8>)>;

/// The entries an opened archive holds.
pub uninterp spec fn archive_entries(a: ZipArchive<Cursor<Vec<u8>>>) -> Seq<(Seq<char>, Seq<u8>)>;

/// The entries a writer has been given so far.
pub uninterp spec fn writer_entries(w: PackWriter) -> Seq<(Seq<char>, Seq<u8>)>;

/// Whether `zip::ZipArchive::new` opens `bytes`.
pub uninterp spec fn zip_opens(bytes: Seq<u8>) -> bool;

/// The bytes an opened archive was read from.
pub uninterp spec fn archive_source(a: ZipArchive<Cursor<Vec<u8>>>) -> Seq<u8>;

/// Whether the name of entry `i` of the archive in `bytes` decodes.
pub uninterp spec fn zip_name_ok(bytes: Seq<u8>, i: int) -> bool;

/// Whether the contents of entry `i` of the archive in `bytes` read back
/// (the entry opens and decompresses).
pub uninterp spec fn zip_read_ok(bytes: Seq<u8>, i: int) -> bool;

/// Whether a writer has an entry started that takes bytes.
pub uninterp spec fn writer_in_file(w: PackWriter) -> bool;

/// An entry name short enough for a local header (under 64 KiB of UTF-8).
pub open spec fn name_fits(name: Seq<char>) -> bool {
    name.len() < 16000
}

/// Contents small enough to stay clear of ZIP64 sizes (under 2 GiB).
pub open spec fn data_fits(data: Seq<u8>) -> bool {
    data.len() < 0x8000_0000
}

/// Every entry's contents fit.
pub open spec fn entries_fit(e: Seq<EntryV>) -> bool {
    forall|i: int| 0 <= i < e.len() ==> data_fits(#[trigger] e[i].1)
}

/// The archive in `bytes` opens, and every entry's name decodes and its
/// contents read back.
pub open spec fn zip_readable(bytes: Seq<u8>) -> bool {
    &&& zip_opens(bytes)
    &&& forall|i: int|
        #![trigger zip_name_ok(bytes, i)]
        #![trigger zip_read_ok(bytes, i)]
        0 <= i < zip_entries(bytes).len() ==> zip_name_ok(bytes, i) && zip_read_ok(bytes, i)
}

/// The names of a run of entries.
pub open spec fn entry_names(e: Seq<EntryV>) -> Seq<Seq<char>> {
    Seq::new(e.len(), |i: int| e[i].0)
}

/// Why an entry's contents could not be read: the entry could not be
/// opened, or reading its (decompressed) bytes failed.
pub enum ReadFailure {
    Open(ZipError),
    Read(std::io::Error),
}

/// `zip::ZipArchive::new` over an in-memory copy of `bytes`. Once open,
/// the archive holds exactly the entries the crate reads out of `bytes`.
#[verifier::external_body]
pub(crate) fn zip_open(bytes: &[u8]) -> (r: Result<ZipArchive<Cursor<Vec<u8>>>, ZipError>)
    ensures
        r is Ok <==> zip_opens(bytes@),
        r matches Ok(a) ==> archive_entries(a) == zip_entries(bytes@) && archive_source(a) == bytes@,
{
    ZipArchive::new(Cursor::new(bytes.to_vec()))
}

/// `zip::ZipArchive::len`: the number of entries.
#[verifier::external_body]
pub(crate) fn zip_len(a: &ZipArchive<Cursor<Vec<u8>>>) -> (n: usize)
    ensures
        n == archive_entries(*a).len(),
{
    a.len()
}

/// `zip::ZipArchive::name_for_index`: the name of entry `i`, decoded as
/// UTF-8 (or CP437 where it is not valid UTF-8). Decoding may fail.
#[verifier::external_body]
pub(crate) fn zip_entry_name(a: &ZipArchive<Cursor<Vec<u8>>>, i: usize) -> (r: Result<String, ZipError>)
    requires
        i < archive_entries(*a).len(),
    ensures
        r is Ok <==> zip_name_ok(archive_source(*a), i as int),
        r matches Ok(n) ==> n@ == archive_entries(*a)[i as int].0,
{
    match a.name_for_index(i) {
        Some(Ok(n)) => Ok(n.into_owned()),
        Some(Err(e)) => Err(e),
        None => Err(ZipError::FileNotFound),
    }
}

/// `zip::ZipArchive::by_index` then `Read::read_to_end`: the contents of
/// entry `i`. Opening the entry or decompressing it may fail; the archive
/// holds the same entries afterwards.
#[verifier::external_body]
pub(crate) fn zip_read_entry(a: &mut ZipArchive<Cursor<Vec<u8>>>, i: usize) -> (r: Result<Vec<u8>, ReadFailure>)
    requires
        i < archive_entries(*old(a)).len(),
    ensures
        archive_entries(*final(a)) == archive_entries(*old(a)),
        archive_source(*final(a)) == archive_source(*old(a)),
        r is Ok <==> zip_read_ok(archive_source(*old(a)), i as int),
        r matches Ok(d) ==> d@ == archive_entries(*old(a))[i as int].1,
{
    let mut f = match a.by_index(i) {
        Ok(f) => f,
        Err(e) => return Err(ReadFailure::Open(e)),
    };
    let mut buf = Vec::new();
    match std::io::Read::read_to_end(&mut f, &mut buf) {
        Ok(_) => Ok(buf),
        Err(e) => Err(ReadFailure::Read(e)),
    }
}

/// `zip::ZipArchive::by_index` then `Read::read_to_string`: the contents of
/// entry `i` as text. It fails, among other reasons, where the contents are
/// not valid UTF-8; the archive holds the same entries afterwards.
#[verifier::external_body]
pub(crate) fn zip_read_entry_text(a: &mut ZipArchive<Cursor<Vec<u8>>>, i: usize) -> (r: Result<String, ReadFailure>)
    requires
        i < archive_entries(*old(a)).len(),
    ensures
        archive_entries(*final(a)) == archive_entries(*old(a)),
        archive_source(*final(a)) == archive_source(*old(a)),
        r is Ok <==> (zip_read_ok(archive_source(*old(a)), i as int) && vstd::utf8::valid_utf8(
            archive_entries(*old(a))[i as int].1,
        )),
        r matches Ok(s) ==> vstd::utf8::valid_utf8(archive_entries(*old(a))[i as int].1)
            && s@ == vstd::utf8::decode_utf8(archive_entries(*old(a))[i as int].1),
{
    let mut f = match a.by_index(i) {
        Ok(f) => f,
        Err(e) => return Err(ReadFailure::Open(e)),
    };
    let mut buf = String::new();
    match std::io::Read::read_to_string(&mut f, &mut buf) {
        Ok(_) => Ok(buf),
        Err(e) => Err(ReadFailure::Read(e)),
    }
}

/// `zip::ZipWriter::new` over an empty in-memory buffer.
#[verifier::external_body]
pub(crate) fn zip_writer_new() -> (w: PackWriter)
    ensures
        writer_entries(w) == Seq::<EntryV>::empty(),
        !writer_in_file(w),
{
    PackWriter { inner: ZipWriter::new(Cursor::new(Vec::new())) }
}

/// `zip::ZipWriter::start_file`, deflate-compressed: a new, empty entry
/// named `name` is appended. The crate refuses a name already written.
#[verifier::external_body]
pub(crate) fn zip_start_file(w: &mut PackWriter, name: &str) -> (r: Result<(), ZipError>)
    ensures
        r is Ok ==> !entry_names(writer_entries(*old(w))).contains(name@),
        r is Ok ==> writer_entries(*final(w)) == writer_entries(*old(w)).push((name@, Seq::<u8>::empty())),
        r is Ok ==> writer_in_file(*final(w)),
        (!entry_names(writer_entries(*old(w))).contains(name@) && name_fits(name@) && entries_fit(
            writer_entries(*old(w)),
        )) ==> r is Ok,
{
    w.inner.start_file(name, SimpleFileOptions::default().compression_method(CompressionMethod::Deflated))
}

/// `Write::write_all` on a `zip::ZipWriter`: the bytes are appended to the
/// entry started last.
#[verifier::external_body]
pub(crate) fn zip_write_all(w: &mut PackWriter, data: &[u8]) -> (r: Result<(), std::io::Error>)
    ensures
        (r is Ok && writer_entries(*old(w)).len() > 0) ==> writer_entries(*final(w)) == writer_entries(*old(w)).update(
            writer_entries(*old(w)).len() - 1,
            (writer_entries(*old(w)).last().0, writer_entries(*old(w)).last().1 + data@),
        ),
        r is Ok ==> writer_in_file(*final(w)),
        (writer_in_file(*old(w)) && writer_entries(*old(w)).len() > 0 && data_fits(
            writer_entries(*old(w)).last().1 + data@,
        )) ==> r is Ok,
{
    std::io::Write::write_all(&mut w.inner, data)
}

/// `zip::ZipWriter::finish`: the finished archive's bytes, which the crate
/// opens again and from which it reads back, entry by entry and without
/// fail, exactly the entries that were written.
#[verifier::external_body]
pub(crate) fn zip_finish(w: PackWriter) -> (r: Result<Vec<u8>, ZipError>)
    ensures
        r matches Ok(out) ==> zip_entries(out@) == writer_entries(w) && zip_readable(out@),
        entries_fit(writer_entries(w)) ==> r is Ok,
{
    match w.inner.finish() {
        Ok(c) => Ok(c.into_inner()),
        Err(e) => Err(e),
    }
}

} // verus!
