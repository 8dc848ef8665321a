//! The zip container, as the shrink engine sees it: a source archive read
//! from memory and an output archive written to memory.
//!
//! Both are collections of the `zip` crate. What they hold is modelled entry
//! by entry (see [`archive_entries`] and [`written_entries`]); every item
//! below that calls into `zip` states, over those models, what the call
//! does to the collection and what it returns.

use std::io::{Cursor, Read, Write};

use vstd::prelude::*;
use zip::result::ZipError;
use zip::write::SimpleFileOptions;
use zip::{CompressionMethod, ZipArchive, ZipWriter};

verus! {

#[verifier::external_type_specification]
#[verifier::external_body]
#[verifier::reject_recursive_types(T)]
pub struct ExCursor<T>(Cursor<T>);

#[verifier::external_type_specification]
#[verifier::external_body]
#[verifier::reject_recursive_types(R)]
pub struct ExZipArchive<R>(ZipArchive<R>);

#[verifier::external_type_specification]
#[verifier::external_body]
pub struct ExZipError(ZipError);

#[verifier::external_type_specification]
#[verifier::external_body]
pub struct ExIoError(std::io::Error);

/// A source archive, read from bytes held in memory.
pub type Archive = ZipArchive<Cursor<Vec<u8>>>;

/// One entry of a source archive, in central-directory order:
/// `(name, is_dir, raw, opened_size, contents, raw_ok)`.
///
/// - `name`: the entry's name;
/// - `is_dir`: whether `zip` reports it as a directory;
/// - `raw`: the entry as `ZipWriter::raw_copy_file` carries it over (its
///   compressed payload and header fields), an opaque value whose only use
///   is to say that a copy is exact;
/// - `opened_size`: `Some(size)` when `by_index` can open the entry, with the
///   uncompressed size it declares;
/// - `contents`: `Some(bytes)` when the entry opens and reads to its end
///   without error, with the uncompressed bytes;
/// - `raw_ok`: whether `by_index_raw` finds the entry's data, that is,
///   whether its local header reads.
pub type EntryModel = (Seq<char>, bool, Seq<u8>, Option<u64>, Option<Seq<u8>>, bool);

pub open spec fn entry_name(e: EntryModel) -> Seq<char> {
    e.0
}

pub open spec fn entry_is_dir(e: EntryModel) -> bool {
    e.1
}

pub open spec fn entry_raw(e: EntryModel) -> Seq<u8> {
    e.2
}

pub open spec fn entry_opened_size(e: EntryModel) -> Option<u64> {
    e.3
}

pub open spec fn entry_contents(e: EntryModel) -> Option<Seq<u8>> {
    e.4
}

pub open spec fn entry_raw_ok(e: EntryModel) -> bool {
    e.5
}

/// No two entries share a name (the archive indexes its entries by name).
pub open spec fn names_distinct(es: Seq<EntryModel>) -> bool {
    forall|i: int, j: int|
        0 <= i < j < es.len() ==> entry_name(#[trigger] es[i]) != entry_name(#[trigger] es[j])
}

/// A name fits the 16-bit name-length field of a zip header.
pub open spec fn name_fits(name: Seq<char>) -> bool {
    vstd::utf8::encode_utf8(name).len() <= 65535
}

/// The largest entry the writer takes without the large-file (Zip64)
/// option.
pub open spec fn stored_limit() -> int {
    0xFFFF_FFFF
}

/// The compression method of an entry written fresh.
#[derive(Clone, Copy, Debug, PartialEq, Eq, Structural)]
pub enum EntryMethod {
    /// Kept as is.
    Stored,
    /// Deflate-compressed.
    Deflated,
}

/// One entry of an output archive, in the order written:
/// `(name, method, payload)`. An entry started fresh has `Some` of the
/// method it was started with, and `payload` is its (uncompressed) content;
/// a raw copy has `None`, and `payload` is the `raw` value of the source
/// entry it copies.
pub type WrittenModel = (Seq<char>, Option<EntryMethod>, Seq<u8>);

/// The names written so far, in order.
pub open spec fn written_names(ws: Seq<WrittenModel>) -> Seq<Seq<char>> {
    ws.map_values(|w: WrittenModel| w.0)
}

/// Every entry written fresh is Stored and holds no more than
/// [`stored_limit`] bytes.
pub open spec fn fresh_payloads_fit(ws: Seq<WrittenModel>) -> bool {
    forall|k: int|
        0 <= k < ws.len() && (#[trigger] ws[k]).1 is Some ==> ws[k].1 == Some(EntryMethod::Stored)
            && ws[k].2.len() <= stored_limit()
}

/// What a source archive holds.
pub uninterp spec fn archive_entries(a: Archive) -> Seq<EntryModel>;

/// How `ZipArchive::new` fares on `bytes`: the entries it finds, or its
/// failure — `None` for an i/o error, `Some(message)` for any other error,
/// with the error's `Display` text.
pub uninterp spec fn zip_open(bytes: Seq<u8>) -> Result<Seq<EntryModel>, Option<Seq<char>>>;

/// Why an archive could not be opened.
pub enum OpenFailure {
    /// Reading the container failed.
    Io(std::io::Error),
    /// The bytes are no zip container; the `zip` crate's description.
    Invalid(String),
}

/// The view of an [`OpenFailure`] that [`zip_open`] speaks of.
pub open spec fn open_failure_view(f: &OpenFailure) -> Option<Seq<char>> {
    match f {
        OpenFailure::Io(_) => None,
        OpenFailure::Invalid(m) => Some(m@),
    }
}

/// Calls `ZipArchive::new` on the bytes; its result is named by
/// [`zip_open`]. An i/o error is passed on as is, any other error as its
/// `Display` text. The archive keys its entries by name, so no two of them
/// share one.
#[verifier::external_body]
pub(crate) fn open_archive(data: Vec<u8>) -> (r: Result<Archive, OpenFailure>)
    ensures
        match r {
            Ok(a) => zip_open(data@) == Ok::<Seq<EntryModel>, Option<Seq<char>>>(
                archive_entries(a),
            ) && names_distinct(archive_entries(a)),
            Err(f) => zip_open(data@) == Err::<Seq<EntryModel>, Option<Seq<char>>>(
                open_failure_view(&f),
            ),
        },
{
    match ZipArchive::new(Cursor::new(data)) {
        Ok(a) => Ok(a),
        Err(ZipError::Io(e)) => Err(OpenFailure::Io(e)),
        Err(other) => Err(OpenFailure::Invalid(format!("{other}"))),
    }
}

/// `ZipArchive::len`: the number of entries.
#[verifier::external_body]
pub(crate) fn archive_len(a: &Archive) -> (n: usize)
    ensures
        n == archive_entries(*a).len(),
{
    a.len()
}

/// `ZipArchive::by_index_raw`, then the name and directory flag of the
/// entry it finds. It succeeds exactly when the entry's local header reads,
/// and then gives the entry's name and flag.
#[verifier::external_body]
pub(crate) fn entry_header(a: &mut Archive, i: usize) -> (r: Result<(String, bool), ZipError>)
    requires
        i < archive_entries(*old(a)).len(),
    ensures
        archive_entries(*final(a)) == archive_entries(*old(a)),
        r is Ok <==> entry_raw_ok(archive_entries(*old(a))[i as int]),
        r matches Ok((name, is_dir)) ==> name@ == entry_name(archive_entries(*old(a))[i as int])
            && is_dir == entry_is_dir(archive_entries(*old(a))[i as int]),
{
    let raw = a.by_index_raw(i)?;
    Ok((raw.name().to_string(), raw.is_dir()))
}

/// `ZipArchive::by_index`, then the size the opened entry declares.
#[verifier::external_body]
pub(crate) fn entry_size(a: &mut Archive, i: usize) -> (r: Option<u64>)
    requires
        i < archive_entries(*old(a)).len(),
    ensures
        archive_entries(*final(a)) == archive_entries(*old(a)),
        r == entry_opened_size(archive_entries(*old(a))[i as int]),
{
    a.by_index(i).ok().map(|entry| entry.size())
}

/// `ZipArchive::by_index`, then `read_to_end` on the opened entry.
#[verifier::external_body]
pub(crate) fn entry_data(a: &mut Archive, i: usize) -> (r: Option<Vec<u8>>)
    requires
        i < archive_entries(*old(a)).len(),
    ensures
        archive_entries(*final(a)) == archive_entries(*old(a)),
        match r {
            Some(v) => entry_contents(archive_entries(*old(a))[i as int]) == Some(v@),
            None => entry_contents(archive_entries(*old(a))[i as int]) is None,
        },
{
    let mut entry = a.by_index(i).ok()?;
    let mut buf = Vec::new();
    entry.read_to_end(&mut buf).ok()?;
    Some(buf)
}

/// `ZipArchive::index_for_name`: where the entry called `name` is. Entry
/// names are the keys of the archive's index, so at most one entry has it.
#[verifier::external_body]
pub(crate) fn index_of(a: &Archive, name: &str) -> (r: Option<usize>)
    ensures
        match r {
            Some(k) => k < archive_entries(*a).len() && entry_name(archive_entries(*a)[k as int])
                == name@ && forall|j: int|
                0 <= j < archive_entries(*a).len() && j != k ==> entry_name(
                    #[trigger] archive_entries(*a)[j],
                ) != name@,
            None => forall|k: int|
                0 <= k < archive_entries(*a).len() ==> entry_name(#[trigger] archive_entries(*a)[k])
                    != name@,
        },
{
    a.index_for_name(name)
}

/// An output archive being written in memory: a `zip` writer over a growable
/// byte buffer. [`written_entries`] names what it holds.
#[verifier::external_body]
pub struct ZipOutput {
    writer: ZipWriter<Cursor<Vec<u8>>>,
}

/// What an output archive holds so far.
pub uninterp spec fn written_entries(w: ZipOutput) -> Seq<WrittenModel>;

/// Whether the output has an entry open for writing: a fresh entry was
/// started and no other operation has finished it since.
pub uninterp spec fn output_open(w: ZipOutput) -> bool;

/// Whether no entry of the output was ever aborted: the writer aborts an
/// entry that outgrows the Stored limit (or whose start fails half-way) and
/// rewinds without truncating, which leaves stray bytes in the buffer.
pub uninterp spec fn output_intact(w: ZipOutput) -> bool;

/// The bytes of a finished output archive holding `entries`.
pub uninterp spec fn zip_file_bytes(entries: Seq<WrittenModel>) -> Seq<u8>;

/// `ZipWriter::new` over an empty in-memory buffer.
#[verifier::external_body]
pub(crate) fn new_output() -> (w: ZipOutput)
    ensures
        written_entries(w) == Seq::<WrittenModel>::empty(),
        !output_open(w),
        output_intact(w),
{
    ZipOutput { writer: ZipWriter::new(Cursor::new(Vec::new())) }
}

/// `ZipWriter::start_file` with the given method: a new, empty entry, open
/// for writing. A name that is already written is refused
/// (`insert_file_data`). A new Stored entry is taken as long as every entry
/// written fresh so far is Stored and within the Stored limit (the one open,
/// if any, is finished on the way), since the writer is an in-memory buffer
/// that never fails to grow; of a Deflated start nothing more is said. The
/// name must fit the header's 16-bit length field, which the crate converts
/// with an unchecked `unwrap`.
#[verifier::external_body]
pub(crate) fn start_entry(w: &mut ZipOutput, name: &str, method: EntryMethod) -> (r: Result<(), ZipError>)
    requires
        name_fits(name@),
    ensures
        r is Ok ==> written_entries(*final(w)) == written_entries(*old(w)).push(
            (name@, Some(method), Seq::<u8>::empty()),
        ) && output_open(*final(w)) && output_intact(*final(w)) == output_intact(*old(w)),
        written_names(written_entries(*old(w))).contains(name@) ==> r is Err,
        method == EntryMethod::Stored && !written_names(written_entries(*old(w))).contains(name@)
            && fresh_payloads_fit(written_entries(*old(w))) ==> r is Ok,
{
    let method = match method {
        EntryMethod::Stored => CompressionMethod::Stored,
        EntryMethod::Deflated => CompressionMethod::Deflated,
    };
    w.writer.start_file(name, SimpleFileOptions::default().compression_method(method))
}

/// `Write::write_all` on the writer: appends to the content of the fresh
/// entry that was started last. A Stored entry takes the bytes while it is
/// open and stays within the Stored limit (beyond it the crate aborts the
/// entry); an empty write succeeds without touching the writer.
#[verifier::external_body]
pub(crate) fn write_bytes(w: &mut ZipOutput, data: &[u8]) -> (r: Result<(), ZipError>)
    requires
        written_entries(*old(w)).len() > 0,
        written_entries(*old(w)).last().1 is Some,
    ensures
        r is Ok ==> written_entries(*final(w)) == written_entries(*old(w)).update(
            written_entries(*old(w)).len() - 1,
            (
                written_entries(*old(w)).last().0,
                written_entries(*old(w)).last().1,
                written_entries(*old(w)).last().2 + data@,
            ),
        ) && output_open(*final(w)) == output_open(*old(w)) && output_intact(*final(w))
            == output_intact(*old(w)),
        r is Ok && data@.len() > 0 ==> output_open(*old(w)),
        output_open(*old(w)) && written_entries(*old(w)).last().1 == Some(EntryMethod::Stored)
            && written_entries(*old(w)).last().2.len() + data@.len() <= stored_limit() ==> r is Ok,
{
    w.writer.write_all(data).map_err(ZipError::Io)
}

/// `ZipArchive::by_index_raw`, then `ZipWriter::raw_copy_file` of the found
/// entry: the entry is copied as it is, under its own name, and finished. It
/// succeeds when the entry's local header reads, its name is not written
/// yet, and the entry finished on the way is within the Stored limit: the
/// copy takes the large-file option from the entry's own sizes, and reading
/// the raw data from memory never fails. The name must fit the header's
/// 16-bit length field (names decoded from CP437 can grow past it), which
/// the crate converts with an unchecked `unwrap`.
#[verifier::external_body]
pub(crate) fn copy_raw(w: &mut ZipOutput, a: &mut Archive, i: usize) -> (r: Result<(), ZipError>)
    requires
        i < archive_entries(*old(a)).len(),
        name_fits(entry_name(archive_entries(*old(a))[i as int])),
    ensures
        archive_entries(*final(a)) == archive_entries(*old(a)),
        r is Ok ==> written_entries(*final(w)) == written_entries(*old(w)).push(
            (
                entry_name(archive_entries(*old(a))[i as int]),
                None::<EntryMethod>,
                entry_raw(archive_entries(*old(a))[i as int]),
            ),
        ) && !output_open(*final(w)) && output_intact(*final(w)) == output_intact(*old(w)),
        entry_raw_ok(archive_entries(*old(a))[i as int]) && !written_names(
            written_entries(*old(w)),
        ).contains(entry_name(archive_entries(*old(a))[i as int])) && fresh_payloads_fit(
            written_entries(*old(w)),
        ) ==> r is Ok,
{
    let raw = a.by_index_raw(i)?;
    w.writer.raw_copy_file(raw)
}

/// `ZipWriter::finish`: the bytes of the finished archive, which are those
/// of an archive of the written entries when no entry was ever aborted (an
/// aborted entry can leave stray bytes behind). It succeeds when
/// the entry finished on the way is within the Stored limit: the central
/// directory and the end records go to an in-memory buffer, with Zip64
/// records where the counts or offsets need them.
#[verifier::external_body]
pub(crate) fn finish_output(w: ZipOutput) -> (r: Result<Vec<u8>, ZipError>)
    ensures
        r matches Ok(bytes) ==> output_intact(w) ==> bytes@ == zip_file_bytes(written_entries(w)),
        fresh_payloads_fit(written_entries(w)) ==> r is Ok,
{
    Ok(w.writer.finish()?.into_inner())
}

} // verus!
