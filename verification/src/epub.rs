//! The shrink engine: reads an EPUB container held in memory, recompresses
//! its images, and repacks it in memory.
//!
//! Guarantees, in order of importance:
//!
//! - **Recompression can only help**: an image is replaced only when the
//!   re-encoded version is strictly smaller; otherwise the original entry is
//!   copied through raw. Non-image entries are always copied bit-for-bit.
//! - **The output is spec-compliant**: the `mimetype` entry comes first and
//!   is stored uncompressed, as OCF requires, even when the source got that
//!   wrong.
//! - **Nothing but EPUBs is processed**: a container that neither declares
//!   the EPUB mimetype nor carries the OCF container manifest is refused.

use vstd::prelude::*;
use zip::result::ZipError;

use crate::codec::{image_kind, opt_view, recompress, recompress_outcome, spec_image_kind, ImageKind};
use crate::container::{
    entry_raw_ok, fresh_payloads_fit, name_fits, names_distinct, output_intact, stored_limit,
    written_names, archive_entries, archive_len, copy_raw, entry_contents, entry_data, entry_header, entry_is_dir,
    entry_name, entry_opened_size, entry_raw, entry_size, finish_output, index_of, new_output,
    open_archive, open_failure_view, start_entry, write_bytes, EntryMethod, written_entries, zip_file_bytes,
    zip_open, Archive, EntryModel, OpenFailure, WrittenModel,
};
use crate::quality::Quality;
use crate::text::{
    bytes_eq, skip_ws_backward, skip_ws_forward, str_eq, ws_len_at, ws_len_at_exec, ws_len_before,
    ws_len_before_exec,
};

verus! {

/// The OCF mimetype of an EPUB container.
pub const EPUB_MIMETYPE: &'static str = "application/epub+zip";

/// Images larger than this (uncompressed) are passed through without a
/// recompression attempt, so a pathological entry cannot balloon memory.
pub const MAX_IMAGE_BYTES: u64 = 268435456;

/// The bytes of `application/epub+zip`.
pub open spec fn mimetype_bytes() -> Seq<u8> {
    seq![
        97u8, 112u8, 112u8, 108u8, 105u8, 99u8, 97u8, 116u8, 105u8, 111u8, 110u8, 47u8,
        101u8, 112u8, 117u8, 98u8, 43u8, 122u8, 105u8, 112u8,
    ]
}

fn mimetype_array() -> (r: [u8; 20])
    ensures
        r@ == mimetype_bytes(),
{
    let r: [u8; 20] = [
        97, 112, 112, 108, 105, 99, 97, 116, 105, 111, 110, 47, 101, 112, 117, 98, 43, 122, 105,
        112,
    ];
    assert(r@ =~= mimetype_bytes());
    r
}

} // verus!

verus! {

/// The bytes are the text `application/epub+zip`, with nothing around it
/// but Unicode white space: what reading them as UTF-8 text, trimming it,
/// and comparing decides.
pub open spec fn declares_epub_mimetype(b: Seq<u8>) -> bool {
    let i = skip_ws_forward(b, 0);
    let j = skip_ws_backward(b, i, b.len() as int);
    0 <= i <= j <= b.len() && b.subrange(i, j) == mimetype_bytes()
}

/// Whether `bytes` is a declaration of the EPUB mimetype.
pub fn declares_epub(bytes: &[u8]) -> (r: bool)
    ensures
        r == declares_epub_mimetype(bytes@),
{
    let n = bytes.len();
    let mut i: usize = 0;
    while i < n && ws_len_at_exec(bytes, i) > 0
        invariant
            i <= n == bytes@.len(),
            skip_ws_forward(bytes@, 0) == skip_ws_forward(bytes@, i as int),
        decreases n - i,
    {
        i = i + ws_len_at_exec(bytes, i);
    }
    let mut j: usize = n;
    while ws_len_before_exec(bytes, j) > 0 && j - ws_len_before_exec(bytes, j) >= i
        invariant
            i <= j <= n == bytes@.len(),
            skip_ws_forward(bytes@, 0) == i,
            skip_ws_backward(bytes@, i as int, n as int) == skip_ws_backward(
                bytes@,
                i as int,
                j as int,
            ),
        decreases j - i,
    {
        j = j - ws_len_before_exec(bytes, j);
    }
    let m = mimetype_array();
    let middle = &bytes[i..j];
    bytes_eq(middle, &m)
}

} // verus!

verus! {

/// The name of the OCF mimetype entry.
pub open spec fn mimetype_name() -> Seq<char> {
    "mimetype"@
}

/// The name of the OCF container manifest.
pub open spec fn container_name() -> Seq<char> {
    "META-INF/container.xml"@
}

/// An EPUB must either declare the OCF mimetype (an entry called `mimetype`
/// that reads as that declaration) or at least carry an OCF container
/// manifest that opens.
pub open spec fn spec_is_epub(es: Seq<EntryModel>) -> bool {
    ||| exists|k: int|
        0 <= k < es.len() && entry_name(#[trigger] es[k]) == mimetype_name() && match entry_contents(
            es[k],
        ) {
            Some(c) => declares_epub_mimetype(c),
            None => false,
        }
    ||| exists|k: int|
        0 <= k < es.len() && entry_name(#[trigger] es[k]) == container_name() && entry_opened_size(
            es[k],
        ) is Some
}

/// Whether the archive passes as an EPUB (see [`spec_is_epub`]).
fn validate_epub(archive: &mut Archive) -> (r: bool)
    ensures
        archive_entries(*final(archive)) == archive_entries(*old(archive)),
        r == spec_is_epub(archive_entries(*old(archive))),
{
    let ghost es = archive_entries(*archive);
    let mimetype_ok = match index_of(archive, "mimetype") {
        Some(k) => match entry_data(archive, k) {
            Some(declared) => declares_epub(declared.as_slice()),
            None => false,
        },
        None => false,
    };
    if mimetype_ok {
        return true;
    }
    let container_ok = match index_of(archive, "META-INF/container.xml") {
        Some(k) => entry_size(archive, k).is_some(),
        None => false,
    };
    container_ok
}

} // verus!

verus! {

/// Why a container was refused.
pub enum OpenError {
    /// Reading the container failed.
    Read(std::io::Error),
    /// The bytes are not an EPUB; why not, in words.
    NotAnEpub(String),
}

/// The reason given for a zip container that is not an EPUB.
pub open spec fn no_epub_reason() -> Seq<char> {
    "no EPUB mimetype or META-INF/container.xml entry"@
}

/// The reason given for bytes that are no zip container at all.
pub open spec fn not_zip_reason(message: Seq<char>) -> Seq<char> {
    "not a zip container ("@ + message + ")"@
}

/// An EPUB container, opened and checked, ready to be shrunk.
pub struct EpubSource {
    archive: Archive,
}

impl View for EpubSource {
    type V = Seq<EntryModel>;

    /// The entries of the container.
    closed spec fn view(&self) -> Seq<EntryModel> {
        archive_entries(self.archive)
    }
}

impl EpubSource {
    /// Opens the container held in `data` and checks that it is an EPUB.
    /// Nothing is written anywhere: a refused container leaves no trace.
    pub fn open(data: Vec<u8>) -> (r: Result<EpubSource, OpenError>)
        ensures
            match r {
                Ok(src) => zip_open(data@) == Ok::<Seq<EntryModel>, Option<Seq<char>>>(src@)
                    && spec_is_epub(src@) && names_distinct(src@),
                Err(OpenError::Read(_)) => zip_open(data@) == Err::<
                    Seq<EntryModel>,
                    Option<Seq<char>>,
                >(None),
                Err(OpenError::NotAnEpub(reason)) => match zip_open(data@) {
                    Ok(es) => !spec_is_epub(es) && reason@ == no_epub_reason(),
                    Err(Some(message)) => reason@ == not_zip_reason(message),
                    Err(None) => false,
                },
            },
    {
        let mut archive = match open_archive(data) {
            Ok(a) => a,
            Err(OpenFailure::Io(e)) => {
                return Err(OpenError::Read(e));
            },
            Err(OpenFailure::Invalid(message)) => {
                let mut reason = String::from_str("not a zip container (");
                reason.append(message.as_str());
                reason.append(")");
                return Err(OpenError::NotAnEpub(reason));
            },
        };
        if validate_epub(&mut archive) {
            Ok(EpubSource { archive })
        } else {
            Err(OpenError::NotAnEpub(String::from_str("no EPUB mimetype or META-INF/container.xml entry")))
        }
    }

    /// The number of entries in the container.
    pub fn len(&self) -> (r: usize)
        ensures
            r == self@.len(),
    {
        archive_len(&self.archive)
    }
}

} // verus!

verus! {

/// Emitted once per zip entry as it is about to be processed.
#[derive(Debug)]
pub struct Progress<'a> {
    pub index: usize,
    pub total: usize,
    pub entry_name: &'a str,
}

/// The entry is the source's own `mimetype` entry (replaced, not copied).
pub open spec fn is_mimetype_entry(e: EntryModel) -> bool {
    entry_name(e) == mimetype_name()
}

/// The kind of image a (non-directory) entry announces by its name.
pub open spec fn entry_image_kind(e: EntryModel) -> Option<ImageKind> {
    if entry_is_dir(e) {
        None
    } else {
        spec_image_kind(vstd::utf8::encode_utf8(entry_name(e)))
    }
}

/// The uncompressed bytes of an entry, when it opens, is not larger than
/// [`MAX_IMAGE_BYTES`], and reads without error.
pub open spec fn image_data(e: EntryModel) -> Option<Seq<u8>> {
    match entry_opened_size(e) {
        Some(size) => if size > MAX_IMAGE_BYTES {
            None
        } else {
            entry_contents(e)
        },
        None => None,
    }
}

/// An image entry is recompressed only when its data could be read; for
/// every other entry no recompression is attempted.
pub open spec fn outcome_valid(e: EntryModel, quality: Quality, outcome: Option<Seq<u8>>) -> bool {
    if !is_mimetype_entry(e) && entry_image_kind(e) is Some && image_data(e) is Some {
        recompress_outcome(entry_image_kind(e)->0, image_data(e)->0, quality, outcome)
    } else {
        outcome is None
    }
}

/// The re-encoded bytes that replace an entry: the recompression outcome,
/// when there is one and it is strictly smaller than the original image.
pub open spec fn replacement(e: EntryModel, outcome: Option<Seq<u8>>) -> Option<Seq<u8>> {
    if is_mimetype_entry(e) || entry_image_kind(e) is None {
        None
    } else {
        match (image_data(e), outcome) {
            (Some(original), Some(smaller)) => if smaller.len() < original.len() {
                Some(smaller)
            } else {
                None
            },
            _ => None,
        }
    }
}

/// What an entry of the source becomes in the output: nothing for the
/// source's `mimetype`, a fresh stored entry for a replaced image, and a raw
/// copy for everything else.
pub open spec fn planned_entries(e: EntryModel, outcome: Option<Seq<u8>>) -> Seq<WrittenModel> {
    if is_mimetype_entry(e) {
        Seq::empty()
    } else {
        match replacement(e, outcome) {
            Some(smaller) => seq![(entry_name(e), Some(EntryMethod::Stored), smaller)],
            None => seq![(entry_name(e), None::<EntryMethod>, entry_raw(e))],
        }
    }
}

/// The canonical mimetype entry that opens every output.
pub open spec fn mimetype_written() -> WrittenModel {
    (mimetype_name(), Some(EntryMethod::Stored), mimetype_bytes())
}

/// What the first `n` source entries become, in order.
pub open spec fn plan_prefix(
    es: Seq<EntryModel>,
    outcomes: Seq<Option<Seq<u8>>>,
    n: int,
) -> Seq<WrittenModel>
    decreases n,
{
    if n <= 0 {
        Seq::empty()
    } else {
        plan_prefix(es, outcomes, n - 1) + planned_entries(es[n - 1], outcomes[n - 1])
    }
}

/// The entries of the shrunk EPUB.
pub open spec fn shrunk_entries(es: Seq<EntryModel>, outcomes: Seq<Option<Seq<u8>>>) -> Seq<
    WrittenModel,
> {
    seq![mimetype_written()] + plan_prefix(es, outcomes, es.len() as int)
}

/// The entry is an image that is kept as it is.
pub open spec fn is_kept_image(e: EntryModel, outcome: Option<Seq<u8>>) -> bool {
    !is_mimetype_entry(e) && entry_image_kind(e) is Some && replacement(e, outcome) is None
}

/// How many of the first `n` entries are replaced by a smaller image.
pub open spec fn count_recompressed(
    es: Seq<EntryModel>,
    outcomes: Seq<Option<Seq<u8>>>,
    n: int,
) -> nat
    decreases n,
{
    if n <= 0 {
        0
    } else {
        count_recompressed(es, outcomes, n - 1) + if replacement(es[n - 1], outcomes[n - 1]) is Some {
            1nat
        } else {
            0nat
        }
    }
}

/// How many of the first `n` entries are images kept as they are.
pub open spec fn count_kept(es: Seq<EntryModel>, outcomes: Seq<Option<Seq<u8>>>, n: int) -> nat
    decreases n,
{
    if n <= 0 {
        0
    } else {
        count_kept(es, outcomes, n - 1) + if is_kept_image(es[n - 1], outcomes[n - 1]) {
            1nat
        } else {
            0nat
        }
    }
}

/// The outcomes are possible recompression outcomes for the entries.
pub open spec fn outcomes_valid(
    es: Seq<EntryModel>,
    quality: Quality,
    outcomes: Seq<Option<Seq<u8>>>,
) -> bool {
    &&& outcomes.len() == es.len()
    &&& forall|i: int| 0 <= i < es.len() ==> outcome_valid(es[i], quality, #[trigger] outcomes[i])
}

/// A shrunk EPUB, repacked in memory.
pub struct Shrunk {
    /// The bytes of the new container.
    pub bytes: Vec<u8>,
    /// Images replaced by a smaller re-encoded version.
    pub images_recompressed: usize,
    /// Images kept as-is (re-encoding failed or was not smaller).
    pub images_kept: usize,
    /// Entries in the source container.
    pub entries_total: usize,
}

/// `s` is what shrinking the entries `es` at `quality` gives, for some
/// possible outcomes of the image recompressions.
pub open spec fn is_shrink_of(s: Shrunk, es: Seq<EntryModel>, quality: Quality) -> bool {
    exists|outcomes: Seq<Option<Seq<u8>>>|
        #![trigger shrunk_entries(es, outcomes)]
        {
            &&& outcomes_valid(es, quality, outcomes)
            &&& s.bytes@ == zip_file_bytes(shrunk_entries(es, outcomes))
            &&& s.images_recompressed == count_recompressed(es, outcomes, es.len() as int)
            &&& s.images_kept == count_kept(es, outcomes, es.len() as int)
            &&& s.entries_total == es.len()
            &&& carries_every_entry(shrunk_entries(es, outcomes), es, outcomes, quality)
        }
}

/// Reads an image entry's bytes, unless it cannot be opened or read, or is
/// larger than [`MAX_IMAGE_BYTES`].
fn read_entry(archive: &mut Archive, index: usize) -> (r: Option<Vec<u8>>)
    requires
        index < archive_entries(*old(archive)).len(),
    ensures
        archive_entries(*final(archive)) == archive_entries(*old(archive)),
        opt_view(r) == image_data(archive_entries(*old(archive))[index as int]),
{
    match entry_size(archive, index) {
        None => None,
        Some(size) => {
            if size > MAX_IMAGE_BYTES {
                None
            } else {
                entry_data(archive, index)
            }
        },
    }
}

} // verus!

verus! {

proof fn lemma_plan_step(es: Seq<EntryModel>, outcomes: Seq<Option<Seq<u8>>>, n: int)
    requires
        0 <= n < es.len(),
        n < outcomes.len(),
    ensures
        plan_prefix(es, outcomes, n + 1) == plan_prefix(es, outcomes, n) + planned_entries(
            es[n],
            outcomes[n],
        ),
        count_recompressed(es, outcomes, n + 1) == count_recompressed(es, outcomes, n) + if replacement(
            es[n],
            outcomes[n],
        ) is Some {
            1nat
        } else {
            0nat
        },
        count_kept(es, outcomes, n + 1) == count_kept(es, outcomes, n) + if is_kept_image(
            es[n],
            outcomes[n],
        ) {
            1nat
        } else {
            0nat
        },
{
}

/// Extending the outcomes does not change what the first `n` entries become.
proof fn lemma_plan_prefix_extend(
    es: Seq<EntryModel>,
    outcomes: Seq<Option<Seq<u8>>>,
    o: Option<Seq<u8>>,
    n: int,
)
    requires
        0 <= n <= outcomes.len(),
    ensures
        plan_prefix(es, outcomes.push(o), n) == plan_prefix(es, outcomes, n),
        count_recompressed(es, outcomes.push(o), n) == count_recompressed(es, outcomes, n),
        count_kept(es, outcomes.push(o), n) == count_kept(es, outcomes, n),
        count_recompressed(es, outcomes, n) + count_kept(es, outcomes, n) <= n,
    decreases n,
{
    if n > 0 {
        lemma_plan_prefix_extend(es, outcomes, o, n - 1);
        assert(outcomes.push(o)[n - 1] == outcomes[n - 1]);
    }
}

/// Why repacking a container failed.
#[derive(Debug)]
pub enum ShrinkFailure {
    /// The zip reader or writer refused an operation.
    Zip(ZipError),
    /// An entry's name takes more bytes (in UTF-8) than a zip header can
    /// record; the name is given.
    NameTooLong(String),
}

/// An entry can be carried over to the output: its local header reads, its
/// name fits a zip header, and its data, when read as an image, is within
/// the Stored limit.
pub open spec fn entry_carriable(e: EntryModel) -> bool {
    &&& entry_raw_ok(e)
    &&& name_fits(entry_name(e))
    &&& (image_data(e) matches Some(d) ==> d.len() <= stored_limit())
}

/// Every entry of the container can be carried over.
pub open spec fn all_carriable(es: Seq<EntryModel>) -> bool {
    forall|i: int| 0 <= i < es.len() ==> entry_carriable(#[trigger] es[i])
}

/// The progress callback `f` was called with entry number `index` of
/// `total`, whose name is `name`.
pub open spec fn progress_reported<F: FnMut(Progress<'_>)>(
    f: F,
    index: int,
    total: int,
    name: Seq<char>,
) -> bool {
    exists|p: Progress<'static>|
        #![trigger call_ensures(f, (p,), ())]
        p.index == index && p.total == total && p.entry_name@ == name && call_ensures(f, (p,), ())
}

/// The names of the first `n` source entries (leaving out `mimetype`) are
/// the names of what they become.
proof fn lemma_plan_names(es: Seq<EntryModel>, outcomes: Seq<Option<Seq<u8>>>, n: int)
    requires
        0 <= n <= es.len(),
        n <= outcomes.len(),
    ensures
        written_names(plan_prefix(es, outcomes, n)) == carried_names(es, n),
    decreases n,
{
    if n > 0 {
        lemma_plan_names(es, outcomes, n - 1);
        let prev = plan_prefix(es, outcomes, n - 1);
        let cur = plan_prefix(es, outcomes, n);
        assert(cur == prev + planned_entries(es[n - 1], outcomes[n - 1]));
        assert(written_names(cur) =~= carried_names(es, n));
    }
}

/// With distinct names, the name of entry `j` is not among those carried
/// before it.
proof fn lemma_carried_names_exclude(es: Seq<EntryModel>, n: int, j: int)
    requires
        names_distinct(es),
        0 <= n <= j < es.len(),
    ensures
        !carried_names(es, n).contains(entry_name(es[j])),
    decreases n,
{
    if n > 0 {
        lemma_carried_names_exclude(es, n - 1, j);
        assert(entry_name(es[n - 1]) != entry_name(es[j]));
        if !is_mimetype_entry(es[n - 1]) {
            let c = carried_names(es, n - 1).push(entry_name(es[n - 1]));
            assert(carried_names(es, n) == c);
            if c.contains(entry_name(es[j])) {
                let k = choose|k: int| 0 <= k < c.len() && c[k] == entry_name(es[j]);
                if k < c.len() - 1 {
                    assert(carried_names(es, n - 1)[k] == entry_name(es[j]));
                }
            }
        }
    }
}

impl EpubSource {
    /// Repacks the container at the given tier: a canonical `mimetype` entry
    /// first, then every other entry in order, each image replaced by its
    /// re-encoding only when that is strictly smaller. `progress` fires once
    /// per container entry, before the entry is processed. The repacking
    /// succeeds whenever every entry can be carried over.
    pub fn shrink<F: FnMut(Progress<'_>)>(&mut self, quality: Quality, progress: &mut F) -> (r:
        Result<Shrunk, ShrinkFailure>)
        requires
            forall|p: Progress<'_>| call_requires(*old(progress), (p,)),
        ensures
            final(self)@ == old(self)@,
            r matches Ok(s) ==> is_shrink_of(s, old(self)@, quality),
            names_distinct(old(self)@) && all_carriable(old(self)@) ==> r is Ok,
            r matches Err(ShrinkFailure::NameTooLong(n)) ==> exists|i: int|
                0 <= i < old(self)@.len() && entry_name(#[trigger] old(self)@[i]) == n@
                    && !name_fits(n@),
            r is Ok ==> forall|k: int|
                0 <= k < old(self)@.len() ==> progress_reported(
                    *old(progress),
                    k,
                    old(self)@.len() as int,
                    entry_name(#[trigger] old(self)@[k]),
                ),
    {
        let ghost es = self@;
        let ghost good = names_distinct(es) && all_carriable(es);
        let mut out = new_output();
        proof {
            reveal_strlit("mimetype");
            vstd::utf8::is_ascii_chars_encode_utf8("mimetype"@);
        }
        match start_entry(&mut out, "mimetype", EntryMethod::Stored) {
            Ok(()) => {},
            Err(e) => {
                return Err(ShrinkFailure::Zip(e));
            },
        }
        let m = mimetype_array();
        match write_bytes(&mut out, &m) {
            Ok(()) => {},
            Err(e) => {
                return Err(ShrinkFailure::Zip(e));
            },
        }
        assert(Seq::<u8>::empty() + m@ =~= mimetype_bytes());
        assert(written_entries(out) =~= seq![mimetype_written()]);
        let total = archive_len(&self.archive);
        let mut images_recompressed: usize = 0;
        let mut images_kept: usize = 0;
        let ghost mut outcomes: Seq<Option<Seq<u8>>> = Seq::empty();
        let mut index: usize = 0;
        assert(written_names(written_entries(out)) =~= seq![mimetype_name()] + carried_names(es, 0));
        while index < total
            invariant
                es == self@,
                es == old(self)@,
                good == (names_distinct(es) && all_carriable(es)),
                total == es.len(),
                index <= total,
                outcomes.len() == index,
                forall|i: int| 0 <= i < index ==> outcome_valid(es[i], quality, #[trigger] outcomes[i]),
                written_entries(out) == seq![mimetype_written()] + plan_prefix(
                    es,
                    outcomes,
                    index as int,
                ),
                written_names(written_entries(out)) == seq![mimetype_name()] + carried_names(
                    es,
                    index as int,
                ),
                good ==> fresh_payloads_fit(written_entries(out)),
                output_intact(out),
                images_recompressed == count_recompressed(es, outcomes, index as int),
                images_kept == count_kept(es, outcomes, index as int),
                images_recompressed + images_kept <= index,
                forall|p: Progress<'_>| call_requires(*old(progress), (p,)),
                *progress == *old(progress),
                forall|k: int|
                    0 <= k < index ==> progress_reported(
                        *progress,
                        k,
                        total as int,
                        entry_name(#[trigger] es[k]),
                    ),
            decreases total - index,
        {
            let ghost e = es[index as int];
            let (name, is_dir) = match entry_header(&mut self.archive, index) {
                Ok(h) => h,
                Err(err) => {
                    return Err(ShrinkFailure::Zip(err));
                },
            };
            let kind = if is_dir {
                None
            } else {
                image_kind(name.as_str())
            };
            assert(kind == entry_image_kind(e));
            let p = Progress { index, total, entry_name: name.as_str() };
            progress(p);
            assert(progress_reported(*progress, index as int, total as int, entry_name(e)));
            let ghost outcome: Option<Seq<u8>> = None;
            let ghost before = written_entries(out);
            if str_eq(name.as_str(), "mimetype") {
                // Already written, canonically.
            } else {
                if name.as_str().as_bytes().len() > 65535 {
                    return Err(ShrinkFailure::NameTooLong(name));
                }
                proof {
                    if good {
                    lemma_carried_names_exclude(es, index as int, index as int);
                    assert(written_names(before) == seq![mimetype_name()] + carried_names(es, index as int));
                    assert(!written_names(before).contains(entry_name(e))) by {
                        if written_names(before).contains(entry_name(e)) {
                            let k = choose|k: int| 0 <= k < written_names(before).len() && written_names(before)[k] == entry_name(e);
                            if k > 0 {
                                assert(carried_names(es, index as int)[k - 1] == entry_name(e));
                            }
                        }
                    }
                    }
                }
                match kind {
                    None => {
                        match copy_raw(&mut out, &mut self.archive, index) {
                            Ok(()) => {},
                            Err(err) => {
                                return Err(ShrinkFailure::Zip(err));
                            },
                        }
                    },
                    Some(k) => {
                        match read_entry(&mut self.archive, index) {
                            Some(original) => {
                                let re = recompress(k, original.as_slice(), quality);
                                proof {
                                    outcome = opt_view(re);
                                }
                                let smaller = match re {
                                    Some(v) => {
                                        if v.len() < original.len() {
                                            Some(v)
                                        } else {
                                            None
                                        }
                                    },
                                    None => None,
                                };
                                match smaller {
                                    Some(recompressed) => {
                                        // Already-compressed payload: deflating again wastes
                                        // CPU for ~0 gain, so it is stored.
                                        match start_entry(&mut out, name.as_str(), EntryMethod::Stored) {
                                            Ok(()) => {},
                                            Err(err) => {
                                                return Err(ShrinkFailure::Zip(err));
                                            },
                                        }
                                        match write_bytes(&mut out, recompressed.as_slice()) {
                                            Ok(()) => {},
                                            Err(err) => {
                                                return Err(ShrinkFailure::Zip(err));
                                            },
                                        }
                                        assert(Seq::<u8>::empty() + recompressed@
                                            =~= recompressed@);
                                        images_recompressed = images_recompressed + 1;
                                    },
                                    None => {
                                        match copy_raw(&mut out, &mut self.archive, index) {
                                            Ok(()) => {},
                                            Err(err) => {
                                                return Err(ShrinkFailure::Zip(err));
                                            },
                                        }
                                        images_kept = images_kept + 1;
                                    },
                                }
                            },
                            None => {
                                // Unreadable (e.g. unsupported compression method) or
                                // oversized: the raw bytes pass through untouched.
                                match copy_raw(&mut out, &mut self.archive, index) {
                                    Ok(()) => {},
                                    Err(err) => {
                                        return Err(ShrinkFailure::Zip(err));
                                    },
                                }
                                images_kept = images_kept + 1;
                            },
                        }
                    },
                }
            }
            proof {
                lemma_plan_prefix_extend(es, outcomes, outcome, index as int);
                outcomes = outcomes.push(outcome);
                lemma_plan_step(es, outcomes, index as int);
                lemma_plan_names(es, outcomes, index as int + 1);
                assert(written_names(written_entries(out)) =~= seq![mimetype_name()] + written_names(
                    plan_prefix(es, outcomes, index as int + 1),
                ));
            }
            index = index + 1;
        }
        let bytes = match finish_output(out) {
            Ok(b) => b,
            Err(err) => {
                return Err(ShrinkFailure::Zip(err));
            },
        };
        let s = Shrunk { bytes, images_recompressed, images_kept, entries_total: total };
        proof {
            lemma_every_entry_carried(es, quality, outcomes);
        }
        assert(shrunk_entries(es, outcomes) == seq![mimetype_written()] + plan_prefix(es, outcomes, es.len() as int));
        Ok(s)
    }
}

} // verus!

verus! {

/// The names of the first `n` source entries, leaving out `mimetype`.
pub open spec fn carried_names(es: Seq<EntryModel>, n: int) -> Seq<Seq<char>>
    decreases n,
{
    if n <= 0 {
        Seq::empty()
    } else if is_mimetype_entry(es[n - 1]) {
        carried_names(es, n - 1)
    } else {
        carried_names(es, n - 1).push(entry_name(es[n - 1]))
    }
}

/// How many of the first `n` source entries are images (other than
/// `mimetype`).
pub open spec fn count_images(es: Seq<EntryModel>, n: int) -> nat
    decreases n,
{
    if n <= 0 {
        0
    } else {
        count_images(es, n - 1) + if !is_mimetype_entry(es[n - 1]) && entry_image_kind(es[n - 1]) is Some {
            1nat
        } else {
            0nat
        }
    }
}

/// What an output entry is, relative to the source entry `e` it comes from:
/// a raw copy of it, or (only for an image) a fresh entry of the same name
/// holding a possible recompression of its data that is strictly smaller.
pub open spec fn derives_from(w: WrittenModel, e: EntryModel, o: Option<Seq<u8>>, quality: Quality) -> bool {
    &&& w.0 == entry_name(e)
    &&& !is_mimetype_entry(e)
    &&& if w.1 is Some {
        &&& w.1 == Some(EntryMethod::Stored)
        &&& entry_image_kind(e) is Some
        &&& image_data(e) is Some
        &&& o == Some(w.2)
        &&& recompress_outcome(entry_image_kind(e)->0, image_data(e)->0, quality, o)
        &&& w.2.len() < image_data(e)->0.len()
    } else {
        w.2 == entry_raw(e)
    }
}

/// Every source entry other than `mimetype` is carried into the output
/// entries `ws` (the canonical `mimetype` first): some output entry derives
/// from it, and, when the source names are distinct, every output entry of
/// its name does.
pub open spec fn carries_every_entry(
    ws: Seq<WrittenModel>,
    es: Seq<EntryModel>,
    outcomes: Seq<Option<Seq<u8>>>,
    quality: Quality,
) -> bool {
    forall|i: int|
        0 <= i < es.len() && !is_mimetype_entry(#[trigger] es[i]) ==> {
            &&& exists|k: int|
                1 <= k < ws.len() && derives_from(#[trigger] ws[k], es[i], outcomes[i], quality)
            &&& names_distinct(es) ==> forall|k: int|
                1 <= k < ws.len() && (#[trigger] ws[k]).0 == entry_name(es[i]) ==> derives_from(
                    ws[k],
                    es[i],
                    outcomes[i],
                    quality,
                )
        }
}

/// What each of the first `n` source entries (other than `mimetype`)
/// becomes stands among the first `n` entries' plan.
proof fn lemma_plan_prefix_carries(
    es: Seq<EntryModel>,
    quality: Quality,
    outcomes: Seq<Option<Seq<u8>>>,
    n: int,
)
    requires
        outcomes_valid(es, quality, outcomes),
        0 <= n <= es.len(),
    ensures
        forall|i: int|
            0 <= i < n && !is_mimetype_entry(#[trigger] es[i]) ==> exists|k: int|
                0 <= k < plan_prefix(es, outcomes, n).len() && derives_from(
                    #[trigger] plan_prefix(es, outcomes, n)[k],
                    es[i],
                    outcomes[i],
                    quality,
                ),
    decreases n,
{
    if n > 0 {
        lemma_plan_prefix_carries(es, quality, outcomes, n - 1);
        let prev = plan_prefix(es, outcomes, n - 1);
        let e = es[n - 1];
        let o = outcomes[n - 1];
        assert(outcome_valid(e, quality, o));
        let cur = plan_prefix(es, outcomes, n);
        assert(cur == prev + planned_entries(e, o));
        assert forall|i: int| 0 <= i < n && !is_mimetype_entry(#[trigger] es[i]) implies exists|k: int|
            0 <= k < cur.len() && derives_from(#[trigger] cur[k], es[i], outcomes[i], quality) by {
            if i < n - 1 {
                let k = choose|k: int|
                    0 <= k < prev.len() && derives_from(#[trigger] prev[k], es[i], outcomes[i], quality);
                assert(cur[k] == prev[k]);
            } else {
                let k = prev.len() as int;
                assert(cur[k] == planned_entries(e, o)[0]);
                assert(derives_from(cur[k], es[i], outcomes[i], quality));
            }
        }
    }
}

/// Every source entry other than `mimetype` is carried into the shrunk EPUB:
/// as a raw copy, or (an image) as a strictly smaller possible recompression
/// of its data; and when the source names are distinct (as those of an
/// opened container are), every output entry of its name is that one.
pub proof fn lemma_every_entry_carried(
    es: Seq<EntryModel>,
    quality: Quality,
    outcomes: Seq<Option<Seq<u8>>>,
)
    requires
        outcomes_valid(es, quality, outcomes),
    ensures
        carries_every_entry(shrunk_entries(es, outcomes), es, outcomes, quality),
{
    let n = es.len() as int;
    lemma_plan_prefix_carries(es, quality, outcomes, n);
    lemma_shrunk_shape(es, quality, outcomes);
    let plan = plan_prefix(es, outcomes, n);
    let all = shrunk_entries(es, outcomes);
    assert(all == seq![mimetype_written()] + plan);
    assert forall|i: int| 0 <= i < es.len() && !is_mimetype_entry(#[trigger] es[i]) implies {
        &&& exists|k: int|
            1 <= k < all.len() && derives_from(#[trigger] all[k], es[i], outcomes[i], quality)
        &&& names_distinct(es) ==> forall|k: int|
            1 <= k < all.len() && (#[trigger] all[k]).0 == entry_name(es[i]) ==> derives_from(
                all[k],
                es[i],
                outcomes[i],
                quality,
            )
    } by {
        let k = choose|k: int|
            0 <= k < plan.len() && derives_from(#[trigger] plan[k], es[i], outcomes[i], quality);
        assert(all[k + 1] == plan[k]);
        if names_distinct(es) {
            assert forall|k2: int| 1 <= k2 < all.len() && (#[trigger] all[k2]).0 == entry_name(es[i])
                implies derives_from(all[k2], es[i], outcomes[i], quality) by {
                let j = choose|j: int|
                    0 <= j < es.len() && derives_from(all[k2], es[j], outcomes[j], quality);
                if j < i {
                    assert(entry_name(es[j]) != entry_name(es[i]));
                } else if i < j {
                    assert(entry_name(es[i]) != entry_name(es[j]));
                }
            }
        }
    }
}

proof fn lemma_plan_prefix_facts(
    es: Seq<EntryModel>,
    quality: Quality,
    outcomes: Seq<Option<Seq<u8>>>,
    n: int,
)
    requires
        outcomes_valid(es, quality, outcomes),
        0 <= n <= es.len(),
    ensures
        plan_prefix(es, outcomes, n).map_values(|w: WrittenModel| w.0) == carried_names(es, n),
        forall|k: int|
            0 <= k < plan_prefix(es, outcomes, n).len() ==> exists|i: int|
                0 <= i < n && derives_from(
                    #[trigger] plan_prefix(es, outcomes, n)[k],
                    es[i],
                    outcomes[i],
                    quality,
                ),
        count_recompressed(es, outcomes, n) + count_kept(es, outcomes, n) == count_images(es, n),
    decreases n,
{
    if n > 0 {
        lemma_plan_prefix_facts(es, quality, outcomes, n - 1);
        let prev = plan_prefix(es, outcomes, n - 1);
        let e = es[n - 1];
        let o = outcomes[n - 1];
        assert(outcome_valid(e, quality, o));
        let cur = plan_prefix(es, outcomes, n);
        assert(cur == prev + planned_entries(e, o));
        assert(cur.map_values(|w: WrittenModel| w.0) =~= carried_names(es, n));
        assert forall|k: int| 0 <= k < cur.len() implies exists|i: int|
            0 <= i < n && derives_from(#[trigger] cur[k], es[i], outcomes[i], quality) by {
            if k < prev.len() {
                assert(cur[k] == prev[k]);
                let i = choose|i: int| 0 <= i < n - 1 && derives_from(prev[k], es[i], outcomes[i], quality);
                assert(derives_from(cur[k], es[i], outcomes[i], quality));
            } else {
                assert(cur[k] == planned_entries(e, o)[0]);
                assert(derives_from(cur[k], es[n - 1], outcomes[n - 1], quality));
            }
        }
    }
}

/// The shape of every shrunk EPUB: the canonical `mimetype` entry (stored,
/// holding `application/epub+zip`) comes first and is the only entry of that
/// name; after it come the other source entries, all of them, in their
/// order, under their names; each is a raw copy of its source entry, except
/// images replaced by a possible recompression of their data that is
/// strictly smaller; and every image is counted either as recompressed or
/// as kept.
pub proof fn lemma_shrunk_shape(es: Seq<EntryModel>, quality: Quality, outcomes: Seq<Option<Seq<u8>>>)
    requires
        outcomes_valid(es, quality, outcomes),
    ensures
        shrunk_entries(es, outcomes)[0] == mimetype_written(),
        shrunk_entries(es, outcomes).map_values(|w: WrittenModel| w.0) == seq![mimetype_name()]
            + carried_names(es, es.len() as int),
        forall|k: int|
            1 <= k < shrunk_entries(es, outcomes).len() ==> exists|i: int|
                0 <= i < es.len() && derives_from(
                    #[trigger] shrunk_entries(es, outcomes)[k],
                    es[i],
                    outcomes[i],
                    quality,
                ),
        forall|k: int|
            1 <= k < shrunk_entries(es, outcomes).len() ==> #[trigger] shrunk_entries(
                es,
                outcomes,
            )[k].0 != mimetype_name(),
        count_recompressed(es, outcomes, es.len() as int) + count_kept(
            es,
            outcomes,
            es.len() as int,
        ) == count_images(es, es.len() as int),
{
    let n = es.len() as int;
    lemma_plan_prefix_facts(es, quality, outcomes, n);
    let plan = plan_prefix(es, outcomes, n);
    let all = shrunk_entries(es, outcomes);
    assert(all == seq![mimetype_written()] + plan);
    assert(all.map_values(|w: WrittenModel| w.0) =~= seq![mimetype_name()] + plan.map_values(
        |w: WrittenModel| w.0,
    ));
    assert forall|k: int| 1 <= k < all.len() implies exists|i: int|
        0 <= i < es.len() && derives_from(#[trigger] all[k], es[i], outcomes[i], quality) by {
        assert(all[k] == plan[k - 1]);
    }
    assert forall|k: int| 1 <= k < all.len() implies #[trigger] all[k].0 != mimetype_name() by {
        assert(all[k] == plan[k - 1]);
        let i = choose|i: int| 0 <= i < n && derives_from(plan[k - 1], es[i], outcomes[i], quality);
    }
}

} // verus!

verus! {

/// Every image of the source is counted once: as recompressed or as kept.
pub proof fn lemma_shrink_counts(s: Shrunk, es: Seq<EntryModel>, quality: Quality)
    requires
        is_shrink_of(s, es, quality),
    ensures
        s.images_recompressed + s.images_kept == count_images(es, es.len() as int),
        s.entries_total == es.len(),
{
    let outcomes = choose|outcomes: Seq<Option<Seq<u8>>>|
        #![trigger shrunk_entries(es, outcomes)]
        {
            &&& outcomes_valid(es, quality, outcomes)
            &&& s.bytes@ == zip_file_bytes(shrunk_entries(es, outcomes))
            &&& s.images_recompressed == count_recompressed(es, outcomes, es.len() as int)
            &&& s.images_kept == count_kept(es, outcomes, es.len() as int)
            &&& s.entries_total == es.len()
            &&& carries_every_entry(shrunk_entries(es, outcomes), es, outcomes, quality)
        };
    lemma_shrunk_shape(es, quality, outcomes);
}

} // verus!
