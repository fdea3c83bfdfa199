//! Source archives: what they hold at the top level, and their checksum.
use vstd::prelude::*;
use vstd::slice::{slice_subrange, slice_to_vec};
use vstd::utf8::*;

use crate::text;

verus! {

/// An entry of a source archive: whether it only describes other entries,
/// where it is unpacked to, where its header stands in the archive, and the
/// size that it claims.
#[derive(Debug)]
pub struct ArchiveEntry {
    pub pax_global: bool,
    pub pax_local: bool,
    pub gnu_long_name: bool,
    pub gnu_long_link: bool,
    pub path: Vec<u8>,
    pub position: u64,
    pub size: u64,
}

/// The entries of an archive up to its end, or up to the first that cannot be
/// read.
#[derive(Debug)]
pub struct ArchiveListing {
    pub entries: Vec<ArchiveEntry>,
    pub failure: Option<std::io::Error>,
}

/// What a gzip stream holds, up to its end or up to where it breaks off.
#[derive(Debug)]
pub struct Gunzipped {
    pub content: Vec<u8>,
    pub failure: Option<std::io::Error>,
}

/// Why an archive has no single top-level directory.
#[derive(Debug)]
pub enum ArchiveError {
    /// A sparse entry claims a size that positions in an archive cannot reach.
    OversizedEntry,
    Unreadable(std::io::Error),
    UnreadableEntry(std::io::Error),
    EmptyPath,
    /// The path of an entry does not start with a name.
    UnsafePath(Vec<u8>),
    NotUtf8,
    MultipleTopLevel(String, String),
    Empty,
}

/// The mathematical content of an [`ArchiveEntry`].
pub struct EntryView {
    pub pax_global: bool,
    pub pax_local: bool,
    pub gnu_long_name: bool,
    pub gnu_long_link: bool,
    pub path: Seq<u8>,
    pub position: u64,
    pub size: u64,
}

impl EntryView {
    /// Whether this entry only describes other entries.
    pub open spec fn describes(self) -> bool {
        self.pax_global || self.pax_local || self.gnu_long_name || self.gnu_long_link
    }
}

/// The mathematical content of an [`ArchiveListing`].
pub struct ListingView {
    pub entries: Seq<EntryView>,
    pub failure: Option<std::io::Error>,
}

/// The mathematical content of a [`Gunzipped`].
pub struct GunzippedView {
    pub content: Seq<u8>,
    pub failure: Option<std::io::Error>,
}

/// The mathematical content of an [`ArchiveError`].
pub enum ArchiveErrorView {
    OversizedEntry,
    Unreadable(std::io::Error),
    UnreadableEntry(std::io::Error),
    EmptyPath,
    UnsafePath(Seq<u8>),
    NotUtf8,
    MultipleTopLevel(Seq<char>, Seq<char>),
    Empty,
}

impl View for ArchiveEntry {
    type V = EntryView;

    open spec fn view(&self) -> EntryView {
        EntryView {
            pax_global: self.pax_global,
            pax_local: self.pax_local,
            gnu_long_name: self.gnu_long_name,
            gnu_long_link: self.gnu_long_link,
            path: self.path@,
            position: self.position,
            size: self.size,
        }
    }
}

/// The entries of a list.
pub open spec fn entry_views(list: Seq<ArchiveEntry>) -> Seq<EntryView> {
    list.map_values(|e: ArchiveEntry| e@)
}

impl View for ArchiveListing {
    type V = ListingView;

    open spec fn view(&self) -> ListingView {
        ListingView {
            entries: entry_views(self.entries@),
            failure: self.failure,
        }
    }
}

impl View for Gunzipped {
    type V = GunzippedView;

    open spec fn view(&self) -> GunzippedView {
        GunzippedView { content: self.content@, failure: self.failure }
    }
}

impl View for ArchiveError {
    type V = ArchiveErrorView;

    open spec fn view(&self) -> ArchiveErrorView {
        match self {
            ArchiveError::OversizedEntry => ArchiveErrorView::OversizedEntry,
            ArchiveError::Unreadable(e) => ArchiveErrorView::Unreadable(*e),
            ArchiveError::UnreadableEntry(e) => ArchiveErrorView::UnreadableEntry(*e),
            ArchiveError::EmptyPath => ArchiveErrorView::EmptyPath,
            ArchiveError::UnsafePath(path) => ArchiveErrorView::UnsafePath(path@),
            ArchiveError::NotUtf8 => ArchiveErrorView::NotUtf8,
            ArchiveError::MultipleTopLevel(a, b) => ArchiveErrorView::MultipleTopLevel(a@, b@),
            ArchiveError::Empty => ArchiveErrorView::Empty,
        }
    }
}

/// The first component of a slash-separated path: the name of the entry below
/// the current directory, unless the path is empty, starts at the root or at
/// the current or parent directory, or the name is not UTF-8.
pub open spec fn first_component(path: Seq<u8>) -> Result<Seq<char>, ArchiveErrorView> {
    let first = path.take(text::first_index(path, 47u8));
    if path.len() == 0 {
        Err(ArchiveErrorView::EmptyPath)
    } else if first.len() == 0 || first == seq![46u8] || first == seq![46u8, 46u8] {
        Err(ArchiveErrorView::UnsafePath(path))
    } else if !valid_utf8(first) {
        Err(ArchiveErrorView::NotUtf8)
    } else {
        Ok(decode_utf8(first))
    }
}

/// The top-level name that all entries share, if there is any entry that is
/// no mere description; else what the first entry that breaks this is.
pub open spec fn shared_top_level(entries: Seq<EntryView>) -> Result<
    Option<Seq<char>>,
    ArchiveErrorView,
>
    decreases entries.len(),
{
    if entries.len() == 0 {
        Ok(None)
    } else {
        match shared_top_level(entries.drop_last()) {
            Err(e) => Err(e),
            Ok(shared) => if entries.last().describes() {
                Ok(shared)
            } else {
                match (first_component(entries.last().path), shared) {
                    (Err(e), _) => Err(e),
                    (Ok(name), None) => Ok(Some(name)),
                    (Ok(name), Some(earlier)) => if earlier == name {
                        Ok(shared)
                    } else {
                        Err(ArchiveErrorView::MultipleTopLevel(earlier, name))
                    },
                }
            },
        }
    }
}

/// The single top-level directory of an archive.
pub open spec fn top_level(listing: ListingView) -> Result<Seq<char>, ArchiveErrorView> {
    match shared_top_level(listing.entries) {
        Err(e) => Err(e),
        Ok(shared) => match listing.failure {
            Some(e) => Err(ArchiveErrorView::UnreadableEntry(e)),
            None => match shared {
                Some(name) => Ok(name),
                None => Err(ArchiveErrorView::Empty),
            },
        },
    }
}

/// An entry that breaks the common top level stays the reported one whatever
/// entries follow.
proof fn lemma_fault_stays(entries: Seq<EntryView>, n: int)
    requires
        0 <= n <= entries.len(),
        shared_top_level(entries.take(n)) is Err,
    ensures
        shared_top_level(entries) == shared_top_level(entries.take(n)),
    decreases entries.len() - n,
{
    if n == entries.len() {
        assert(entries.take(n) =~= entries);
    } else {
        assert(entries.take(n + 1).drop_last() =~= entries.take(n));
        lemma_fault_stays(entries, n + 1);
    }
}

/// An archive has the top-level directory `name` exactly when it was read to
/// its end, has an entry that is no mere description, and every such entry
/// lies below `name`.
pub proof fn law_top_level(listing: ListingView, name: Seq<char>)
    ensures
        top_level(listing) == Ok::<_, ArchiveErrorView>(name) <==> {
            &&& listing.failure is None
            &&& exists|i: int|
                0 <= i < listing.entries.len() && !(#[trigger] listing.entries[i]).describes()
            &&& forall|i: int|
                0 <= i < listing.entries.len() && !(#[trigger] listing.entries[i]).describes()
                    ==> first_component(listing.entries[i].path) == Ok::<_, ArchiveErrorView>(name)
        },
{
    lemma_shared(listing.entries, name);
}

/// Neither the order of the entries matters nor how often a path occurs:
/// archives that were read to their end and have the same paths, descriptions
/// aside, have the same top-level directory or both none.
pub proof fn law_entry_order_does_not_matter(
    one: ListingView,
    other: ListingView,
    name: Seq<char>,
)
    requires
        one.failure is None,
        other.failure is None,
        paths_of(one) == paths_of(other),
    ensures
        top_level(one) == Ok::<_, ArchiveErrorView>(name) <==> top_level(other) == Ok::<
            _,
            ArchiveErrorView,
        >(name),
{
    if top_level(one) == Ok::<_, ArchiveErrorView>(name) {
        lemma_same_paths(one, other, name);
    }
    if top_level(other) == Ok::<_, ArchiveErrorView>(name) {
        lemma_same_paths(other, one, name);
    }
}

/// The paths of the entries that are no mere descriptions.
pub open spec fn paths_of(listing: ListingView) -> Set<Seq<u8>> {
    Set::new(
        |path: Seq<u8>|
            exists|i: int|
                0 <= i < listing.entries.len() && !(#[trigger] listing.entries[i]).describes()
                    && listing.entries[i].path == path,
    )
}

/// One direction of [`law_entry_order_does_not_matter`].
proof fn lemma_same_paths(one: ListingView, other: ListingView, name: Seq<char>)
    requires
        other.failure is None,
        paths_of(one) == paths_of(other),
        top_level(one) == Ok::<_, ArchiveErrorView>(name),
    ensures
        top_level(other) == Ok::<_, ArchiveErrorView>(name),
{
    law_top_level(one, name);
    law_top_level(other, name);
    let i = choose|i: int|
        0 <= i < one.entries.len() && !(#[trigger] one.entries[i]).describes();
    assert(paths_of(one).contains(one.entries[i].path));
    assert(paths_of(other).contains(one.entries[i].path));
    assert forall|j: int|
        0 <= j < other.entries.len() && !(#[trigger] other.entries[j]).describes() implies
        first_component(other.entries[j].path) == Ok::<_, ArchiveErrorView>(name) by {
        assert(paths_of(other).contains(other.entries[j].path));
        assert(paths_of(one).contains(other.entries[j].path));
    }
}

/// What [`law_top_level`] says of the entries.
proof fn lemma_shared(entries: Seq<EntryView>, name: Seq<char>)
    ensures
        shared_top_level(entries) == Ok::<_, ArchiveErrorView>(Some(name)) <==> {
            &&& exists|i: int| 0 <= i < entries.len() && !(#[trigger] entries[i]).describes()
            &&& forall|i: int|
                0 <= i < entries.len() && !(#[trigger] entries[i]).describes() ==> first_component(
                    entries[i].path,
                ) == Ok::<_, ArchiveErrorView>(name)
        },
        shared_top_level(entries) == Ok::<_, ArchiveErrorView>(None::<Seq<char>>) <==> forall|
            i: int,
        | 0 <= i < entries.len() ==> (#[trigger] entries[i]).describes(),
    decreases entries.len(),
{
    if entries.len() > 0 {
        let front = entries.drop_last();
        let last = entries.len() - 1;
        lemma_shared(front, name);
        assert(forall|i: int| 0 <= i < front.len() ==> front[i] == #[trigger] entries[i]);
        if exists|i: int| 0 <= i < front.len() && !(#[trigger] front[i]).describes() {
            let i = choose|i: int| 0 <= i < front.len() && !(#[trigger] front[i]).describes();
            assert(!entries[i].describes());
        }
        assert(entries[last] == entries.last());
        if !entries[last].describes() {
            assert(exists|i: int| 0 <= i < entries.len() && !(#[trigger] entries[i]).describes());
        }
        assert forall|i: int| 0 <= i < front.len() implies #[trigger] front[i] == entries[i] by {}
    }
}

/// A read error as std reports it.
#[verifier::external_type_specification]
#[verifier::external_body]
pub struct ExIoError(std::io::Error);

/// A decoding error as std reports it.
#[verifier::external_type_specification]
#[verifier::external_body]
pub struct ExUtf8Error(core::str::Utf8Error);

/// `core::str::from_utf8` accepts UTF-8 and nothing else, and hands it back as
/// text.
pub assume_specification[ core::str::from_utf8 ](v: &[u8]) -> (r: Result<
    &str,
    core::str::Utf8Error,
>)
    ensures
        match r {
            Ok(s) => valid_utf8(v@) && encode_utf8(s@) == v@,
            Err(_) => !valid_utf8(v@),
        },
;

/// What `flate2::read::GzDecoder` makes of a gzip stream, read byte by byte.
pub uninterp spec fn gunzipped(bytes: Seq<u8>) -> GunzippedView;

/// Reads a gzip stream through `flate2::read::GzDecoder`, byte by byte, up to
/// its end or the first failure. What comes out, and which failure ends it,
/// depends on the bytes alone.
#[verifier::external_body]
fn gunzip(bytes: &[u8]) -> (r: Gunzipped)
    ensures
        r@ == gunzipped(bytes@),
{
    let decoder = flate2::read::GzDecoder::new(std::io::Cursor::new(bytes));
    let mut read = Gunzipped { content: Vec::new(), failure: None };
    for byte in std::io::Read::bytes(decoder) {
        match byte {
            Ok(b) => read.content.push(b),
            Err(e) => {
                read.failure = Some(e);
                break;
            },
        }
    }
    read
}

/// The bytes that mark a header of GNU tar.
pub open spec fn gnu_magic() -> Seq<u8> {
    seq![117u8, 115u8, 116u8, 97u8, 114u8, 32u8, 32u8, 0u8]
}

/// Whether the block at `at` looks like the header of a GNU sparse entry that
/// further sparse headers follow. It need not be a header: it may lie in the
/// data of a file.
pub open spec fn is_sparse_block(content: Seq<u8>, at: int) -> bool {
    &&& 0 <= at
    &&& at % 512 == 0
    &&& at + 512 <= content.len()
    &&& content[at + 156] == 83
    &&& content[at + 482] == 1
    &&& content.subrange(at + 257, at + 265) == gnu_magic()
}

/// `content` with each block from `from` on that looks like such a header made
/// into one that, as a header, is that of a plain file. Two bytes change, and
/// their sum stays, so that a checksum holds as before.
pub open spec fn disarmed(content: Seq<u8>, from: int) -> Seq<u8> {
    Seq::new(
        content.len(),
        |i: int|
            if i - i % 512 >= from && is_sparse_block(content, i - i % 512) {
                if i % 512 == 156 {
                    48
                } else if i % 512 == 482 {
                    36
                } else {
                    content[i]
                }
            } else {
                content[i]
            },
    )
}

/// Whether an entry's header stands at `at` and it claims a size with which
/// positions in an archive of `len` bytes can leave 64 bits.
pub open spec fn is_oversized(entry: EntryView, at: int, len: nat) -> bool {
    entry.position == at && entry.size + 511 + len > u64::MAX
}

/// What `tar::Archive` lists of an archive, or why it cannot be listed at all.
pub uninterp spec fn tar_listing(content: Seq<u8>) -> Result<ListingView, std::io::Error>;

/// Whether the block at `at` is no header of an oversized sparse entry. To see
/// whether it is a header at all, and which size it has as one, the archive is
/// listed with this block, and those behind it, disarmed.
pub open spec fn is_harmless(content: Seq<u8>, at: int) -> bool {
    tar_listing(disarmed(content, at)) matches Ok(listing) ==> forall|i: int|
        0 <= i < listing.entries.len() ==> !is_oversized(
            #[trigger] listing.entries[i],
            at,
            content.len(),
        )
}

/// Whether no sparse entry of an archive is oversized.
pub open spec fn is_tame(content: Seq<u8>) -> bool {
    forall|at: int| #[trigger] is_sparse_block(content, at) ==> is_harmless(content, at)
}

/// Whether the first oversized sparse entry has its header at `at`, and is the
/// entry at `k` in the listing that shows it.
pub open spec fn is_cut(content: Seq<u8>, at: int, k: int) -> bool {
    &&& is_sparse_block(content, at)
    &&& forall|b: int| b < at && #[trigger] is_sparse_block(content, b) ==> is_harmless(content, b)
    &&& tar_listing(disarmed(content, at)) matches Ok(listing)
    &&& 0 <= k < listing.entries.len()
    &&& is_oversized(listing.entries[k], at, content.len())
    &&& forall|i: int|
        0 <= i < k ==> !is_oversized(#[trigger] listing.entries[i], at, content.len())
}

/// What is listed of a stream. An archive may end behind any whole block, so
/// where a stream broke off there, a single byte is added: the listing then
/// ends at the archive's own end mark, or fails.
pub open spec fn listed_content(read: GunzippedView) -> Seq<u8> {
    if read.failure is Some && read.content.len() % 512 == 0 {
        read.content.push(0)
    } else {
        read.content
    }
}

/// A listing whose failure is put down to the stream, if that failed too.
pub open spec fn blamed(listing: ListingView, failure: Option<std::io::Error>) -> ListingView {
    ListingView {
        entries: listing.entries,
        failure: if listing.failure is Some && failure is Some {
            failure
        } else {
            listing.failure
        },
    }
}

/// The single top-level directory of an archive. An oversized entry is refused
/// where the entries before it are not.
pub open spec fn content_top_level(
    content: Seq<u8>,
    failure: Option<std::io::Error>,
) -> Result<Seq<char>, ArchiveErrorView> {
    if is_tame(content) {
        match tar_listing(content) {
            Err(e) => Err(ArchiveErrorView::Unreadable(e)),
            Ok(listing) => top_level(blamed(listing, failure)),
        }
    } else {
        let (at, k) = choose|at: int, k: int| is_cut(content, at, k);
        match shared_top_level(tar_listing(disarmed(content, at))->Ok_0.entries.take(k)) {
            Err(e) => Err(e),
            Ok(_) => Err(ArchiveErrorView::OversizedEntry),
        }
    }
}

/// The single top-level directory of a gzip-compressed archive.
pub open spec fn archive_top_level(bytes: Seq<u8>) -> Result<Seq<char>, ArchiveErrorView> {
    content_top_level(listed_content(gunzipped(bytes)), gunzipped(bytes).failure)
}

/// An archive in which no sparse entry claims to be larger than the whole
/// archive is judged by its listing alone, whatever its files hold.
pub proof fn law_sound_archive_is_tame(content: Seq<u8>)
    requires
        content.len() < 0x7fff_ffff_ffff_ff00,
        forall|at: int, i: int|
            #![trigger is_sparse_block(content, at), tar_listing(
                disarmed(content, at),
            )->Ok_0.entries[i]]
            is_sparse_block(content, at) && tar_listing(disarmed(content, at)) is Ok && 0 <= i
                < tar_listing(disarmed(content, at))->Ok_0.entries.len() && tar_listing(
                disarmed(content, at),
            )->Ok_0.entries[i].position == at ==> tar_listing(
                disarmed(content, at),
            )->Ok_0.entries[i].size <= content.len(),
    ensures
        is_tame(content),
{
    assert forall|at: int| #[trigger] is_sparse_block(content, at) implies is_harmless(
        content,
        at,
    ) by {
        if let Ok(listing) = tar_listing(disarmed(content, at)) {
            assert forall|i: int| 0 <= i < listing.entries.len() implies !is_oversized(
                #[trigger] listing.entries[i],
                at,
                content.len(),
            ) by {
                let entry = tar_listing(disarmed(content, at))->Ok_0.entries[i];
            }
        }
    }
}

/// A sound gzip stream with a sound archive has the top-level directory `name`
/// exactly if it has an entry that is no mere description and every such entry
/// lies below `name`.
pub proof fn law_archive_top_level(bytes: Seq<u8>, listing: ListingView, name: Seq<char>)
    requires
        gunzipped(bytes).failure is None,
        is_tame(gunzipped(bytes).content),
        tar_listing(gunzipped(bytes).content) == Ok::<_, std::io::Error>(listing),
        listing.failure is None,
    ensures
        archive_top_level(bytes) == Ok::<_, ArchiveErrorView>(name) <==> {
            &&& exists|i: int|
                0 <= i < listing.entries.len() && !(#[trigger] listing.entries[i]).describes()
            &&& forall|i: int|
                0 <= i < listing.entries.len() && !(#[trigger] listing.entries[i]).describes()
                    ==> first_component(listing.entries[i].path) == Ok::<_, ArchiveErrorView>(name)
        },
{
    assert(blamed(listing, None) == listing);
    law_top_level(listing, name);
}

/// Sound archives with the same paths, in any order and with any contents, have
/// the same top-level directory or both none.
pub proof fn law_archive_depends_on_paths(
    one: Seq<u8>,
    one_listing: ListingView,
    other: Seq<u8>,
    other_listing: ListingView,
    name: Seq<char>,
)
    requires
        gunzipped(one).failure is None,
        is_tame(gunzipped(one).content),
        tar_listing(gunzipped(one).content) == Ok::<_, std::io::Error>(one_listing),
        one_listing.failure is None,
        gunzipped(other).failure is None,
        is_tame(gunzipped(other).content),
        tar_listing(gunzipped(other).content) == Ok::<_, std::io::Error>(other_listing),
        other_listing.failure is None,
        paths_of(one_listing) == paths_of(other_listing),
    ensures
        archive_top_level(one) == Ok::<_, ArchiveErrorView>(name) <==> archive_top_level(other)
            == Ok::<_, ArchiveErrorView>(name),
{
    assert(blamed(one_listing, None) == one_listing);
    assert(blamed(other_listing, None) == other_listing);
    law_entry_order_does_not_matter(one_listing, other_listing, name);
}

/// Lists an archive with `tar::Archive::entries`: for each entry what
/// `tar::EntryType` says of its kind, the bytes of its path, the position of
/// its header and the size it has in the archive, up to the first entry that
/// cannot be read. The listing depends on the bytes alone. `tar` counts
/// positions in 64 bits and steps over the further headers of a sparse entry
/// without a check; that no such entry is oversized keeps it in range.
#[verifier::external_body]
fn list_archive(content: &[u8]) -> (r: Result<ArchiveListing, std::io::Error>)
    requires
        is_tame(content@),
    ensures
        match r {
            Ok(listing) => tar_listing(content@) == Ok::<_, std::io::Error>(listing@),
            Err(e) => tar_listing(content@) == Err::<ListingView, _>(e),
        },
{
    let mut archive = tar::Archive::new(std::io::Cursor::new(content));
    let mut listing = ArchiveListing { entries: Vec::new(), failure: None };
    for entry in archive.entries()? {
        match entry {
            Ok(e) => listing.entries.push(ArchiveEntry {
                pax_global: e.header().entry_type().is_pax_global_extensions(),
                pax_local: e.header().entry_type().is_pax_local_extensions(),
                gnu_long_name: e.header().entry_type().is_gnu_longname(),
                gnu_long_link: e.header().entry_type().is_gnu_longlink(),
                path: e.path_bytes().into_owned(), position: e.raw_header_position(), size: e.size(),
            }),
            Err(e) => listing.failure = Some(e),
        }
    }
    Ok(listing)
}

/// Whether the block at `at` looks like the header of a GNU sparse entry that
/// further sparse headers follow.
fn check_sparse_block(content: &Vec<u8>, at: usize) -> (r: bool)
    requires
        at % 512 == 0,
        at + 512 <= content@.len(),
    ensures
        r == is_sparse_block(content@, at as int),
{
    let magic: [u8; 8] = [117, 115, 116, 97, 114, 32, 32, 0];
    assert(magic@ =~= gnu_magic());
    let start: usize = at + 257;
    let mut i: usize = 0;
    while i < 8
        invariant
            i <= 8,
            start == at + 257,
            at + 512 <= content@.len(),
            start + 8 <= usize::MAX,
            magic@ == gnu_magic(),
            forall|j: int| 0 <= j < i ==> content@[start + j] == magic@[j],
        decreases 8 - i,
    {
        if content[start + i] != magic[i] {
            assert(content@.subrange(start as int, start + 8)[i as int] != magic@[i as int]);
            return false;
        }
        i += 1;
    }
    assert(content@.subrange(start as int, start + 8) =~= magic@);
    content[at + 156] == 83 && content[at + 482] == 1
}

/// The blocks that look like the header of a GNU sparse entry that further
/// sparse headers follow, in order.
fn sparse_blocks(content: &Vec<u8>) -> (r: Vec<usize>)
    ensures
        forall|k: int| 0 <= k < r@.len() ==> is_sparse_block(content@, #[trigger] r@[k] as int),
        forall|j: int, k: int| 0 <= j < k < r@.len() ==> r@[j] < r@[k],
        forall|at: int| #[trigger]
            is_sparse_block(content@, at) ==> exists|k: int|
                0 <= k < r@.len() && #[trigger] r@[k] == at,
{
    let mut found: Vec<usize> = Vec::new();
    let mut at: usize = 0;
    while content.len() - at >= 512
        invariant
            at <= content@.len(),
            at % 512 == 0,
            forall|k: int|
                0 <= k < found@.len() ==> (#[trigger] found@[k]) < at && is_sparse_block(
                    content@,
                    found@[k] as int,
                ),
            forall|j: int, k: int| 0 <= j < k < found@.len() ==> found@[j] < found@[k],
            forall|b: int|
                b < at && #[trigger] is_sparse_block(content@, b) ==> exists|k: int|
                    0 <= k < found@.len() && #[trigger] found@[k] == b,
        decreases content.len() - at,
    {
        let ghost before = found@;
        if check_sparse_block(content, at) {
            found.push(at);
        }
        assert forall|b: int|
            b < at + 512 && #[trigger] is_sparse_block(content@, b) implies exists|k: int|
            0 <= k < found@.len() && #[trigger] found@[k] == b by {
            if b < at {
                let k = choose|k: int| 0 <= k < before.len() && #[trigger] before[k] == b;
                assert(found@[k] == b);
            } else {
                assert(b == at);
                assert(found@[before.len() as int] == b);
            }
        }
        at += 512;
    }
    assert forall|b: int| #[trigger] is_sparse_block(content@, b) implies b < at by {}
    found
}

/// The blocks of disarmed content that still look like sparse headers are
/// those in front.
proof fn lemma_disarmed_blocks(content: Seq<u8>, from: int, at: int)
    ensures
        is_sparse_block(disarmed(content, from), at) <==> is_sparse_block(content, at) && at < from,
{
    let calm = disarmed(content, from);
    if 0 <= at && at % 512 == 0 && at + 512 <= content.len() {
        assert((at + 156) % 512 == 156 && (at + 482) % 512 == 482);
        assert(calm[at + 156] == if at >= from && is_sparse_block(content, at) {
            48
        } else {
            content[at + 156]
        });
        assert(calm[at + 482] == if at >= from && is_sparse_block(content, at) {
            36
        } else {
            content[at + 482]
        });
        assert forall|i: int| at + 257 <= i < at + 265 implies calm[i] == content[i] by {
            assert(i % 512 == i - at);
        }
        assert(calm.subrange(at + 257, at + 265) =~= content.subrange(at + 257, at + 265));
    }
}

/// Disarming from further in front makes up for disarming before.
proof fn lemma_disarmed_twice(content: Seq<u8>, from: int, at: int)
    requires
        at <= from,
    ensures
        disarmed(disarmed(content, from), at) == disarmed(content, at),
{
    let calm = disarmed(content, from);
    assert forall|i: int| 0 <= i < content.len() implies disarmed(calm, at)[i] == disarmed(
        content,
        at,
    )[i] by {
        lemma_disarmed_blocks(content, from, i - i % 512);
    }
    assert(disarmed(calm, at) =~= disarmed(content, at));
}

/// Content in which the blocks in front are harmless, and those behind are
/// disarmed, is tame.
proof fn lemma_disarmed_is_tame(content: Seq<u8>, from: int)
    requires
        forall|b: int|
            b < from && #[trigger] is_sparse_block(content, b) ==> is_harmless(content, b),
    ensures
        is_tame(disarmed(content, from)),
{
    let calm = disarmed(content, from);
    assert forall|at: int| #[trigger] is_sparse_block(calm, at) implies is_harmless(calm, at) by {
        lemma_disarmed_blocks(content, from, at);
        assert(is_harmless(content, at));
        lemma_disarmed_twice(content, from, at);
    }
}

/// Content without blocks to disarm between two positions is disarmed alike
/// from both.
proof fn lemma_same_disarmed(content: Seq<u8>, from: int, at: int)
    requires
        from <= at,
        forall|b: int| from <= b < at ==> !is_sparse_block(content, b),
    ensures
        disarmed(content, from) == disarmed(content, at),
{
    assert(disarmed(content, from) =~= disarmed(content, at));
}

/// A disarmed block with its two bytes put back.
proof fn lemma_rearmed(content: Seq<u8>, at: int, armed: Seq<u8>)
    requires
        is_sparse_block(content, at),
        armed == disarmed(content, at).update(at + 156, 83).update(at + 482, 1),
    ensures
        armed == disarmed(content, at + 1),
{
    assert forall|i: int| 0 <= i < content.len() implies armed[i] == disarmed(
        content,
        at + 1,
    )[i] by {
        if i - i % 512 == at {
            assert(i == at + i % 512);
        }
    }
    assert(armed =~= disarmed(content, at + 1));
}

/// There is one first oversized entry at most, and none in tame content.
pub proof fn lemma_one_cut(content: Seq<u8>, at: int, k: int)
    requires
        is_cut(content, at, k),
    ensures
        !is_tame(content),
        forall|a: int, j: int| #[trigger] is_cut(content, a, j) ==> a == at && j == k,
{
    let listing = tar_listing(disarmed(content, at))->Ok_0;
    assert(is_oversized(listing.entries[k], at, content.len()));
    assert(!is_harmless(content, at));
    assert forall|a: int, j: int| #[trigger] is_cut(content, a, j) implies a == at && j == k by {
        let other = tar_listing(disarmed(content, a))->Ok_0;
        assert(is_oversized(other.entries[j], a, content.len()));
        assert(!is_harmless(content, a));
        assert(is_sparse_block(content, a) && is_sparse_block(content, at));
    }
}

/// `content` with all `blocks`, which are those that look like sparse headers,
/// disarmed.
fn disarm(content: &Vec<u8>, blocks: &Vec<usize>) -> (r: Vec<u8>)
    requires
        forall|k: int|
            0 <= k < blocks@.len() ==> is_sparse_block(content@, #[trigger] blocks@[k] as int),
        forall|at: int| #[trigger]
            is_sparse_block(content@, at) ==> exists|k: int|
                0 <= k < blocks@.len() && #[trigger] blocks@[k] == at,
    ensures
        r@ == disarmed(content@, 0),
{
    let mut calm = slice_to_vec(content.as_slice());
    assert(calm@ =~= content@);
    let mut k: usize = 0;
    while k < blocks.len()
        invariant
            k <= blocks.len(),
            calm@.len() == content@.len(),
            forall|k: int|
                0 <= k < blocks@.len() ==> is_sparse_block(content@, #[trigger] blocks@[k] as int),
            forall|i: int|
                0 <= i < content@.len() ==> #[trigger] calm@[i] == if exists|j: int|
                    0 <= j < k && #[trigger] blocks@[j] == i - i % 512 {
                    disarmed(content@, 0)[i]
                } else {
                    content@[i]
                },
        decreases blocks.len() - k,
    {
        let at = blocks[k];
        assert(is_sparse_block(content@, at as int));
        let ghost before = calm@;
        calm.set(at + 156, 48);
        calm.set(at + 482, 36);
        assert forall|i: int| 0 <= i < content@.len() implies #[trigger] calm@[i] == if exists|
            j: int,
        | 0 <= j < k + 1 && #[trigger] blocks@[j] == i - i % 512 {
            disarmed(content@, 0)[i]
        } else {
            content@[i]
        } by {
            assert(before[i] == if exists|j: int|
                0 <= j < k && #[trigger] blocks@[j] == i - i % 512 {
                disarmed(content@, 0)[i]
            } else {
                content@[i]
            });
            if i - i % 512 == at {
                assert(blocks@[k as int] == i - i % 512);
                assert(i == at + i % 512);
            } else if exists|j: int| 0 <= j < k + 1 && #[trigger] blocks@[j] == i - i % 512 {
                let j = choose|j: int| 0 <= j < k + 1 && #[trigger] blocks@[j] == i - i % 512;
                assert(j < k);
                assert(blocks@[j] == i - i % 512);
            }
        }
        k += 1;
    }
    assert forall|i: int| 0 <= i < content@.len() implies calm@[i] == disarmed(
        content@,
        0,
    )[i] by {
        if is_sparse_block(content@, i - i % 512) {
            let j = choose|j: int| 0 <= j < blocks@.len() && #[trigger] blocks@[j] == i - i % 512;
            assert(blocks@[j] == i - i % 512);
        }
    }
    assert(calm@ =~= disarmed(content@, 0));
    calm
}

/// The first entry of a listing that is oversized and has its header at `at`.
fn find_oversized(listing: &ArchiveListing, at: usize, len: usize) -> (r: Option<usize>)
    ensures
        match r {
            Some(k) => {
                &&& k < listing@.entries.len()
                &&& is_oversized(listing@.entries[k as int], at as int, len as nat)
                &&& forall|i: int|
                    0 <= i < k ==> !is_oversized(
                        #[trigger] listing@.entries[i],
                        at as int,
                        len as nat,
                    )
            },
            None => forall|i: int|
                0 <= i < listing@.entries.len() ==> !is_oversized(
                    #[trigger] listing@.entries[i],
                    at as int,
                    len as nat,
                ),
        },
{
    let mut k: usize = 0;
    while k < listing.entries.len()
        invariant
            k <= listing.entries.len(),
            forall|i: int|
                0 <= i < k ==> !is_oversized(
                    #[trigger] listing@.entries[i],
                    at as int,
                    len as nat,
                ),
        decreases listing.entries.len() - k,
    {
        let entry = &listing.entries[k];
        assert(listing@.entries[k as int] == entry@);
        if entry.position == at as u64 && entry.size as u128 + 511 + len as u128
            > 0xffff_ffff_ffff_ffffu128 {
            return Some(k);
        }
        k += 1;
    }
    None
}

/// The first component of an entry's path.
fn read_first_component(path: &Vec<u8>) -> (r: Result<String, ArchiveError>)
    ensures
        match r {
            Ok(name) => first_component(path@) == Ok::<_, ArchiveErrorView>(name@),
            Err(e) => first_component(path@) == Err::<Seq<char>, _>(e@),
        },
{
    if path.len() == 0 {
        return Err(ArchiveError::EmptyPath);
    }
    let mut end: usize = 0;
    while end < path.len() && path[end] != 47
        invariant
            end <= path.len(),
            forall|j: int| 0 <= j < end ==> path@[j] != 47,
        decreases path.len() - end,
    {
        end += 1;
    }
    proof {
        text::lemma_first_index(path@, 47u8, end as int);
    }
    let first = slice_subrange(path.as_slice(), 0, end);
    assert(first@ =~= path@.take(end as int));
    proof {
        if end == 1 && first@[0] == 46 {
            assert(first@ =~= seq![46u8]);
        }
        if end == 2 && first@[0] == 46 && first@[1] == 46 {
            assert(first@ =~= seq![46u8, 46u8]);
        }
    }
    if end == 0 || (end == 1 && first[0] == 46) || (end == 2 && first[0] == 46 && first[1] == 46) {
        let copy = slice_to_vec(path.as_slice());
        assert(copy@ =~= path@);
        return Err(ArchiveError::UnsafePath(copy));
    }
    match core::str::from_utf8(first) {
        Ok(name) => {
            proof {
                encode_utf8_decode_utf8(name@);
            }
            Ok(name.to_owned())
        },
        Err(_) => Err(ArchiveError::NotUtf8),
    }
}

/// The top-level name that the first `n` entries share.
fn shared_name(entries: &Vec<ArchiveEntry>, n: usize) -> (r: Result<Option<String>, ArchiveError>)
    requires
        n <= entries@.len(),
    ensures
        match r {
            Ok(Some(name)) => shared_top_level(entry_views(entries@).take(n as int)) == Ok::<
                _,
                ArchiveErrorView,
            >(Some(name@)),
            Ok(None) => shared_top_level(entry_views(entries@).take(n as int)) == Ok::<
                _,
                ArchiveErrorView,
            >(None::<Seq<char>>),
            Err(e) => shared_top_level(entry_views(entries@).take(n as int)) == Err::<
                Option<Seq<char>>,
                _,
            >(e@),
        },
{
    let ghost views = entry_views(entries@);
    let ghost all = views.take(n as int);
    let mut shared: Option<String> = None;
    let mut i: usize = 0;
    while i < n
        invariant
            i <= n <= entries@.len(),
            views == entry_views(entries@),
            all == views.take(n as int),
            match shared {
                Some(name) => shared_top_level(all.take(i as int)) == Ok::<_, ArchiveErrorView>(
                    Some(name@),
                ),
                None => shared_top_level(all.take(i as int)) == Ok::<_, ArchiveErrorView>(
                    None::<Seq<char>>,
                ),
            },
        decreases n - i,
    {
        let entry = &entries[i];
        assert(views[i as int] == entry@);
        assert(all[i as int] == entry@);
        assert(all.take(i + 1).drop_last() =~= all.take(i as int));
        if !(entry.pax_global || entry.pax_local || entry.gnu_long_name || entry.gnu_long_link) {
            let name = match read_first_component(&entry.path) {
                Ok(name) => name,
                Err(e) => {
                    proof {
                        lemma_fault_stays(all, i + 1);
                    }
                    return Err(e);
                },
            };
            match shared {
                Some(earlier) => {
                    if !text::same_text(earlier.as_str(), name.as_str()) {
                        proof {
                            lemma_fault_stays(all, i + 1);
                        }
                        return Err(ArchiveError::MultipleTopLevel(earlier, name));
                    }
                    shared = Some(earlier);
                },
                None => {
                    shared = Some(name);
                },
            }
        }
        i += 1;
    }
    assert(all.take(i as int) =~= all);
    Ok(shared)
}

/// The single top-level directory of a listed archive.
pub fn top_level_directory(listing: ArchiveListing) -> (r: Result<String, ArchiveError>)
    ensures
        match r {
            Ok(name) => top_level(listing@) == Ok::<_, ArchiveErrorView>(name@),
            Err(e) => top_level(listing@) == Err::<Seq<char>, _>(e@),
        },
{
    let n = listing.entries.len();
    assert(entry_views(listing.entries@).take(n as int) =~= listing@.entries);
    let shared = match shared_name(&listing.entries, n) {
        Ok(shared) => shared,
        Err(e) => {
            return Err(e);
        },
    };
    match listing.failure {
        Some(e) => Err(ArchiveError::UnreadableEntry(e)),
        None => match shared {
            Some(name) => Ok(name),
            None => Err(ArchiveError::Empty),
        },
    }
}

/// The single top-level directory of an archive that was read up to its end or
/// up to `failure`.
pub fn content_top_level_directory(content: &Vec<u8>, failure: Option<std::io::Error>) -> (r:
    Result<String, ArchiveError>)
    ensures
        match r {
            Ok(name) => content_top_level(content@, failure) == Ok::<_, ArchiveErrorView>(name@),
            Err(e) => content_top_level(content@, failure) == Err::<Seq<char>, _>(e@),
        },
{
    let blocks = sparse_blocks(content);
    let len = content.len();
    let mut calm = disarm(content, &blocks);
    let mut k: usize = 0;
    let ghost mut from: int = 0;
    while k < blocks.len()
        invariant
            k <= blocks.len(),
            len == content@.len(),
            calm@ == disarmed(content@, from),
            forall|j: int|
                0 <= j < blocks@.len() ==> is_sparse_block(content@, #[trigger] blocks@[j] as int),
            forall|i: int, j: int| 0 <= i < j < blocks@.len() ==> blocks@[i] < blocks@[j],
            forall|at: int| #[trigger]
                is_sparse_block(content@, at) ==> exists|j: int|
                    0 <= j < blocks@.len() && #[trigger] blocks@[j] == at,
            forall|j: int| 0 <= j < k ==> #[trigger] blocks@[j] < from,
            forall|j: int| k <= j < blocks@.len() ==> from <= #[trigger] blocks@[j],
            forall|b: int|
                b < from && #[trigger] is_sparse_block(content@, b) ==> is_harmless(content@, b),
        decreases blocks.len() - k,
    {
        let at = blocks[k];
        assert(is_sparse_block(content@, at as int));
        proof {
            assert forall|b: int| from <= b < at implies !is_sparse_block(content@, b) by {
                if is_sparse_block(content@, b) {
                    let j = choose|j: int| 0 <= j < blocks@.len() && #[trigger] blocks@[j] == b;
                    assert(blocks@[j] == b);
                    assert(j >= k);
                }
            }
            lemma_same_disarmed(content@, from, at as int);
            lemma_disarmed_is_tame(content@, at as int);
        }
        if let Ok(listing) = list_archive(calm.as_slice()) {
            if let Some(n) = find_oversized(&listing, at, len) {
                proof {
                    assert(is_cut(content@, at as int, n as int));
                    lemma_one_cut(content@, at as int, n as int);
                    assert(entry_views(listing.entries@) =~= listing@.entries);
                }
                return match shared_name(&listing.entries, n) {
                    Ok(_) => Err(ArchiveError::OversizedEntry),
                    Err(e) => Err(e),
                };
            }
        }
        assert(is_harmless(content@, at as int));
        calm.set(at + 156, 83);
        calm.set(at + 482, 1);
        proof {
            lemma_rearmed(content@, at as int, calm@);
            from = at + 1;
            assert forall|j: int| k < j < blocks@.len() implies at < #[trigger] blocks@[j] by {
                assert(blocks@[k as int] < blocks@[j]);
            }
            assert forall|j: int| 0 <= j <= k implies #[trigger] blocks@[j] <= at by {
                if j < k {
                    assert(blocks@[j] < blocks@[k as int]);
                }
            }
        }
        k += 1;
    }
    proof {
        assert forall|at: int| #[trigger] is_sparse_block(content@, at) implies is_harmless(
            content@,
            at,
        ) by {
            let j = choose|j: int| 0 <= j < blocks@.len() && #[trigger] blocks@[j] == at;
            assert(blocks@[j] < from);
        }
    }
    match list_archive(content.as_slice()) {
        Ok(listing) => {
            let mut listing = listing;
            let ghost listed = listing@;
            if listing.failure.is_some() && failure.is_some() {
                listing.failure = failure;
            }
            assert(listing@ == blamed(listed, failure));
            top_level_directory(listing)
        },
        Err(e) => Err(ArchiveError::Unreadable(e)),
    }
}

/// The single top-level directory of a gzip-compressed tar archive.
pub fn archive_top_level_directory(bytes: &[u8]) -> (r: Result<String, ArchiveError>)
    ensures
        match r {
            Ok(name) => archive_top_level(bytes@) == Ok::<_, ArchiveErrorView>(name@),
            Err(e) => archive_top_level(bytes@) == Err::<Seq<char>, _>(e@),
        },
{
    let mut read = gunzip(bytes);
    if read.failure.is_some() && read.content.len() % 512 == 0 {
        read.content.push(0);
    }
    content_top_level_directory(&read.content, read.failure)
}

/// The SHA-256 digest of `bytes`, as `sha2` computes it.
pub uninterp spec fn sha256(bytes: Seq<u8>) -> Seq<u8>;

/// Calls `sha2::Sha256::digest`. The digest depends on the bytes alone and is
/// 32 bytes long.
#[verifier::external_body]
pub(crate) fn sha256_digest(bytes: &[u8]) -> (r: Vec<u8>)
    ensures
        r@ == sha256(bytes@),
        r@.len() == 32,
{
    <sha2::Sha256 as sha2::Digest>::digest(bytes).to_vec()
}

/// A hexadecimal digit in lower case.
pub open spec fn hex_digit(n: int) -> char {
    if n < 10 {
        (48 + n) as char
    } else {
        (87 + n) as char
    }
}

/// Two lower-case hexadecimal digits for each byte.
pub open spec fn hex(bytes: Seq<u8>) -> Seq<char> {
    Seq::new(
        2 * bytes.len(),
        |i: int|
            if i % 2 == 0 {
                hex_digit(bytes[i / 2] as int / 16)
            } else {
                hex_digit(bytes[i / 2] as int % 16)
            },
    )
}

/// Appends one hexadecimal digit.
fn push_hex_digit(out: &mut String, n: u8)
    requires
        n < 16,
    ensures
        final(out)@ == old(out)@.push(hex_digit(n as int)),
{
    if n < 10 {
        out.push((48 + n) as char);
    } else {
        out.push((87 + n) as char);
    }
}

/// Two lower-case hexadecimal digits for each byte.
pub fn to_hex(bytes: &Vec<u8>) -> (r: String)
    ensures
        r@ == hex(bytes@),
{
    let mut out = String::new();
    let mut i: usize = 0;
    assert(out@ =~= hex(bytes@.take(0)));
    while i < bytes.len()
        invariant
            i <= bytes.len(),
            out@ == hex(bytes@.take(i as int)),
        decreases bytes.len() - i,
    {
        push_hex_digit(&mut out, bytes[i] / 16);
        push_hex_digit(&mut out, bytes[i] % 16);
        assert(out@ =~= hex(bytes@.take(i + 1)));
        i += 1;
    }
    assert(bytes@.take(i as int) =~= bytes@);
    out
}

} // verus!
