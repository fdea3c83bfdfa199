//! Laws of [`crate::archive`].
use vstd::prelude::*;
use vstd::utf8::*;

use crate::archive;
use crate::archive::{
    ArchiveEntry, ArchiveError, ArchiveErrorView, ArchiveListing, EntryView, Gunzipped,
    GunzippedView, ListingView,
};
use crate::laws::on_text;

verus! {

/// A name alone, or with a slash and anything behind it, even nothing, has the
/// name as its first component. Bytes that are no UTF-8 are refused for that.
pub proof fn law_first_component(name: Seq<u8>, rest: Seq<u8>)
    requires
        name.len() > 0,
        name != seq![46u8],
        name != seq![46u8, 46u8],
        forall|i: int| 0 <= i < name.len() ==> name[i] != 47,
    ensures
        valid_utf8(name) ==> archive::first_component(name) == Ok::<_, ArchiveErrorView>(
            decode_utf8(name),
        ),
        valid_utf8(name) ==> archive::first_component(name + seq![47u8] + rest) == Ok::<
            _,
            ArchiveErrorView,
        >(decode_utf8(name)),
        !valid_utf8(name) ==> archive::first_component(name) == Err::<Seq<char>, _>(
            ArchiveErrorView::NotUtf8,
        ),
        !valid_utf8(name) ==> archive::first_component(name + seq![47u8] + rest) == Err::<
            Seq<char>,
            _,
        >(ArchiveErrorView::NotUtf8),
{
    on_text::law_first_index(name, 47u8, rest);
    let path = name + seq![47u8] + rest;
    assert(path.take(name.len() as int) =~= name);
    assert(name.take(name.len() as int) =~= name);
}

/// An empty path is refused, and so is one that begins at the root, at the
/// current directory or at the parent directory.
pub proof fn law_unsafe_path(rest: Seq<u8>)
    ensures
        archive::first_component(seq![]) == Err::<Seq<char>, _>(ArchiveErrorView::EmptyPath),
        forall|start: Seq<u8>|
            start == Seq::<u8>::empty() || start == seq![46u8] || start == seq![46u8, 46u8]
                ==> archive::first_component(#[trigger] (start + seq![47u8] + rest)) == Err::<
                Seq<char>,
                _,
            >(ArchiveErrorView::UnsafePath(start + seq![47u8] + rest)),
        archive::first_component(seq![46u8]) == Err::<Seq<char>, _>(
            ArchiveErrorView::UnsafePath(seq![46u8]),
        ),
        archive::first_component(seq![46u8, 46u8]) == Err::<Seq<char>, _>(
            ArchiveErrorView::UnsafePath(seq![46u8, 46u8]),
        ),
{
    assert forall|start: Seq<u8>|
        start == Seq::<u8>::empty() || start == seq![46u8] || start == seq![
            46u8,
            46u8,
        ] implies archive::first_component(#[trigger] (start + seq![47u8] + rest)) == Err::<
        Seq<char>,
        _,
    >(ArchiveErrorView::UnsafePath(start + seq![47u8] + rest)) by {
        on_text::law_first_index(start, 47u8, rest);
        let path = start + seq![47u8] + rest;
        assert(path.take(start.len() as int) =~= start);
    }
    on_text::law_first_index(seq![46u8], 47u8, rest);
    on_text::law_first_index(seq![46u8, 46u8], 47u8, rest);
    assert(seq![46u8].take(1) =~= seq![46u8]);
    assert(seq![46u8, 46u8].take(2) =~= seq![46u8, 46u8]);
}

/// The entries of an archive are judged one by one: a fault stays, a
/// description changes nothing, and any other entry has to agree with the ones
/// before it.
pub proof fn law_shared_top_level(entries: Seq<EntryView>, entry: EntryView)
    ensures
        archive::shared_top_level(seq![]) == Ok::<_, ArchiveErrorView>(None::<Seq<char>>),
        ({
            let before = archive::shared_top_level(entries);
            let after = archive::shared_top_level(entries.push(entry));
            let mere = entry.pax_global || entry.pax_local || entry.gnu_long_name
                || entry.gnu_long_link;
            &&& before is Err ==> after == before
            &&& before is Ok && mere ==> after == before
            &&& before is Ok && !mere ==> match archive::first_component(entry.path) {
                Err(e) => after == Err::<Option<Seq<char>>, _>(e),
                Ok(name) => match before->Ok_0 {
                    None => after == Ok::<_, ArchiveErrorView>(Some(name)),
                    Some(other) => if other == name {
                        after == before
                    } else {
                        after == Err::<Option<Seq<char>>, _>(
                            ArchiveErrorView::MultipleTopLevel(other, name),
                        )
                    },
                },
            }
        }),
{
    assert(entries.push(entry).drop_last() =~= entries);
}

/// An entry only describes others exactly if it is a pax or GNU extension.
pub proof fn law_describes(entry: EntryView)
    ensures
        entry.describes() <==> entry.pax_global || entry.pax_local || entry.gnu_long_name
            || entry.gnu_long_link,
{
}

/// A listing is judged by its entries first, by its failure next, and is empty
/// if neither says anything.
pub proof fn law_listing_is_judged(entries: Seq<EntryView>, failure: std::io::Error)
    ensures
        match archive::shared_top_level(entries) {
            Err(e) => {
                &&& archive::top_level(ListingView { entries, failure: None }) == Err::<
                    Seq<char>,
                    _,
                >(e)
                &&& archive::top_level(ListingView { entries, failure: Some(failure) }) == Err::<
                    Seq<char>,
                    _,
                >(e)
            },
            Ok(shared) => {
                &&& archive::top_level(ListingView { entries, failure: Some(failure) }) == Err::<
                    Seq<char>,
                    _,
                >(ArchiveErrorView::UnreadableEntry(failure))
                &&& archive::top_level(ListingView { entries, failure: None }) == match shared {
                    Some(name) => Ok::<_, ArchiveErrorView>(name),
                    None => Err(ArchiveErrorView::Empty),
                }
            },
        },
{
}

/// Each byte is written as two hexadecimal digits in lower case, the high one
/// first.
pub proof fn law_hex(bytes: Seq<u8>, byte: u8)
    ensures
        archive::hex(seq![]) == Seq::<char>::empty(),
        archive::hex(bytes.push(byte)) == archive::hex(bytes) + seq![
            "0123456789abcdef"@[byte as int / 16],
            "0123456789abcdef"@[byte as int % 16],
        ],
{
    reveal_strlit("0123456789abcdef");
    let all = bytes.push(byte);
    let n = 2 * bytes.len();
    assert(archive::hex(seq![]) =~= Seq::<char>::empty());
    let written = archive::hex(bytes) + seq![
        "0123456789abcdef"@[byte as int / 16],
        "0123456789abcdef"@[byte as int % 16],
    ];
    assert forall|i: int| 0 <= i < n + 2 implies archive::hex(all)[i] == written[i] by {
        if i < n {
            assert(i / 2 < bytes.len());
            assert(all[i / 2] == bytes[i / 2]);
        } else {
            assert(all[i / 2] == byte);
            assert(0 <= byte as int / 16 < 16);
            assert(0 <= byte as int % 16 < 16);
        }
    }
    assert(archive::hex(all) =~= written);
}

/// A stream that ended well is listed as it is. One that broke off is listed
/// up to there, never so that it could end at a whole block.
pub proof fn law_listed_content(content: Seq<u8>, failure: std::io::Error)
    ensures
        archive::listed_content(GunzippedView { content, failure: None }) == content,
        ({
            let listed = archive::listed_content(GunzippedView { content, failure: Some(failure) });
            &&& listed.len() % 512 != 0
            &&& content.len() % 512 != 0 ==> listed == content
            &&& content.len() % 512 == 0 ==> listed == content.push(0)
        }),
{
}

/// A failed listing is put down to the stream if that failed, and a listing
/// that did not fail to nothing.
pub proof fn law_blamed(entries: Seq<EntryView>, own: std::io::Error, other: std::io::Error)
    ensures
        archive::blamed(ListingView { entries, failure: None }, Some(other)) == (ListingView {
            entries,
            failure: None,
        }),
        archive::blamed(ListingView { entries, failure: Some(own) }, None) == (ListingView {
            entries,
            failure: Some(own),
        }),
        archive::blamed(ListingView { entries, failure: Some(own) }, Some(other)) == (ListingView {
            entries,
            failure: Some(other),
        }),
        archive::blamed(ListingView { entries, failure: None }, None) == (ListingView {
            entries,
            failure: None,
        }),
{
}

/// A tame archive is judged by its listing.
pub proof fn law_tame_archive_is_judged_by_its_listing(
    content: Seq<u8>,
    failure: Option<std::io::Error>,
)
    requires
        archive::is_tame(content),
    ensures
        archive::content_top_level(content, failure) == match archive::tar_listing(content) {
            Ok(listing) => archive::top_level(archive::blamed(listing, failure)),
            Err(e) => Err(ArchiveErrorView::Unreadable(e)),
        },
{
}

/// Where an archive is refused as oversized, a block that looks like a sparse
/// header is one, with a size that 64 bits cannot add up with the archive's.
pub proof fn law_oversized_means_oversized(content: Seq<u8>, failure: Option<std::io::Error>)
    requires
        archive::content_top_level(content, failure) == Err::<Seq<char>, _>(
            ArchiveErrorView::OversizedEntry,
        ),
    ensures
        !archive::is_tame(content),
        exists|at: int| #[trigger]
            archive::is_sparse_block(content, at) && !archive::is_harmless(content, at),
{
    if archive::is_tame(content) {
        if let Ok(listing) = archive::tar_listing(content) {
            law_listings_are_not_oversized(archive::blamed(listing, failure));
        }
    }
}

/// No listing by itself is refused as oversized.
pub proof fn law_listings_are_not_oversized(listing: ListingView)
    ensures
        archive::top_level(listing) != Err::<Seq<char>, _>(ArchiveErrorView::OversizedEntry),
{
    lemma_not_oversized(listing.entries);
}

proof fn lemma_not_oversized(entries: Seq<EntryView>)
    ensures
        archive::shared_top_level(entries) != Err::<Option<Seq<char>>, _>(
            ArchiveErrorView::OversizedEntry,
        ),
    decreases entries.len(),
{
    if entries.len() > 0 {
        lemma_not_oversized(entries.drop_last());
    }
}

/// The first oversized entry is refused, unless an entry before it is.
pub proof fn law_cut_archive(content: Seq<u8>, failure: Option<std::io::Error>, at: int, k: int)
    requires
        archive::is_cut(content, at, k),
    ensures
        !archive::is_tame(content),
        archive::content_top_level(content, failure) == match archive::shared_top_level(
            archive::tar_listing(archive::disarmed(content, at))->Ok_0.entries.take(k),
        ) {
            Err(e) => Err::<Seq<char>, _>(e),
            Ok(_) => Err(ArchiveErrorView::OversizedEntry),
        },
{
    archive::lemma_one_cut(content, at, k);
}

/// An archive that is not tame has a first oversized entry, and is refused.
pub proof fn law_wild_archive_is_refused(content: Seq<u8>, failure: Option<std::io::Error>)
    requires
        !archive::is_tame(content),
    ensures
        exists|at: int, k: int| archive::is_cut(content, at, k),
        archive::content_top_level(content, failure) is Err,
{
    let at = choose|at: int| #[trigger]
        archive::is_sparse_block(content, at) && !archive::is_harmless(content, at);
    lemma_cut_exists(content, at);
    let (a, k) = choose|a: int, k: int| archive::is_cut(content, a, k);
    law_cut_archive(content, failure, a, k);
}

proof fn lemma_cut_exists(content: Seq<u8>, at: int)
    requires
        archive::is_sparse_block(content, at),
        !archive::is_harmless(content, at),
    ensures
        exists|a: int, k: int| archive::is_cut(content, a, k),
    decreases at,
{
    if exists|b: int|
        b < at && #[trigger] archive::is_sparse_block(content, b) && !archive::is_harmless(
            content,
            b,
        ) {
        let b = choose|b: int|
            b < at && #[trigger] archive::is_sparse_block(content, b) && !archive::is_harmless(
                content,
                b,
            );
        lemma_cut_exists(content, b);
    } else {
        let entries = archive::tar_listing(archive::disarmed(content, at))->Ok_0.entries;
        let i = choose|i: int|
            0 <= i < entries.len() && archive::is_oversized(
                #[trigger] entries[i],
                at,
                content.len(),
            );
        lemma_first_entry(content, at, i);
    }
}

proof fn lemma_first_entry(content: Seq<u8>, at: int, i: int)
    requires
        archive::is_sparse_block(content, at),
        forall|b: int|
            b < at && #[trigger] archive::is_sparse_block(content, b) ==> archive::is_harmless(
                content,
                b,
            ),
        archive::tar_listing(archive::disarmed(content, at)) is Ok,
        0 <= i < archive::tar_listing(archive::disarmed(content, at))->Ok_0.entries.len(),
        archive::is_oversized(
            archive::tar_listing(archive::disarmed(content, at))->Ok_0.entries[i],
            at,
            content.len(),
        ),
    ensures
        exists|a: int, k: int| archive::is_cut(content, a, k),
    decreases i,
{
    let entries = archive::tar_listing(archive::disarmed(content, at))->Ok_0.entries;
    if exists|j: int|
        0 <= j < i && archive::is_oversized(#[trigger] entries[j], at, content.len()) {
        let j = choose|j: int|
            0 <= j < i && archive::is_oversized(#[trigger] entries[j], at, content.len());
        lemma_first_entry(content, at, j);
    } else {
        assert(archive::is_cut(content, at, i));
    }
}

/// The entries before the first oversized one are in range, and it is not.
pub proof fn law_cut(content: Seq<u8>, at: int, k: int)
    requires
        archive::is_cut(content, at, k),
    ensures
        archive::is_sparse_block(content, at),
        ({
            let entries = archive::tar_listing(archive::disarmed(content, at))->Ok_0.entries;
            &&& 0 <= k < entries.len()
            &&& entries[k].position == at
            &&& entries[k].size + 511 + content.len() > 0xffff_ffff_ffff_ffff
            &&& forall|i: int|
                0 <= i < k && (#[trigger] entries[i]).position == at ==> entries[i].size + 511
                    + content.len() <= 0xffff_ffff_ffff_ffff
        }),
        forall|b: int|
            b < at && #[trigger] archive::is_sparse_block(content, b) ==> archive::is_harmless(
                content,
                b,
            ),
{
    let entries = archive::tar_listing(archive::disarmed(content, at))->Ok_0.entries;
    assert forall|i: int| 0 <= i < k && (#[trigger] entries[i]).position == at implies
        entries[i].size + 511 + content.len() <= 0xffff_ffff_ffff_ffff by {
        assert(!archive::is_oversized(entries[i], at, content.len()));
    }
}

/// An archive whose entries are a directory and what lies in it has that
/// directory.
pub proof fn law_one_directory(entries: Seq<EntryView>, name: Seq<u8>)
    requires
        name.len() > 0,
        name != seq![46u8],
        name != seq![46u8, 46u8],
        forall|i: int| 0 <= i < name.len() ==> name[i] != 47,
        valid_utf8(name),
        exists|i: int| 0 <= i < entries.len() && !(#[trigger] entries[i]).describes(),
        forall|i: int|
            0 <= i < entries.len() && !(#[trigger] entries[i]).describes() ==> entries[i].path
                == name || exists|rest: Seq<u8>|
                entries[i].path == #[trigger] (name + seq![47u8] + rest),
    ensures
        archive::top_level(ListingView { entries, failure: None }) == Ok::<_, ArchiveErrorView>(
            decode_utf8(name),
        ),
{
    let listing = ListingView { entries, failure: None };
    archive::law_top_level(listing, decode_utf8(name));
    assert forall|i: int|
        0 <= i < listing.entries.len() && !(#[trigger] listing.entries[i]).describes() implies
        archive::first_component(listing.entries[i].path) == Ok::<_, ArchiveErrorView>(
        decode_utf8(name),
    ) by {
        if entries[i].path == name {
            law_first_component(name, seq![]);
        } else {
            let rest = choose|rest: Seq<u8>|
                entries[i].path == #[trigger] (name + seq![47u8] + rest);
            law_first_component(name, rest);
        }
    }
}

/// What makes a block look like a GNU sparse header with further headers: the
/// type `S`, the magic of GNU tar, and the mark that headers follow.
pub proof fn law_sparse_block(before: Seq<u8>, block: Seq<u8>, after: Seq<u8>)
    requires
        before.len() % 512 == 0,
        block.len() == 512,
    ensures
        archive::is_sparse_block(before + block + after, before.len() as int) <==> {
            &&& block[156] == 'S' as u8
            &&& block[482] == 1
            &&& block[257] == 'u' as u8
            &&& block[258] == 's' as u8
            &&& block[259] == 't' as u8
            &&& block[260] == 'a' as u8
            &&& block[261] == 'r' as u8
            &&& block[262] == ' ' as u8
            &&& block[263] == ' ' as u8
            &&& block[264] == 0
        },
        forall|at: int| at < 0 || at % 512 != 0 || at + 512 > (before + block + after).len()
            ==> !archive::is_sparse_block(before + block + after, at),
{
    let content = before + block + after;
    let at = before.len() as int;
    assert(forall|i: int| 0 <= i < 512 ==> content[at + i] == #[trigger] block[i]);
    let magic = content.subrange(at + 257, at + 265);
    assert(magic[0] == block[257] && magic[1] == block[258] && magic[2] == block[259] && magic[3]
        == block[260] && magic[4] == block[261] && magic[5] == block[262] && magic[6]
        == block[263] && magic[7] == block[264]);
    if archive::is_sparse_block(content, at) {
        assert(magic == archive::gnu_magic());
    }
    if block[257] == 117 && block[258] == 115 && block[259] == 116 && block[260] == 97
        && block[261] == 114 && block[262] == 32 && block[263] == 32 && block[264] == 0 {
        assert(magic =~= archive::gnu_magic());
    }
}

/// Disarming changes a block from `from` on that looks like a sparse header,
/// in its type and its mark alone, and keeps their sum.
pub proof fn law_disarmed(content: Seq<u8>, from: int, at: int, i: int)
    requires
        0 <= at,
        at % 512 == 0,
        0 <= i < 512,
        at + i < content.len(),
    ensures
        archive::disarmed(content, from).len() == content.len(),
        archive::disarmed(content, from)[at + i] == if at >= from && archive::is_sparse_block(
            content,
            at,
        ) && i == 156 {
            '0' as u8
        } else if at >= from && archive::is_sparse_block(content, at) && i == 482 {
            36
        } else {
            content[at + i]
        },
        '0' as u8 + 36 == 'S' as u8 + 1,
{
    assert((at + i) % 512 == i);
}

/// An archive is tame exactly if each block that looks like a sparse header,
/// with itself and the later ones disarmed, is listed at its place only with a
/// size that 64 bits can add up with the archive's.
pub proof fn law_tame(content: Seq<u8>)
    ensures
        archive::is_tame(content) <==> forall|at: int|
            #![trigger archive::is_sparse_block(content, at)]
            archive::is_sparse_block(content, at) ==> match archive::tar_listing(
                archive::disarmed(content, at),
            ) {
                Ok(listing) => forall|i: int|
                    0 <= i < listing.entries.len() && (#[trigger] listing.entries[i]).position == at
                        ==> listing.entries[i].size + 511 + content.len() <= 0xffff_ffff_ffff_ffff,
                Err(_) => true,
            },
{
    assert forall|at: int| #[trigger] archive::is_sparse_block(content, at) implies (
    archive::is_harmless(content, at) <==> match archive::tar_listing(
        archive::disarmed(content, at),
    ) {
        Ok(listing) => forall|i: int|
            0 <= i < listing.entries.len() && (#[trigger] listing.entries[i]).position == at
                ==> listing.entries[i].size + 511 + content.len() <= 0xffff_ffff_ffff_ffff,
        Err(_) => true,
    }) by {
        if let Ok(listing) = archive::tar_listing(archive::disarmed(content, at)) {
            assert forall|i: int| 0 <= i < listing.entries.len() implies (!archive::is_oversized(
                #[trigger] listing.entries[i],
                at,
                content.len(),
            ) <==> (listing.entries[i].position == at ==> listing.entries[i].size + 511
                + content.len() <= 0xffff_ffff_ffff_ffff)) by {}
        }
    }
}

/// A compressed archive is judged by what it unpacks to.
pub proof fn law_compressed_archive(bytes: Seq<u8>)
    ensures
        archive::archive_top_level(bytes) == archive::content_top_level(
            archive::listed_content(archive::gunzipped(bytes)),
            archive::gunzipped(bytes).failure,
        ),
{
}

/// What stands for an entry, a listing, a stream or an error keeps all of it.
pub proof fn law_archive_views(
    entry: ArchiveEntry,
    listing: ArchiveListing,
    read: Gunzipped,
    error: ArchiveError,
)
    ensures
        entry@ == (EntryView {
            pax_global: entry.pax_global,
            pax_local: entry.pax_local,
            gnu_long_name: entry.gnu_long_name,
            gnu_long_link: entry.gnu_long_link,
            path: entry.path@,
            position: entry.position,
            size: entry.size,
        }),
        listing@.failure == listing.failure,
        listing@.entries.len() == listing.entries@.len(),
        forall|i: int|
            0 <= i < listing.entries@.len() ==> #[trigger] listing@.entries[i]
                == listing.entries@[i]@,
        read@ == (GunzippedView { content: read.content@, failure: read.failure }),
        match error {
            ArchiveError::OversizedEntry => error@ == ArchiveErrorView::OversizedEntry,
            ArchiveError::Unreadable(e) => error@ == ArchiveErrorView::Unreadable(e),
            ArchiveError::UnreadableEntry(e) => error@ == ArchiveErrorView::UnreadableEntry(e),
            ArchiveError::EmptyPath => error@ == ArchiveErrorView::EmptyPath,
            ArchiveError::UnsafePath(p) => error@ == ArchiveErrorView::UnsafePath(p@),
            ArchiveError::NotUtf8 => error@ == ArchiveErrorView::NotUtf8,
            ArchiveError::MultipleTopLevel(a, b) => error@ == ArchiveErrorView::MultipleTopLevel(
                a@,
                b@,
            ),
            ArchiveError::Empty => error@ == ArchiveErrorView::Empty,
        },
{
}

} // verus!
