//! Laws of [`crate::git_archive`].
use vstd::prelude::*;

use crate::archive;
use crate::document::TomlView;
use crate::git_archive;
use crate::git_archive::{
    GitArchive, GitArchiveError, GitArchiveErrorView, GitArchiveView, OverrideView,
    SourceArchiveOverride,
};
use crate::laws::on_text;
use crate::source;
use crate::source::{ReferenceView, SourceView};
use crate::text;

verus! {

/// The archive of a tag is fetched by the tag and written with the macro
/// `git_tag`; the commit is a macro too.
pub proof fn law_archive_of_tag(
    repository: Seq<char>,
    repository_name: Seq<char>,
    commit: Seq<char>,
    tag: Seq<char>,
)
    ensures
        ({
            let found = SourceView {
                repository,
                repository_name,
                commit,
                reference: ReferenceView::Tag(tag),
            };
            git_archive::archive_of(found) == (GitArchiveView {
                source: found,
                source_macros: seq![("git_tag"@, tag), ("git_commit"@, commit)],
                source_url: repository
                    + "/archive/refs/tags/%{git_tag}.tar.gz#/%{crate_name}-%{git_tag}.tar.gz"@,
                fetch_url: repository + "/archive/refs/tags/"@ + tag + ".tar.gz"@,
            })
        }),
{
    reveal_strlit("/archive/refs/tags/%{git_tag}.tar.gz#/%{crate_name}-%{git_tag}.tar.gz");
    reveal_strlit("/archive/refs/tags/");
    reveal_strlit("%{");
    reveal_strlit("git_tag");
    reveal_strlit("}");
    reveal_strlit(".tar.gz");
    reveal_strlit("#/%{crate_name}-");
    let found = SourceView {
        repository,
        repository_name,
        commit,
        reference: ReferenceView::Tag(tag),
    };
    assert(git_archive::archive_of(found).source_url =~= repository
        + "/archive/refs/tags/%{git_tag}.tar.gz#/%{crate_name}-%{git_tag}.tar.gz"@);
}

/// The archive of anything but a tag is fetched by the commit and written with
/// the macro `git_commit`.
pub proof fn law_archive_of_commit(found: SourceView)
    requires
        found.reference == ReferenceView::Rev || found.reference == ReferenceView::Commit,
    ensures
        git_archive::archive_of(found) == (GitArchiveView {
            source: found,
            source_macros: seq![("git_commit"@, found.commit)],
            source_url: found.repository
                + "/archive/%{git_commit}.tar.gz#/%{crate_name}-%{git_commit}.tar.gz"@,
            fetch_url: found.repository + "/archive/"@ + found.commit + ".tar.gz"@,
        }),
{
    reveal_strlit("/archive/%{git_commit}.tar.gz#/%{crate_name}-%{git_commit}.tar.gz");
    reveal_strlit("/archive/");
    reveal_strlit("%{");
    reveal_strlit("git_commit");
    reveal_strlit("}");
    reveal_strlit(".tar.gz");
    reveal_strlit("#/%{crate_name}-");
    assert(git_archive::archive_of(found).source_url =~= found.repository
        + "/archive/%{git_commit}.tar.gz#/%{crate_name}-%{git_commit}.tar.gz"@);
}

/// The URL in the spec file is the download URL with the first macro in place
/// of its value, and the file is named by the crate and that same macro: each
/// macro that stands for the source is defined.
pub proof fn law_url_uses_defined_macros(found: SourceView)
    ensures
        ({
            let built = git_archive::archive_of(found);
            &&& built.source_macros.len() > 0
            &&& exists|front: Seq<char>|
                {
                    &&& built.fetch_url == #[trigger] (front + built.source_macros[0].1)
                        + ".tar.gz"@
                    &&& built.source_url == front + "%{"@ + built.source_macros[0].0
                        + "}.tar.gz#/%{crate_name}-%{"@ + built.source_macros[0].0 + "}.tar.gz"@
                }
        }),
{
    reveal_strlit("%{");
    reveal_strlit("}");
    reveal_strlit(".tar.gz");
    reveal_strlit("#/%{crate_name}-");
    reveal_strlit("}.tar.gz#/%{crate_name}-%{");
    reveal_strlit("}.tar.gz");
    let built = git_archive::archive_of(found);
    let m = built.source_macros[0];
    let front = if found.reference is Tag {
        found.repository + "/archive/refs/tags/"@
    } else {
        found.repository + "/archive/"@
    };
    assert(built.fetch_url =~= (front + m.1) + ".tar.gz"@);
    assert(built.source_url =~= front + "%{"@ + m.0 + "}.tar.gz#/%{crate_name}-%{"@ + m.0
        + "}.tar.gz"@);
}

/// A package entry adds its source exactly if it has the name and the version
/// and the source begins with `git+`.
pub proof fn law_git_sources(
    entries: Seq<TomlView>,
    entry: TomlView,
    name: Seq<char>,
    version: Seq<char>,
    rest: Seq<char>,
)
    ensures
        git_archive::git_sources(seq![], name, version) == Seq::<Seq<char>>::empty(),
        entry.text_at("name"@) == Some(name) && entry.text_at("version"@) == Some(version)
            && entry.text_at("source"@) == Some("git+"@ + rest) ==> git_archive::git_sources(
            entries.push(entry),
            name,
            version,
        ) == git_archive::git_sources(entries, name, version).push("git+"@ + rest),
        entry.text_at("name"@) != Some(name) || entry.text_at("version"@) != Some(version) || (
        forall|rest: Seq<char>| entry.text_at("source"@) != Some(#[trigger] ("git+"@ + rest)))
            ==> git_archive::git_sources(entries.push(entry), name, version)
            == git_archive::git_sources(entries, name, version),
{
    assert(entries.push(entry).drop_last() =~= entries);
    on_text::law_prefix("git+"@ + rest, "git+"@, rest);
    if let Some(written) = entry.text_at("source"@) {
        if text::has_prefix(written, "git+"@) {
            assert(written =~= "git+"@ + written.skip("git+"@.len() as int));
        }
    }
}

/// A lockfile needs package entries. A package with no Git source has no
/// archive, which is an error if one was given; one with several is ambiguous;
/// one with a single source has the archive of it, or its error.
pub proof fn law_git_archive(
    lock: TomlView,
    name: Seq<char>,
    version: Seq<char>,
    archive_given: bool,
)
    ensures
        ({
            let found = git_archive::git_archive_of(lock, name, version, archive_given);
            match lock.array_at("package"@) {
                None => found == Err::<Option<GitArchiveView>, _>(
                    GitArchiveErrorView::NoPackageArray,
                ),
                Some(entries) => {
                    let sources = git_archive::git_sources(entries, name, version);
                    &&& sources.len() == 0 && archive_given ==> found == Err::<
                        Option<GitArchiveView>,
                        _,
                    >(GitArchiveErrorView::NoGitSource)
                    &&& sources.len() == 0 && !archive_given ==> found == Ok::<
                        _,
                        GitArchiveErrorView,
                    >(None::<GitArchiveView>)
                    &&& sources.len() > 1 ==> found == Err::<Option<GitArchiveView>, _>(
                        GitArchiveErrorView::AmbiguousGitSource,
                    )
                    &&& sources.len() == 1 ==> match source::locked_source(sources[0]) {
                        Ok(read) => found == Ok::<_, GitArchiveErrorView>(
                            Some(git_archive::archive_of(read)),
                        ),
                        Err(e) => found == Err::<Option<GitArchiveView>, _>(
                            GitArchiveErrorView::Source(e),
                        ),
                    }
                },
            }
        }),
        git_archive::branch_is_used(lock, name, version) <==> match lock.array_at("package"@) {
            None => false,
            Some(entries) => git_archive::git_sources(entries, name, version).len() == 1
                && source::follows_branch(git_archive::git_sources(entries, name, version)[0]),
        },
{
}

/// An archive whose directory is the repository's name, a dash and anything is
/// described by its macros, its URL, its checksum in hexadecimal and that
/// directory. Any other directory is refused.
pub proof fn law_override(
    fetched: GitArchiveView,
    digest: Seq<u8>,
    rest: Seq<char>,
    prep_dir: Seq<char>,
)
    ensures
        git_archive::override_of(
            fetched,
            digest,
            fetched.source.repository_name + "-"@ + rest,
        ) == Ok::<_, GitArchiveErrorView>(
            OverrideView {
                source_macros: fetched.source_macros,
                source_url: fetched.source_url,
                sha256: archive::hex(digest),
                prep_dir: fetched.source.repository_name + "-"@ + rest,
            },
        ),
        (forall|rest: Seq<char>|
            prep_dir != #[trigger] (fetched.source.repository_name + "-"@ + rest))
            ==> git_archive::override_of(fetched, digest, prep_dir) == Err::<OverrideView, _>(
            GitArchiveErrorView::WrongTopLevel(prep_dir, fetched.source.repository_name),
        ),
{
    let start = fetched.source.repository_name + "-"@;
    on_text::law_prefix(start + rest, start, rest);
    if text::has_prefix(prep_dir, start) {
        assert(prep_dir =~= start + prep_dir.skip(start.len() as int));
    }
}

/// What stands for an archive, its description or an error keeps all of it.
pub proof fn law_git_archive_views(
    found: GitArchive,
    described: SourceArchiveOverride,
    error: GitArchiveError,
)
    ensures
        found@ == (GitArchiveView {
            source: found.source@,
            source_macros: found@.source_macros,
            source_url: found.source_url@,
            fetch_url: found.fetch_url@,
        }),
        found@.source_macros.len() == found.source_macros@.len(),
        forall|i: int|
            0 <= i < found.source_macros@.len() ==> #[trigger] found@.source_macros[i] == (
                found.source_macros@[i].0@,
                found.source_macros@[i].1@,
            ),
        described@ == (OverrideView {
            source_macros: described@.source_macros,
            source_url: described.source_url@,
            sha256: described.sha256@,
            prep_dir: described.prep_dir@,
        }),
        described@.source_macros.len() == described.source_macros@.len(),
        forall|i: int|
            0 <= i < described.source_macros@.len() ==> #[trigger] described@.source_macros[i] == (
                described.source_macros@[i].0@,
                described.source_macros@[i].1@,
            ),
        match error {
            GitArchiveError::Syntax(e) => error@ == GitArchiveErrorView::Syntax(e),
            GitArchiveError::NoPackageArray => error@ == GitArchiveErrorView::NoPackageArray,
            GitArchiveError::NoGitSource => error@ == GitArchiveErrorView::NoGitSource,
            GitArchiveError::AmbiguousGitSource => error@
                == GitArchiveErrorView::AmbiguousGitSource,
            GitArchiveError::Source(e) => error@ == GitArchiveErrorView::Source(e@),
            GitArchiveError::Archive(e) => error@ == GitArchiveErrorView::Archive(e@),
            GitArchiveError::WrongTopLevel(a, b) => error@ == GitArchiveErrorView::WrongTopLevel(
                a@,
                b@,
            ),
        },
{
}

} // verus!
