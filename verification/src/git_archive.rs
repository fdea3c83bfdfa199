//! The archive of a crate's locked Git source: where a spec file fetches it
//! from, and what it turned out to hold.
use vstd::prelude::*;

use crate::archive;
use crate::archive::{ArchiveError, ArchiveErrorView};
use crate::document;
use crate::document::{Toml, TomlView};
use crate::lockfile;
use crate::source;
use crate::source::{
    LockedGitReference, LockedGitSource, ReferenceView, SourceError, SourceErrorView, SourceView,
};
use crate::text;
use crate::version;
use crate::version::Version;

verus! {

/// The archive of a locked Git source.
#[derive(Debug)]
pub struct GitArchive {
    pub source: LockedGitSource,
    /// Macros that the spec file defines, in order.
    pub source_macros: Vec<(String, String)>,
    /// The URL as the spec file writes it, with those macros.
    pub source_url: String,
    /// The URL to download the archive from.
    pub fetch_url: String,
}

/// What a spec file says of a source that is no crates.io package.
#[derive(Debug)]
pub struct SourceArchiveOverride {
    pub source_macros: Vec<(String, String)>,
    pub source_url: String,
    pub sha256: String,
    pub prep_dir: String,
}

/// Why a lockfile yields no archive.
#[derive(Debug)]
pub enum GitArchiveError {
    /// The lockfile is no TOML document.
    Syntax(toml::de::Error),
    NoPackageArray,
    /// An archive was given, but the package has no Git source.
    NoGitSource,
    /// The package has several Git sources.
    AmbiguousGitSource,
    Source(SourceError),
    Archive(ArchiveError),
    /// The archive's top-level directory is not that of the repository.
    WrongTopLevel(String, String),
}

/// The texts of a [`GitArchive`].
pub struct GitArchiveView {
    pub source: SourceView,
    pub source_macros: Seq<(Seq<char>, Seq<char>)>,
    pub source_url: Seq<char>,
    pub fetch_url: Seq<char>,
}

/// The texts of a [`SourceArchiveOverride`].
pub struct OverrideView {
    pub source_macros: Seq<(Seq<char>, Seq<char>)>,
    pub source_url: Seq<char>,
    pub sha256: Seq<char>,
    pub prep_dir: Seq<char>,
}

/// The texts of a [`GitArchiveError`].
pub enum GitArchiveErrorView {
    Syntax(toml::de::Error),
    NoPackageArray,
    NoGitSource,
    AmbiguousGitSource,
    Source(SourceErrorView),
    Archive(ArchiveErrorView),
    WrongTopLevel(Seq<char>, Seq<char>),
}

/// The texts of a list of macros.
pub open spec fn macro_texts(list: Seq<(String, String)>) -> Seq<(Seq<char>, Seq<char>)> {
    list.map_values(|m: (String, String)| (m.0@, m.1@))
}

impl View for GitArchive {
    type V = GitArchiveView;

    open spec fn view(&self) -> GitArchiveView {
        GitArchiveView {
            source: self.source@,
            source_macros: macro_texts(self.source_macros@),
            source_url: self.source_url@,
            fetch_url: self.fetch_url@,
        }
    }
}

impl View for SourceArchiveOverride {
    type V = OverrideView;

    open spec fn view(&self) -> OverrideView {
        OverrideView {
            source_macros: macro_texts(self.source_macros@),
            source_url: self.source_url@,
            sha256: self.sha256@,
            prep_dir: self.prep_dir@,
        }
    }
}

impl View for GitArchiveError {
    type V = GitArchiveErrorView;

    open spec fn view(&self) -> GitArchiveErrorView {
        match self {
            GitArchiveError::Syntax(e) => GitArchiveErrorView::Syntax(*e),
            GitArchiveError::NoPackageArray => GitArchiveErrorView::NoPackageArray,
            GitArchiveError::NoGitSource => GitArchiveErrorView::NoGitSource,
            GitArchiveError::AmbiguousGitSource => GitArchiveErrorView::AmbiguousGitSource,
            GitArchiveError::Source(e) => GitArchiveErrorView::Source(e@),
            GitArchiveError::Archive(e) => GitArchiveErrorView::Archive(e@),
            GitArchiveError::WrongTopLevel(found, name) => GitArchiveErrorView::WrongTopLevel(
                found@,
                name@,
            ),
        }
    }
}

/// The URL of the archive that GitHub makes of a tag or a commit. `selected`
/// is the text that stands for it.
pub open spec fn archive_url(
    repository: Seq<char>,
    reference: ReferenceView,
    selected: Seq<char>,
) -> Seq<char> {
    if reference is Tag {
        repository + "/archive/refs/tags/"@ + selected + ".tar.gz"@
    } else {
        repository + "/archive/"@ + selected + ".tar.gz"@
    }
}

/// The tag of a tagged source, the commit of any other.
pub open spec fn selected_by(locked: SourceView) -> Seq<char> {
    match locked.reference {
        ReferenceView::Tag(tag) => tag,
        _ => locked.commit,
    }
}

/// The macro that holds what [`selected_by`] gives.
pub open spec fn selecting_macro(locked: SourceView) -> Seq<char> {
    if locked.reference is Tag {
        "git_tag"@
    } else {
        "git_commit"@
    }
}

/// How a spec file writes the value of a macro.
pub open spec fn expansion(name: Seq<char>) -> Seq<char> {
    "%{"@ + name + "}"@
}

/// The archive of a locked source. The spec file's URL is the download URL
/// with the macro for its value, and names the file after the crate.
pub open spec fn archive_of(locked: SourceView) -> GitArchiveView {
    let expanded = expansion(selecting_macro(locked));
    GitArchiveView {
        source: locked,
        source_macros: match locked.reference {
            ReferenceView::Tag(tag) => seq![
                ("git_tag"@, tag),
                ("git_commit"@, locked.commit),
            ],
            _ => seq![("git_commit"@, locked.commit)],
        },
        source_url: archive_url(locked.repository, locked.reference, expanded)
            + "#/%{crate_name}-"@ + expanded + ".tar.gz"@,
        fetch_url: archive_url(locked.repository, locked.reference, selected_by(locked)),
    }
}

/// The Git sources of the package entries with this name and version.
pub open spec fn git_sources(
    entries: Seq<TomlView>,
    name: Seq<char>,
    version: Seq<char>,
) -> Seq<Seq<char>>
    decreases entries.len(),
{
    if entries.len() == 0 {
        seq![]
    } else {
        let earlier = git_sources(entries.drop_last(), name, version);
        match entries.last().text_at("source"@) {
            Some(written) => if lockfile::is_entry(entries.last(), name, version)
                && text::has_prefix(written, "git+"@) {
                earlier.push(written)
            } else {
                earlier
            },
            None => earlier,
        }
    }
}

/// The archive that a lockfile has for a package. Nothing means that the
/// package does not come from Git; that is an error if an archive was given
/// for it.
pub open spec fn git_archive_of(
    lock: TomlView,
    name: Seq<char>,
    version: Seq<char>,
    archive_given: bool,
) -> Result<Option<GitArchiveView>, GitArchiveErrorView> {
    match lock.array_at("package"@) {
        None => Err(GitArchiveErrorView::NoPackageArray),
        Some(entries) => {
            let sources = git_sources(entries, name, version);
            if sources.len() == 0 {
                if archive_given {
                    Err(GitArchiveErrorView::NoGitSource)
                } else {
                    Ok(None)
                }
            } else if sources.len() > 1 {
                Err(GitArchiveErrorView::AmbiguousGitSource)
            } else {
                match source::locked_source(sources[0]) {
                    Ok(locked) => Ok(Some(archive_of(locked))),
                    Err(e) => Err(GitArchiveErrorView::Source(e)),
                }
            }
        },
    }
}

/// Whether the one Git source that a lockfile has for a package selects a
/// branch, whose resolved commit then stands for it.
pub open spec fn branch_is_used(lock: TomlView, name: Seq<char>, version: Seq<char>) -> bool {
    &&& lock.array_at("package"@) matches Some(entries)
    &&& git_sources(entries, name, version).len() == 1
    &&& source::follows_branch(git_sources(entries, name, version)[0])
}

/// The spec file's words for an archive with this digest and top-level
/// directory, which must be the repository's.
pub open spec fn override_of(
    fetched: GitArchiveView,
    digest: Seq<u8>,
    prep_dir: Seq<char>,
) -> Result<OverrideView, GitArchiveErrorView> {
    if text::has_prefix(prep_dir, fetched.source.repository_name + "-"@) {
        Ok(
            OverrideView {
                source_macros: fetched.source_macros,
                source_url: fetched.source_url,
                sha256: archive::hex(digest),
                prep_dir,
            },
        )
    } else {
        Err(GitArchiveErrorView::WrongTopLevel(prep_dir, fetched.source.repository_name))
    }
}

/// The concatenation of four texts.
fn join4(a: &str, b: &str, c: &str, d: &str) -> (r: String)
    ensures
        r@ == a@ + b@ + c@ + d@,
{
    let mut r = a.to_owned();
    r.append(b);
    r.append(c);
    r.append(d);
    r
}

/// The archive of a locked source.
pub fn git_archive(locked: LockedGitSource) -> (r: GitArchive)
    ensures
        r@ == archive_of(locked@),
{
    let repository = locked.repository.as_str();
    let commit = locked.commit.as_str();
    let mut source_macros: Vec<(String, String)> = Vec::new();
    let source_url: String;
    let fetch_url: String;
    proof {
        reveal_strlit("%{");
        reveal_strlit("}");
        reveal_strlit("git_tag");
        reveal_strlit("git_commit");
        reveal_strlit("%{git_tag}");
        reveal_strlit("%{git_commit}");
        assert("%{git_tag}"@ =~= expansion("git_tag"@));
        assert("%{git_commit}"@ =~= expansion("git_commit"@));
    }
    match &locked.reference {
        LockedGitReference::Tag(tag) => {
            let base = join4(repository, "/archive/refs/tags/", "%{git_tag}", ".tar.gz");
            source_url = join4(base.as_str(), "#/%{crate_name}-", "%{git_tag}", ".tar.gz");
            fetch_url = join4(repository, "/archive/refs/tags/", tag.as_str(), ".tar.gz");
            source_macros.push(("git_tag".to_owned(), tag.as_str().to_owned()));
            source_macros.push(("git_commit".to_owned(), commit.to_owned()));
        },
        _ => {
            let base = join4(repository, "/archive/", "%{git_commit}", ".tar.gz");
            source_url = join4(base.as_str(), "#/%{crate_name}-", "%{git_commit}", ".tar.gz");
            fetch_url = join4(repository, "/archive/", commit, ".tar.gz");
            source_macros.push(("git_commit".to_owned(), commit.to_owned()));
        },
    }
    let r = GitArchive { source: locked, source_macros, source_url, fetch_url };
    assert(r@.source_macros =~= archive_of(locked@).source_macros);
    r
}

/// The Git sources of the package entries with this name and version.
fn read_git_sources(entries: &Vec<Toml>, name: &str, version: &str) -> (r: Vec<String>)
    ensures
        text::texts(r@) == git_sources(document::trees(entries@), name@, version@),
{
    let ghost all = document::trees(entries@);
    let mut sources: Vec<String> = Vec::new();
    let mut i: usize = 0;
    assert(text::texts(sources@) =~= git_sources(all.take(0), name@, version@));
    while i < entries.len()
        invariant
            i <= entries.len(),
            all == document::trees(entries@),
            text::texts(sources@) == git_sources(all.take(i as int), name@, version@),
        decreases entries.len() - i,
    {
        let entry = &entries[i];
        let ghost before = sources@;
        assert(all[i as int] == entry@);
        assert(all.take(i + 1).drop_last() =~= all.take(i as int));
        if let (Some(n), Some(v), Some(written)) = (
            entry.text_at("name"),
            entry.text_at("version"),
            entry.text_at("source"),
        ) {
            if text::same_text(n, name) && text::same_text(v, version) && text::starts_with(
                written,
                "git+",
            ) {
                let copy = written.to_owned();
                sources.push(copy);
                assert(text::texts(sources@) =~= text::texts(before).push(copy@));
            }
        }
        i += 1;
    }
    assert(all.take(i as int) =~= all);
    sources
}

/// The archive that the lockfile `lock` has for a package.
pub fn locked_git_archive(
    lock: &Toml,
    crate_name: &str,
    version: &Version,
    archive_given: bool,
) -> (r: Result<Option<GitArchive>, GitArchiveError>)
    ensures
        match r {
            Ok(Some(found)) => git_archive_of(
                lock@,
                crate_name@,
                version::version_text(version@),
                archive_given,
            ) == Ok::<_, GitArchiveErrorView>(Some(found@)),
            Ok(None) => git_archive_of(
                lock@,
                crate_name@,
                version::version_text(version@),
                archive_given,
            ) == Ok::<_, GitArchiveErrorView>(None::<GitArchiveView>),
            Err(e) => git_archive_of(
                lock@,
                crate_name@,
                version::version_text(version@),
                archive_given,
            ) == Err::<Option<GitArchiveView>, _>(e@),
        },
{
    let entries = match lock.array_at("package") {
        Some(entries) => entries,
        None => {
            return Err(GitArchiveError::NoPackageArray);
        },
    };
    let written = version.to_text();
    let sources = read_git_sources(entries, crate_name, written.as_str());
    assert(text::texts(sources@).len() == sources@.len());
    if sources.len() == 0 {
        if archive_given {
            return Err(GitArchiveError::NoGitSource);
        }
        return Ok(None);
    }
    if sources.len() > 1 {
        return Err(GitArchiveError::AmbiguousGitSource);
    }
    assert(text::texts(sources@)[0] == sources@[0]@);
    match source::parse_locked_github_source(sources[0].as_str()) {
        Ok(locked) => Ok(Some(git_archive(locked))),
        Err(e) => Err(GitArchiveError::Source(e)),
    }
}

/// Whether the one Git source that the lockfile `lock` has for a package
/// selects a branch.
pub fn uses_branch(lock: &Toml, crate_name: &str, version: &Version) -> (r: bool)
    ensures
        r == branch_is_used(lock@, crate_name@, version::version_text(version@)),
{
    let entries = match lock.array_at("package") {
        Some(entries) => entries,
        None => {
            return false;
        },
    };
    let written = version.to_text();
    let sources = read_git_sources(entries, crate_name, written.as_str());
    assert(text::texts(sources@).len() == sources@.len());
    if sources.len() != 1 {
        return false;
    }
    assert(text::texts(sources@)[0] == sources@[0]@);
    source::source_follows_branch(sources[0].as_str())
}

/// The archive that a lockfile has for a package, from the lockfile's text.
/// `archive_given` says whether a copy of the archive was given.
pub fn git_archive_source_from_lockfile(
    lockfile: &str,
    crate_name: &str,
    version: &Version,
    archive_given: bool,
) -> (r: Result<Option<GitArchive>, GitArchiveError>)
    ensures
        match (document::toml_document(lockfile@), r) {
            (Err(fault), Err(e)) => e@ == GitArchiveErrorView::Syntax(fault),
            (Err(_), Ok(_)) => false,
            (Ok(lock), Ok(Some(found))) => git_archive_of(
                lock,
                crate_name@,
                version::version_text(version@),
                archive_given,
            ) == Ok::<_, GitArchiveErrorView>(Some(found@)),
            (Ok(lock), Ok(None)) => git_archive_of(
                lock,
                crate_name@,
                version::version_text(version@),
                archive_given,
            ) == Ok::<_, GitArchiveErrorView>(None::<GitArchiveView>),
            (Ok(lock), Err(e)) => git_archive_of(
                lock,
                crate_name@,
                version::version_text(version@),
                archive_given,
            ) == Err::<Option<GitArchiveView>, _>(e@),
        },
{
    match document::parse_document(lockfile) {
        Ok(lock) => locked_git_archive(&lock, crate_name, version, archive_given),
        Err(e) => Err(GitArchiveError::Syntax(e)),
    }
}

/// The spec file's words for an archive whose checksum and top-level directory
/// are known.
pub fn describe_archive(fetched: GitArchive, digest: Vec<u8>, prep_dir: String) -> (r: Result<
    SourceArchiveOverride,
    GitArchiveError,
>)
    ensures
        match r {
            Ok(found) => override_of(fetched@, digest@, prep_dir@) == Ok::<_, GitArchiveErrorView>(
                found@,
            ),
            Err(e) => override_of(fetched@, digest@, prep_dir@) == Err::<OverrideView, _>(e@),
        },
{
    let mut expected = fetched.source.repository_name.clone();
    expected.append("-");
    if !text::starts_with(prep_dir.as_str(), expected.as_str()) {
        return Err(GitArchiveError::WrongTopLevel(prep_dir, fetched.source.repository_name));
    }
    Ok(
        SourceArchiveOverride {
            source_macros: fetched.source_macros,
            source_url: fetched.source_url,
            sha256: archive::to_hex(&digest),
            prep_dir,
        },
    )
}

/// The spec file's words for the archive that `bytes` are.
pub fn source_archive_override(fetched: GitArchive, bytes: &[u8]) -> (r: Result<
    SourceArchiveOverride,
    GitArchiveError,
>)
    ensures
        match archive::archive_top_level(bytes@) {
            Err(fault) => r matches Err(e) && e@ == GitArchiveErrorView::Archive(fault),
            Ok(prep_dir) => match r {
                Ok(found) => override_of(fetched@, archive::sha256(bytes@), prep_dir) == Ok::<
                    _,
                    GitArchiveErrorView,
                >(found@),
                Err(e) => override_of(fetched@, archive::sha256(bytes@), prep_dir) == Err::<
                    OverrideView,
                    _,
                >(e@),
            },
        },
        r matches Ok(found) ==> found.sha256@.len() == 64,
{
    let digest = archive::sha256_digest(bytes);
    match archive::archive_top_level_directory(bytes) {
        Ok(prep_dir) => describe_archive(fetched, digest, prep_dir),
        Err(e) => Err(GitArchiveError::Archive(e)),
    }
}

/// Where an archive was given, a lockfile without a Git source for the package
/// is refused: the given archive is never silently ignored.
pub proof fn law_given_archive_needs_git_source(
    lock: TomlView,
    name: Seq<char>,
    version: Seq<char>,
)
    ensures
        git_archive_of(lock, name, version, true) != Ok::<_, GitArchiveErrorView>(
            None::<GitArchiveView>,
        ),
{
}

/// A package whose source selects a branch has the archive of the commit that
/// the branch was resolved to.
pub proof fn law_branch_means_commit(
    lock: TomlView,
    name: Seq<char>,
    version: Seq<char>,
    archive_given: bool,
)
    requires
        branch_is_used(lock, name, version),
    ensures
        git_archive_of(lock, name, version, archive_given) matches Ok(Some(found))
            && found.fetch_url == archive_url(
            found.source.repository,
            ReferenceView::Commit,
            found.source.commit,
        ),
{
}

/// The URL in the spec file is the download URL with the first macro in place
/// of its value, followed by a file name.
pub proof fn law_spec_url_is_fetch_url(found: SourceView)
    ensures
        archive_of(found).source_macros.len() > 0,
        archive_of(found).fetch_url == archive_url(
            found.repository,
            found.reference,
            archive_of(found).source_macros[0].1,
        ),
        text::has_prefix(
            archive_of(found).source_url,
            archive_url(
                found.repository,
                found.reference,
                expansion(archive_of(found).source_macros[0].0),
            ) + "#/"@,
        ),
{
    let built = archive_of(found);
    assert(built.source_macros[0] == (selecting_macro(found), selected_by(found)));
    reveal_strlit("#/");
    reveal_strlit("#/%{crate_name}-");
    let front = archive_url(
        found.repository,
        found.reference,
        expansion(selecting_macro(found)),
    ) + "#/"@;
    assert(built.source_url.take(front.len() as int) =~= front);
}

/// An archive that a lockfile yields is on GitHub, and the values of its macros
/// hold nothing that a spec file would expand or cut.
pub proof fn law_found_archive_fits_spec_file(
    lock: TomlView,
    name: Seq<char>,
    version: Seq<char>,
    archive_given: bool,
    found: GitArchiveView,
    i: int,
)
    requires
        git_archive_of(lock, name, version, archive_given) == Ok::<_, GitArchiveErrorView>(
            Some(found),
        ),
        0 <= i < found.source_macros.len(),
    ensures
        text::has_prefix(found.fetch_url, "https://github.com/"@),
        text::has_prefix(found.source_url, "https://github.com/"@),
        source::is_selector(found.source_macros[i].1),
{
    let sources = git_sources(lock.array_at("package"@)->0, name, version);
    source::law_read_source_is_pinned(sources[0]);
    let read = source::locked_source(sources[0])->Ok_0;
    let n = "https://github.com/"@.len() as int;
    assert(found.fetch_url.take(n) =~= read.repository.take(n));
    assert(found.source_url.take(n) =~= read.repository.take(n));
    assert(source::is_selector(read.commit)) by {
        assert forall|j: int| 0 <= j < read.commit.len() implies !text::is_space(
            #[trigger] read.commit[j],
        ) && read.commit[j] != '%' && read.commit[j] != '#' by {
            assert(source::is_hex(read.commit[j]));
        }
    }
}

/// A described archive unpacks into a directory that is named after the
/// repository.
pub proof fn law_described_archive_is_the_repository(
    fetched: GitArchiveView,
    digest: Seq<u8>,
    prep_dir: Seq<char>,
)
    requires
        override_of(fetched, digest, prep_dir) is Ok,
    ensures
        text::has_prefix(
            override_of(fetched, digest, prep_dir)->Ok_0.prep_dir,
            fetched.source.repository_name + "-"@,
        ),
{
}

} // verus!
