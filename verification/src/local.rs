//! Packaging a local crate, decision by decision.
//!
//! A [`LocalPackage`] is one run: its [`Stage`] says what has to be done next,
//! and [`LocalPackage::advance`] takes the outcome as an [`Event`].
use vstd::prelude::*;

use crate::archive;
use crate::document;
use crate::git_archive;
use crate::git_archive::{
    GitArchive, GitArchiveError, GitArchiveErrorView, GitArchiveView, SourceArchiveOverride,
};
use crate::lockfile;
use crate::lockfile::{LockError, LockErrorView, LockedVersions};
use crate::text;
use crate::version;
use crate::version::{Version, VersionView};

verus! {

/// What to do about dependency ranges that no single capability covers.
#[derive(Clone, Copy, Debug, Eq, PartialEq, Structural)]
pub enum RangeCapabilityPolicy {
    Allow,
    Warn,
    Error,
}

/// Options of a run. `P` is the type of paths.
#[derive(Debug)]
pub struct PackageExecuteArgs<P> {
    pub changelog_ready: bool,
    pub copyright_guess_harder: bool,
    pub no_overlay_write_back: bool,
    pub with_spdx: bool,
    pub lockfile: Option<P>,
    pub lockfile_deps: Option<LockedVersions>,
}

/// Where the manifest is.
#[derive(Clone, Copy, Debug, Eq, PartialEq, Structural)]
pub enum ManifestLocation {
    /// The given path is the manifest.
    GivenFile,
    /// The manifest is `Cargo.toml` in the given directory.
    InDirectory,
}

/// Where the packaging configuration is.
#[derive(Clone, Copy, Debug, Eq, PartialEq, Structural)]
pub enum ConfigLocation {
    /// `takopack.toml` beside the manifest.
    BesideManifest,
    /// The configuration that is used without one.
    Default,
}

/// What has to be done next.
#[derive(Debug)]
pub enum Stage {
    /// Resolve the given path and look at what it is.
    ResolvePath,
    /// Make a crate that stands in for the one of the manifest.
    Materialize(ManifestLocation),
    /// Load the configuration and the crate.
    LoadCrate(ConfigLocation),
    /// Read the lockfile, for the crate of this name and version.
    ReadLockfile(String, Version),
    /// Read the given copy of the archive.
    ReadArchive(GitArchive),
    /// Download the archive.
    DownloadArchive(GitArchive),
    /// Audit the ranges of the crate's dependencies.
    AuditRanges,
    /// Report the warnings at these positions.
    ReportRanges(Vec<usize>),
    /// Create the output directory and generate the spec file.
    Prepare,
    /// Copy the spec file to the output directory.
    SaveSpec,
    Done,
}

/// What a resolved path is.
#[derive(Debug)]
pub struct PathFacts {
    pub is_file: bool,
    pub extension: Option<String>,
    pub is_dir: bool,
    /// Whether there is a `Cargo.toml` in the directory.
    pub has_manifest: bool,
}

/// What came of a stage.
#[derive(Debug)]
pub enum Event {
    PathResolved(PathFacts),
    /// The crate was made; it has a configuration of its own or not.
    Materialized(bool),
    /// The crate was loaded; it has this name and version.
    CrateLoaded(String, Version),
    /// The text of the lockfile.
    LockfileRead(String),
    /// The bytes of the archive.
    ArchiveFetched(Vec<u8>),
    /// The dependencies that the audit warns of, in order.
    RangesAudited(Vec<String>),
    /// The warnings were reported; they are fatal or not.
    RangesReported(bool),
    /// The spec file was generated; it is where it should be or not.
    Prepared(bool),
    SpecSaved,
}

/// Why a run ends early.
#[derive(Debug)]
pub enum LocalError {
    /// A source archive was given without a lockfile.
    SourceArchiveWithoutLockfile,
    /// The given file is no `.toml` file.
    NotTomlFile,
    /// The given directory has no `Cargo.toml`.
    ManifestMissing,
    /// The given path is neither a file nor a directory.
    InvalidPath,
    Lockfile(LockError),
    GitArchive(GitArchiveError),
    RangeAuditFailed,
    SpecMissing,
    /// The event does not belong to the stage.
    OutOfOrder,
}

/// The mathematical content of a [`LocalError`].
pub enum LocalErrorView {
    SourceArchiveWithoutLockfile,
    NotTomlFile,
    ManifestMissing,
    InvalidPath,
    Lockfile(LockErrorView),
    GitArchive(GitArchiveErrorView),
    RangeAuditFailed,
    SpecMissing,
    OutOfOrder,
}

impl View for LocalError {
    type V = LocalErrorView;

    open spec fn view(&self) -> LocalErrorView {
        match self {
            LocalError::SourceArchiveWithoutLockfile => {
                LocalErrorView::SourceArchiveWithoutLockfile
            },
            LocalError::NotTomlFile => LocalErrorView::NotTomlFile,
            LocalError::ManifestMissing => LocalErrorView::ManifestMissing,
            LocalError::InvalidPath => LocalErrorView::InvalidPath,
            LocalError::Lockfile(e) => LocalErrorView::Lockfile(e@),
            LocalError::GitArchive(e) => LocalErrorView::GitArchive(e@),
            LocalError::RangeAuditFailed => LocalErrorView::RangeAuditFailed,
            LocalError::SpecMissing => LocalErrorView::SpecMissing,
            LocalError::OutOfOrder => LocalErrorView::OutOfOrder,
        }
    }
}

/// One run of packaging a local crate. `P` is the type of paths.
#[derive(Debug)]
pub struct LocalPackage<P> {
    pub path: P,
    pub output_dir: Option<P>,
    pub args: PackageExecuteArgs<P>,
    pub policy: RangeCapabilityPolicy,
    /// A copy of the source archive that is already at hand.
    pub source_archive: Option<P>,
    /// What the spec file says of the source, if it is not a crates.io package.
    pub source_override: Option<SourceArchiveOverride>,
    pub stage: Stage,
}

/// The versions that a run has for its dependencies.
pub open spec fn locked(deps: Option<LockedVersions>) -> Option<Map<Seq<char>, VersionView>> {
    match deps {
        Some(versions) => Some(versions@),
        None => None,
    }
}

impl<P> LocalPackage<P> {
    /// How far a run is.
    pub open spec fn rank(self) -> int {
        match self.stage {
            Stage::ResolvePath => 0,
            Stage::Materialize(_) => 1,
            Stage::LoadCrate(_) => 2,
            Stage::ReadLockfile(_, _) => 3,
            Stage::ReadArchive(_) => 4,
            Stage::DownloadArchive(_) => 4,
            Stage::AuditRanges => 5,
            Stage::ReportRanges(_) => 6,
            Stage::Prepare => 7,
            Stage::SaveSpec => 8,
            Stage::Done => 9,
        }
    }

    /// What holds of every run: a given archive comes with a lockfile and is
    /// described before the spec file is generated, and a lockfile or an
    /// archive is only asked for where it was given.
    pub open spec fn wf(self) -> bool {
        &&& self.source_archive is Some ==> self.args.lockfile is Some
        &&& self.source_override is Some ==> self.args.lockfile is Some
        &&& self.rank() <= 4 ==> self.source_override is None
        &&& self.rank() >= 5 && self.source_archive is Some ==> self.source_override is Some
        &&& self.stage is ReadLockfile ==> self.args.lockfile is Some
        &&& self.stage is ReadArchive ==> self.source_archive is Some
        &&& self.stage is DownloadArchive ==> self.source_archive is None
            && self.args.lockfile is Some
        &&& self.stage is AuditRanges || self.stage is ReportRanges ==> self.policy
            != RangeCapabilityPolicy::Allow
    }
}

/// Where the manifest is that a resolved path stands for.
pub open spec fn located(facts: PathFacts) -> Result<ManifestLocation, LocalErrorView> {
    if facts.is_file {
        match facts.extension {
            Some(found) => if found@ == "toml"@ {
                Ok(ManifestLocation::GivenFile)
            } else {
                Err(LocalErrorView::NotTomlFile)
            },
            None => Err(LocalErrorView::NotTomlFile),
        }
    } else if facts.is_dir {
        if facts.has_manifest {
            Ok(ManifestLocation::InDirectory)
        } else {
            Err(LocalErrorView::ManifestMissing)
        }
    } else {
        Err(LocalErrorView::InvalidPath)
    }
}

/// What follows once the sources are known.
pub open spec fn audit_stage(policy: RangeCapabilityPolicy) -> Stage {
    if policy == RangeCapabilityPolicy::Allow {
        Stage::Prepare
    } else {
        Stage::AuditRanges
    }
}

/// Whether the lockfile settles the version of a dependency, under its own
/// name or with dashes for underscores.
pub open spec fn is_settled(
    deps: Option<Map<Seq<char>, VersionView>>,
    dependency: Seq<char>,
) -> bool {
    match deps {
        Some(versions) => versions.contains_key(dependency) || versions.contains_key(
            text::replaced(dependency, '_', '-'),
        ),
        None => false,
    }
}

/// Whether `kept` are the positions of the dependencies that the lockfile does
/// not settle, in order.
pub open spec fn is_unsettled(
    deps: Option<Map<Seq<char>, VersionView>>,
    dependencies: Seq<Seq<char>>,
    kept: Seq<usize>,
) -> bool {
    &&& forall|i: int, j: int| 0 <= i < j < kept.len() ==> kept[i] < kept[j]
    &&& forall|k: int|
        0 <= k < kept.len() ==> (#[trigger] kept[k]) < dependencies.len() && !is_settled(
            deps,
            dependencies[kept[k] as int],
        )
    &&& forall|i: int|
        0 <= i < dependencies.len() && !is_settled(deps, #[trigger] dependencies[i])
            ==> exists|k: int| 0 <= k < kept.len() && #[trigger] kept[k] == i
}

/// What the lockfile makes of a run.
pub open spec fn lockfile_outcome<P>(
    before: LocalPackage<P>,
    name: Seq<char>,
    written: Seq<char>,
    lock: document::TomlView,
    r: Result<LocalPackage<P>, LocalError>,
) -> bool {
    match lockfile::locked_dependencies_of(lock, name, written) {
        Err(fault) => r matches Err(e) && e@ == LocalErrorView::Lockfile(fault),
        Ok(deps) => match git_archive::git_archive_of(
            lock,
            name,
            written,
            before.source_archive is Some,
        ) {
            Err(fault) => r matches Err(e) && e@ == LocalErrorView::GitArchive(fault),
            Ok(found) => {
                &&& r matches Ok(after)
                &&& locked(after.args.lockfile_deps) == deps
                &&& after.args == (PackageExecuteArgs {
                    lockfile_deps: after.args.lockfile_deps,
                    ..before.args
                })
                &&& after == (LocalPackage { args: after.args, stage: after.stage, ..before })
                &&& match found {
                    None => after.stage == audit_stage(before.policy),
                    Some(fetched) => if before.source_archive is Some {
                        after.stage matches Stage::ReadArchive(a) && a@ == fetched
                    } else {
                        after.stage matches Stage::DownloadArchive(a) && a@ == fetched
                    },
                }
            },
        },
    }
}

/// What the bytes of the archive make of a run.
pub open spec fn archive_outcome<P>(
    before: LocalPackage<P>,
    fetched: GitArchiveView,
    bytes: Seq<u8>,
    r: Result<LocalPackage<P>, LocalError>,
) -> bool {
    match archive::archive_top_level(bytes) {
        Err(fault) => r matches Err(e) && e@ == LocalErrorView::GitArchive(
            GitArchiveErrorView::Archive(fault),
        ),
        Ok(prep_dir) => match git_archive::override_of(
            fetched,
            archive::sha256(bytes),
            prep_dir,
        ) {
            Err(fault) => r matches Err(e) && e@ == LocalErrorView::GitArchive(fault),
            Ok(described) => {
                &&& r matches Ok(after)
                &&& after.source_override matches Some(found) && found@ == described
                &&& after == (LocalPackage {
                    source_override: after.source_override,
                    stage: audit_stage(before.policy),
                    ..before
                })
            },
        },
    }
}

/// What an event makes of a run.
pub open spec fn outcome<P>(
    before: LocalPackage<P>,
    event: Event,
    r: Result<LocalPackage<P>, LocalError>,
) -> bool {
    match (before.stage, event) {
        (Stage::ResolvePath, Event::PathResolved(facts)) => match located(facts) {
            Ok(location) => r == Ok::<_, LocalError>(
                LocalPackage { stage: Stage::Materialize(location), ..before },
            ),
            Err(fault) => r matches Err(e) && e@ == fault,
        },
        (Stage::Materialize(_), Event::Materialized(has_config)) => r == Ok::<_, LocalError>(
            LocalPackage {
                stage: Stage::LoadCrate(
                    if has_config {
                        ConfigLocation::BesideManifest
                    } else {
                        ConfigLocation::Default
                    },
                ),
                ..before
            },
        ),
        (Stage::LoadCrate(_), Event::CrateLoaded(name, version)) => r == Ok::<_, LocalError>(
            LocalPackage {
                stage: if before.args.lockfile is Some {
                    Stage::ReadLockfile(name, version)
                } else {
                    audit_stage(before.policy)
                },
                ..before
            },
        ),
        (Stage::ReadLockfile(name, version), Event::LockfileRead(written)) => {
            match document::toml_document(written@) {
                Err(fault) => r matches Err(e) && e@ == LocalErrorView::Lockfile(
                    LockErrorView::Syntax(fault),
                ),
                Ok(lock) => lockfile_outcome(
                    before,
                    name@,
                    version::version_text(version@),
                    lock,
                    r,
                ),
            }
        },
        (Stage::ReadArchive(fetched), Event::ArchiveFetched(bytes)) => archive_outcome(
            before,
            fetched@,
            bytes@,
            r,
        ),
        (Stage::DownloadArchive(fetched), Event::ArchiveFetched(bytes)) => archive_outcome(
            before,
            fetched@,
            bytes@,
            r,
        ),
        (Stage::AuditRanges, Event::RangesAudited(dependencies)) => {
            &&& r matches Ok(after)
            &&& after.stage matches Stage::ReportRanges(kept) && is_unsettled(
                locked(before.args.lockfile_deps),
                text::texts(dependencies@),
                kept@,
            )
            &&& after == (LocalPackage { stage: after.stage, ..before })
        },
        (Stage::ReportRanges(_), Event::RangesReported(fatal)) => if fatal {
            r matches Err(e) && e@ is RangeAuditFailed
        } else {
            r == Ok::<_, LocalError>(LocalPackage { stage: Stage::Prepare, ..before })
        },
        (Stage::Prepare, Event::Prepared(spec_exists)) => if spec_exists {
            r == Ok::<_, LocalError>(LocalPackage { stage: Stage::SaveSpec, ..before })
        } else {
            r matches Err(e) && e@ is SpecMissing
        },
        (Stage::SaveSpec, Event::SpecSaved) => r == Ok::<_, LocalError>(
            LocalPackage { stage: Stage::Done, ..before },
        ),
        _ => r matches Err(e) && e@ is OutOfOrder,
    }
}

/// Starts to package the crate at `path`.
pub fn process_local_package<P>(
    path: P,
    output_dir: Option<P>,
    finish_args: PackageExecuteArgs<P>,
    range_capability_policy: RangeCapabilityPolicy,
) -> (r: Result<LocalPackage<P>, LocalError>)
    ensures
        r == Ok::<_, LocalError>(
            (LocalPackage {
                path,
                output_dir,
                args: finish_args,
                policy: range_capability_policy,
                source_archive: None,
                source_override: None,
                stage: Stage::ResolvePath,
            }),
        ),
        r->Ok_0.wf(),
{
    process_local_package_with_source(
        path,
        output_dir,
        finish_args,
        range_capability_policy,
        None,
    )
}

/// Starts to package the crate at `path` with the exact dependency versions of
/// a lockfile.
pub fn process_local_package_with_lockfile<P>(
    path: P,
    output_dir: Option<P>,
    finish_args: PackageExecuteArgs<P>,
    range_capability_policy: RangeCapabilityPolicy,
    lockfile: Option<P>,
) -> (r: Result<LocalPackage<P>, LocalError>)
    ensures
        r == Ok::<_, LocalError>(
            (LocalPackage {
                path,
                output_dir,
                args: (PackageExecuteArgs { lockfile, ..finish_args }),
                policy: range_capability_policy,
                source_archive: None,
                source_override: None,
                stage: Stage::ResolvePath,
            }),
        ),
        r->Ok_0.wf(),
{
    let mut finish_args = finish_args;
    finish_args.lockfile = lockfile;
    process_local_package_with_source(
        path,
        output_dir,
        finish_args,
        range_capability_policy,
        None,
    )
}

/// Starts to package the crate at `path`, whose Git source is recovered from a
/// lockfile. `source_archive` is a copy of its archive; without one the archive
/// is downloaded.
pub fn process_local_package_with_source<P>(
    path: P,
    output_dir: Option<P>,
    finish_args: PackageExecuteArgs<P>,
    range_capability_policy: RangeCapabilityPolicy,
    source_archive: Option<P>,
) -> (r: Result<LocalPackage<P>, LocalError>)
    ensures
        match r {
            Ok(package) => {
                &&& !(source_archive is Some && finish_args.lockfile is None)
                &&& package == (LocalPackage {
                    path,
                    output_dir,
                    args: finish_args,
                    policy: range_capability_policy,
                    source_archive,
                    source_override: None,
                    stage: Stage::ResolvePath,
                })
                &&& package.wf()
            },
            Err(e) => source_archive is Some && finish_args.lockfile is None
                && e@ is SourceArchiveWithoutLockfile,
        },
{
    if source_archive.is_some() && finish_args.lockfile.is_none() {
        return Err(LocalError::SourceArchiveWithoutLockfile);
    }
    Ok(
        LocalPackage {
            path,
            output_dir,
            args: finish_args,
            policy: range_capability_policy,
            source_archive,
            source_override: None,
            stage: Stage::ResolvePath,
        },
    )
}

/// Where the manifest is that a resolved path stands for.
pub fn locate_manifest(facts: &PathFacts) -> (r: Result<ManifestLocation, LocalError>)
    ensures
        match r {
            Ok(location) => located(*facts) == Ok::<_, LocalErrorView>(location),
            Err(e) => located(*facts) == Err::<ManifestLocation, _>(e@),
        },
{
    if facts.is_file {
        match &facts.extension {
            Some(found) => if text::same_text(found.as_str(), "toml") {
                Ok(ManifestLocation::GivenFile)
            } else {
                Err(LocalError::NotTomlFile)
            },
            None => Err(LocalError::NotTomlFile),
        }
    } else if facts.is_dir {
        if facts.has_manifest {
            Ok(ManifestLocation::InDirectory)
        } else {
            Err(LocalError::ManifestMissing)
        }
    } else {
        Err(LocalError::InvalidPath)
    }
}

/// What follows once the sources are known.
fn stage_after_sources(policy: RangeCapabilityPolicy) -> (r: Stage)
    ensures
        r == audit_stage(policy),
{
    if policy == RangeCapabilityPolicy::Allow {
        Stage::Prepare
    } else {
        Stage::AuditRanges
    }
}

/// Whether the lockfile settles the version of a dependency.
pub fn settled_by_lockfile(deps: &Option<LockedVersions>, dependency: &str) -> (r: bool)
    ensures
        r == is_settled(locked(*deps), dependency@),
{
    match deps {
        Some(versions) => {
            let dashed = text::replace_char(dependency, '_', '-');
            versions.contains(dependency) || versions.contains(dashed.as_str())
        },
        None => false,
    }
}

/// The positions of the dependencies that the lockfile does not settle.
pub fn unsettled_ranges(deps: &Option<LockedVersions>, dependencies: &Vec<String>) -> (r: Vec<
    usize,
>)
    ensures
        is_unsettled(locked(*deps), text::texts(dependencies@), r@),
{
    let ghost all = text::texts(dependencies@);
    let mut kept: Vec<usize> = Vec::new();
    let mut i: usize = 0;
    while i < dependencies.len()
        invariant
            i <= dependencies.len(),
            all == text::texts(dependencies@),
            forall|a: int, b: int| 0 <= a < b < kept@.len() ==> kept@[a] < kept@[b],
            forall|k: int|
                0 <= k < kept@.len() ==> (#[trigger] kept@[k]) < i && !is_settled(
                    locked(*deps),
                    all[kept@[k] as int],
                ),
            forall|j: int|
                0 <= j < i && !is_settled(locked(*deps), #[trigger] all[j]) ==> exists|k: int|
                    0 <= k < kept@.len() && #[trigger] kept@[k] == j,
        decreases dependencies.len() - i,
    {
        let ghost before = kept@;
        assert(all[i as int] == dependencies@[i as int]@);
        if !settled_by_lockfile(deps, dependencies[i].as_str()) {
            kept.push(i);
            assert forall|j: int|
                0 <= j < i + 1 && !is_settled(locked(*deps), #[trigger] all[j]) implies exists|
                k: int,
            | 0 <= k < kept@.len() && #[trigger] kept@[k] == j by {
                if j < i {
                    let k = choose|k: int| 0 <= k < before.len() && #[trigger] before[k] == j;
                    assert(kept@[k] == j);
                } else {
                    assert(kept@[before.len() as int] == j);
                }
            }
        }
        i += 1;
    }
    kept
}

impl<P> LocalPackage<P> {
    /// Takes in the lockfile's text.
    fn take_lockfile(self, name: &str, version: &Version, written: &str) -> (r: Result<
        LocalPackage<P>,
        LocalError,
    >)
        ensures
            match document::toml_document(written@) {
                Err(fault) => r matches Err(e) && e@ == LocalErrorView::Lockfile(
                    LockErrorView::Syntax(fault),
                ),
                Ok(lock) => lockfile_outcome(
                    self,
                    name@,
                    version::version_text(version@),
                    lock,
                    r,
                ),
            },
    {
        let mut package = self;
        let version_text = version.to_text();
        match lockfile::lockfile_dependencies_for_package(written, name, version_text.as_str()) {
            Ok(deps) => {
                package.args.lockfile_deps = deps;
            },
            Err(e) => {
                return Err(LocalError::Lockfile(e));
            },
        }
        let given = package.source_archive.is_some();
        match git_archive::git_archive_source_from_lockfile(written, name, version, given) {
            Ok(Some(fetched)) => {
                package.stage = if given {
                    Stage::ReadArchive(fetched)
                } else {
                    Stage::DownloadArchive(fetched)
                };
            },
            Ok(None) => {
                package.stage = stage_after_sources(package.policy);
            },
            Err(e) => {
                return Err(LocalError::GitArchive(e));
            },
        }
        Ok(package)
    }

    /// Takes in the bytes of the archive.
    fn take_archive(self, fetched: GitArchive, bytes: &Vec<u8>) -> (r: Result<
        LocalPackage<P>,
        LocalError,
    >)
        ensures
            archive_outcome(self, fetched@, bytes@, r),
    {
        match git_archive::source_archive_override(fetched, bytes.as_slice()) {
            Ok(described) => {
                let stage = stage_after_sources(self.policy);
                let mut package = self;
                package.source_override = Some(described);
                package.stage = stage;
                Ok(package)
            },
            Err(e) => Err(LocalError::GitArchive(e)),
        }
    }

    /// Takes in what came of the current stage, and goes on to the next.
    pub fn advance(self, event: Event) -> (r: Result<LocalPackage<P>, LocalError>)
        ensures
            outcome(self, event, r),
            self.wf() && r is Ok ==> r->Ok_0.wf(),
    {
        let mut package = self;
        let mut stage = Stage::Done;
        core::mem::swap(&mut stage, &mut package.stage);
        match (stage, event) {
            (Stage::ResolvePath, Event::PathResolved(facts)) => {
                match locate_manifest(&facts) {
                    Ok(location) => {
                        package.stage = Stage::Materialize(location);
                        Ok(package)
                    },
                    Err(e) => Err(e),
                }
            },
            (Stage::Materialize(_), Event::Materialized(has_config)) => {
                package.stage = Stage::LoadCrate(
                    if has_config {
                        ConfigLocation::BesideManifest
                    } else {
                        ConfigLocation::Default
                    },
                );
                Ok(package)
            },
            (Stage::LoadCrate(_), Event::CrateLoaded(name, version)) => {
                package.stage = if package.args.lockfile.is_some() {
                    Stage::ReadLockfile(name, version)
                } else {
                    stage_after_sources(package.policy)
                };
                Ok(package)
            },
            (Stage::ReadLockfile(name, version), Event::LockfileRead(written)) => {
                package.take_lockfile(name.as_str(), &version, written.as_str())
            },
            (Stage::ReadArchive(fetched), Event::ArchiveFetched(bytes)) => {
                package.take_archive(fetched, &bytes)
            },
            (Stage::DownloadArchive(fetched), Event::ArchiveFetched(bytes)) => {
                package.take_archive(fetched, &bytes)
            },
            (Stage::AuditRanges, Event::RangesAudited(dependencies)) => {
                let kept = unsettled_ranges(&package.args.lockfile_deps, &dependencies);
                package.stage = Stage::ReportRanges(kept);
                Ok(package)
            },
            (Stage::ReportRanges(_), Event::RangesReported(fatal)) => {
                if fatal {
                    Err(LocalError::RangeAuditFailed)
                } else {
                    package.stage = Stage::Prepare;
                    Ok(package)
                }
            },
            (Stage::Prepare, Event::Prepared(spec_exists)) => {
                if spec_exists {
                    package.stage = Stage::SaveSpec;
                    Ok(package)
                } else {
                    Err(LocalError::SpecMissing)
                }
            },
            (Stage::SaveSpec, Event::SpecSaved) => {
                package.stage = Stage::Done;
                Ok(package)
            },
            _ => Err(LocalError::OutOfOrder),
        }
    }
}

/// Whether `runs` are the states of one run that takes in `events`, from its
/// start on.
pub open spec fn is_run<P>(runs: Seq<LocalPackage<P>>, events: Seq<Event>) -> bool {
    &&& runs.len() == events.len() + 1
    &&& runs[0].stage is ResolvePath
    &&& runs[0].wf()
    &&& forall|i: int|
        0 <= i < events.len() ==> outcome(
            runs[i],
            #[trigger] events[i],
            Ok::<_, LocalError>(runs[i + 1]),
        )
}

/// Each event that does not end a run takes it further.
pub proof fn law_events_make_progress<P>(
    before: LocalPackage<P>,
    event: Event,
    after: LocalPackage<P>,
)
    requires
        outcome(before, event, Ok::<_, LocalError>(after)),
    ensures
        before.rank() < after.rank() <= 9,
{
}

/// A run ends after at most nine events.
pub proof fn law_runs_end<P>(runs: Seq<LocalPackage<P>>, events: Seq<Event>)
    requires
        is_run(runs, events),
    ensures
        events.len() <= runs.last().rank() <= 9,
    decreases events.len(),
{
    if events.len() > 0 {
        lemma_shorter_run(runs, events);
        law_runs_end(runs.drop_last(), events.drop_last());
        law_events_make_progress(
            runs.drop_last().last(),
            events.last(),
            runs.last(),
        );
    }
}

/// A run stays well-formed and keeps what was asked for: the path, the output
/// directory, the policy, the given archive and the options, but for the
/// locked versions.
pub proof fn law_runs_keep_the_request<P>(runs: Seq<LocalPackage<P>>, events: Seq<Event>)
    requires
        is_run(runs, events),
    ensures
        runs.last().wf(),
        runs.last().path == runs[0].path,
        runs.last().output_dir == runs[0].output_dir,
        runs.last().policy == runs[0].policy,
        runs.last().source_archive == runs[0].source_archive,
        runs.last().args == (PackageExecuteArgs {
            lockfile_deps: runs.last().args.lockfile_deps,
            ..runs[0].args
        }),
    decreases events.len(),
{
    if events.len() > 0 {
        lemma_shorter_run(runs, events);
        law_runs_keep_the_request(runs.drop_last(), events.drop_last());
        lemma_stays_wf(runs.drop_last().last(), events.last(), runs.last());
    }
}

/// Under any policy but `Allow` the spec file is generated only after the
/// warnings were reported and found not fatal.
pub proof fn law_audit_comes_first<P>(runs: Seq<LocalPackage<P>>, events: Seq<Event>)
    requires
        is_run(runs, events),
        runs[0].policy != RangeCapabilityPolicy::Allow,
        runs.last().stage is Prepare || runs.last().stage is SaveSpec || runs.last().stage is Done,
    ensures
        exists|i: int| 0 <= i < events.len() && #[trigger] events[i] == Event::RangesReported(false),
    decreases events.len(),
{
    if events.len() > 0 {
        lemma_shorter_run(runs, events);
        let front = events.drop_last();
        let before = runs.drop_last().last();
        law_runs_keep_the_request(runs.drop_last(), front);
        if runs.last().stage is Prepare {
            assert(events[events.len() - 1] == Event::RangesReported(false));
        } else {
            law_audit_comes_first(runs.drop_last(), front);
            let i = choose|i: int|
                0 <= i < front.len() && #[trigger] front[i] == Event::RangesReported(false);
            assert(events[i] == Event::RangesReported(false));
        }
    }
}

/// Whether `deps` are the versions that the lockfile `written` selects for the
/// loaded crate.
pub open spec fn selected_from<P>(
    runs: Seq<LocalPackage<P>>,
    events: Seq<Event>,
    i: int,
    deps: Option<LockedVersions>,
) -> bool {
    &&& runs[i].stage matches Stage::ReadLockfile(name, version)
    &&& events[i] matches Event::LockfileRead(written)
    &&& document::toml_document(written@) matches Ok(lock)
    &&& lockfile::locked_dependencies_of(lock, name@, version::version_text(version@)) == Ok::<
        _,
        LockErrorView,
    >(locked(deps))
}

/// A run with a lockfile audits and generates with the versions that the
/// lockfile selects for the loaded crate.
pub proof fn law_lockfile_versions_are_used<P>(runs: Seq<LocalPackage<P>>, events: Seq<Event>)
    requires
        is_run(runs, events),
        runs[0].args.lockfile is Some,
        runs.last().rank() >= 4,
    ensures
        exists|i: int|
            0 <= i < events.len() && #[trigger] selected_from(
                runs,
                events,
                i,
                runs.last().args.lockfile_deps,
            ),
    decreases events.len(),
{
    if events.len() > 0 {
        lemma_shorter_run(runs, events);
        let front = events.drop_last();
        let earlier = runs.drop_last();
        let last = events.len() - 1;
        assert(earlier.last() == runs[last]);
        assert(events.last() == events[last]);
        law_runs_keep_the_request(earlier, front);
        if earlier.last().rank() >= 4 {
            law_lockfile_versions_are_used(earlier, front);
            let i = choose|i: int|
                0 <= i < front.len() && #[trigger] selected_from(
                    earlier,
                    front,
                    i,
                    earlier.last().args.lockfile_deps,
                );
            assert(earlier[i] == runs[i] && front[i] == events[i]);
            assert(selected_from(runs, events, i, runs.last().args.lockfile_deps));
        } else {
            assert(selected_from(runs, events, last, runs.last().args.lockfile_deps));
        }
    }
}

/// Whether `described` is what the bytes that were fetched at step `i` say of
/// the archive that was to be fetched there.
pub open spec fn described_from<P>(
    runs: Seq<LocalPackage<P>>,
    events: Seq<Event>,
    i: int,
    described: Option<SourceArchiveOverride>,
) -> bool {
    &&& events[i] matches Event::ArchiveFetched(bytes)
    &&& archive::archive_top_level(bytes@) matches Ok(prep_dir)
    &&& described matches Some(found)
    &&& match runs[i].stage {
        Stage::ReadArchive(fetched) => runs[i].source_archive is Some
            && git_archive::override_of(fetched@, archive::sha256(bytes@), prep_dir) == Ok::<
            _,
            GitArchiveErrorView,
        >(found@),
        Stage::DownloadArchive(fetched) => runs[i].source_archive is None
            && git_archive::override_of(fetched@, archive::sha256(bytes@), prep_dir) == Ok::<
            _,
            GitArchiveErrorView,
        >(found@),
        _ => false,
    }
}

/// What a run says of its source comes from the archive that it fetched: the
/// given copy, where there is one, and else the downloaded archive.
pub proof fn law_source_is_described_by_its_archive<P>(
    runs: Seq<LocalPackage<P>>,
    events: Seq<Event>,
)
    requires
        is_run(runs, events),
        runs.last().source_override is Some,
    ensures
        exists|i: int|
            0 <= i < events.len() && #[trigger] described_from(
                runs,
                events,
                i,
                runs.last().source_override,
            ),
    decreases events.len(),
{
    if events.len() > 0 {
        lemma_shorter_run(runs, events);
        let front = events.drop_last();
        let earlier = runs.drop_last();
        let last = events.len() - 1;
        assert(earlier.last() == runs[last]);
        assert(events.last() == events[last]);
        law_runs_keep_the_request(earlier, front);
        if earlier.last().source_override is Some {
            law_source_is_described_by_its_archive(earlier, front);
            let i = choose|i: int|
                0 <= i < front.len() && #[trigger] described_from(
                    earlier,
                    front,
                    i,
                    earlier.last().source_override,
                );
            assert(earlier[i] == runs[i] && front[i] == events[i]);
            assert(described_from(runs, events, i, runs.last().source_override));
        } else {
            assert(described_from(runs, events, last, runs.last().source_override));
        }
    }
}

/// A run that was given an archive generates the spec file only with what that
/// archive says of the source.
pub proof fn law_given_archive_is_used<P>(runs: Seq<LocalPackage<P>>, events: Seq<Event>)
    requires
        is_run(runs, events),
        runs[0].source_archive is Some,
        runs.last().rank() >= 5,
    ensures
        exists|i: int|
            0 <= i < events.len() && runs[i].stage is ReadArchive && #[trigger] described_from(
                runs,
                events,
                i,
                runs.last().source_override,
            ),
{
    law_runs_keep_the_request(runs, events);
    law_source_is_described_by_its_archive(runs, events);
    let i = choose|i: int|
        0 <= i < events.len() && #[trigger] described_from(
            runs,
            events,
            i,
            runs.last().source_override,
        );
    lemma_run_up_to(runs, events, i);
    law_runs_keep_the_request(runs.take(i + 1), events.take(i));
}

/// The first states of a run are a run.
proof fn lemma_run_up_to<P>(runs: Seq<LocalPackage<P>>, events: Seq<Event>, n: int)
    requires
        is_run(runs, events),
        0 <= n <= events.len(),
    ensures
        is_run(runs.take(n + 1), events.take(n)),
        runs.take(n + 1)[0] == runs[0],
        runs.take(n + 1).last() == runs[n],
{
    assert forall|i: int| 0 <= i < events.take(n).len() implies outcome(
        runs.take(n + 1)[i],
        #[trigger] events.take(n)[i],
        Ok::<_, LocalError>(runs.take(n + 1)[i + 1]),
    ) by {
        assert(outcome(runs[i], events[i], Ok::<_, LocalError>(runs[i + 1])));
    }
}

/// A run without its last event is a run.
proof fn lemma_shorter_run<P>(runs: Seq<LocalPackage<P>>, events: Seq<Event>)
    requires
        is_run(runs, events),
        events.len() > 0,
    ensures
        is_run(runs.drop_last(), events.drop_last()),
        runs.drop_last()[0] == runs[0],
        outcome(runs.drop_last().last(), events.last(), Ok::<_, LocalError>(runs.last())),
{
    let n = events.len() - 1;
    assert(outcome(runs[n], events[n], Ok::<_, LocalError>(runs[n + 1])));
    assert forall|i: int| 0 <= i < events.drop_last().len() implies outcome(
        runs.drop_last()[i],
        #[trigger] events.drop_last()[i],
        Ok::<_, LocalError>(runs.drop_last()[i + 1]),
    ) by {
        assert(outcome(runs[i], events[i], Ok::<_, LocalError>(runs[i + 1])));
    }
}

/// An event keeps a run well-formed.
proof fn lemma_stays_wf<P>(before: LocalPackage<P>, event: Event, after: LocalPackage<P>)
    requires
        outcome(before, event, Ok::<_, LocalError>(after)),
        before.wf(),
    ensures
        after.wf(),
{
}

} // verus!
