//! Laws of [`crate::local`].
use vstd::prelude::*;

use crate::archive;
use crate::document;
use crate::git_archive;
use crate::git_archive::{GitArchive, GitArchiveErrorView};
use crate::local;
use crate::local::{
    ConfigLocation, Event, LocalError, LocalErrorView, LocalPackage, ManifestLocation,
    PackageExecuteArgs, PathFacts, RangeCapabilityPolicy, Stage,
};
use crate::lockfile;
use crate::lockfile::{LockErrorView, LockedVersions};
use crate::text;
use crate::version;
use crate::version::{Version, VersionView};

verus! {

/// A file is the manifest if its extension is `toml`. A directory has it as
/// `Cargo.toml`. Anything else is refused.
pub proof fn law_located(facts: PathFacts)
    ensures
        facts.is_file ==> match facts.extension {
            Some(found) => if found@ == "toml"@ {
                local::located(facts) == Ok::<_, LocalErrorView>(ManifestLocation::GivenFile)
            } else {
                local::located(facts) == Err::<ManifestLocation, _>(LocalErrorView::NotTomlFile)
            },
            None => local::located(facts) == Err::<ManifestLocation, _>(
                LocalErrorView::NotTomlFile,
            ),
        },
        !facts.is_file && facts.is_dir && facts.has_manifest ==> local::located(facts) == Ok::<
            _,
            LocalErrorView,
        >(ManifestLocation::InDirectory),
        !facts.is_file && facts.is_dir && !facts.has_manifest ==> local::located(facts) == Err::<
            ManifestLocation,
            _,
        >(LocalErrorView::ManifestMissing),
        !facts.is_file && !facts.is_dir ==> local::located(facts) == Err::<ManifestLocation, _>(
            LocalErrorView::InvalidPath,
        ),
{
}

/// A lockfile settles a dependency that it has a version for, under the name
/// as it is or with a dash for each underscore. Without a lockfile nothing is
/// settled.
pub proof fn law_settled(
    versions: Map<Seq<char>, VersionView>,
    dependency: Seq<char>,
    dashed: Seq<char>,
)
    requires
        dashed.len() == dependency.len(),
        forall|i: int|
            0 <= i < dependency.len() ==> #[trigger] dashed[i] == if dependency[i] == '_' {
                '-'
            } else {
                dependency[i]
            },
    ensures
        local::is_settled(Some(versions), dependency) <==> versions.contains_key(dependency)
            || versions.contains_key(dashed),
        !local::is_settled(None, dependency),
{
    assert(text::replaced(dependency, '_', '-') =~= dashed);
}

/// The warnings that are kept are those of dependencies that nothing settles,
/// each once and in order.
pub proof fn law_unsettled(
    deps: Option<Map<Seq<char>, VersionView>>,
    dependencies: Seq<Seq<char>>,
    kept: Seq<usize>,
)
    requires
        local::is_unsettled(deps, dependencies, kept),
    ensures
        forall|i: int, j: int| 0 <= i < j < kept.len() ==> kept[i] < kept[j],
        forall|i: int|
            0 <= i < dependencies.len() ==> (!local::is_settled(deps, #[trigger] dependencies[i])
                <==> exists|k: int| 0 <= k < kept.len() && kept[k] == i),
        forall|k: int| 0 <= k < kept.len() ==> (#[trigger] kept[k]) < dependencies.len(),
{
    assert forall|i: int| 0 <= i < dependencies.len() implies (!local::is_settled(
        deps,
        #[trigger] dependencies[i],
    ) <==> exists|k: int| 0 <= k < kept.len() && kept[k] == i) by {
        if exists|k: int| 0 <= k < kept.len() && kept[k] == i {
            let k = choose|k: int| 0 <= k < kept.len() && kept[k] == i;
            assert(kept[k] == i);
        }
    }
}

/// The audit is left out under the policy `Allow` and under no other.
pub proof fn law_audit_stage()
    ensures
        local::audit_stage(RangeCapabilityPolicy::Allow) == Stage::Prepare,
        local::audit_stage(RangeCapabilityPolicy::Warn) == Stage::AuditRanges,
        local::audit_stage(RangeCapabilityPolicy::Error) == Stage::AuditRanges,
{
}

/// The versions of a run are those that it holds.
pub proof fn law_locked(versions: LockedVersions)
    ensures
        local::locked(Some(versions)) == Some(versions@),
        local::locked(None) is None,
{
}

/// A resolved path leads to the manifest or to its error.
pub proof fn law_path_resolved<P>(
    before: LocalPackage<P>,
    facts: PathFacts,
    r: Result<LocalPackage<P>, LocalError>,
)
    requires
        before.stage == Stage::ResolvePath,
    ensures
        local::outcome(before, Event::PathResolved(facts), r) <==> match local::located(facts) {
            Ok(location) => r == Ok::<_, LocalError>(
                LocalPackage { stage: Stage::Materialize(location), ..before },
            ),
            Err(fault) => r is Err && r->Err_0@ == fault,
        },
{
}

/// A crate with a configuration of its own is loaded with it, and another with
/// the default one.
pub proof fn law_materialized<P>(
    before: LocalPackage<P>,
    location: ManifestLocation,
    has_config: bool,
    r: Result<LocalPackage<P>, LocalError>,
)
    requires
        before.stage == Stage::Materialize(location),
    ensures
        has_config ==> (local::outcome(before, Event::Materialized(has_config), r) <==> r == Ok::<
            _,
            LocalError,
        >(
            LocalPackage { stage: Stage::LoadCrate(ConfigLocation::BesideManifest), ..before },
        )),
        !has_config ==> (local::outcome(before, Event::Materialized(has_config), r) <==> r == Ok::<
            _,
            LocalError,
        >(LocalPackage { stage: Stage::LoadCrate(ConfigLocation::Default), ..before })),
{
}

/// A loaded crate is looked up in the lockfile under its own name and version.
/// Without a lockfile the audit is next.
pub proof fn law_crate_loaded<P>(
    before: LocalPackage<P>,
    location: ConfigLocation,
    name: String,
    version: Version,
    r: Result<LocalPackage<P>, LocalError>,
)
    requires
        before.stage == Stage::LoadCrate(location),
    ensures
        before.args.lockfile is Some ==> (local::outcome(
            before,
            Event::CrateLoaded(name, version),
            r,
        ) <==> r == Ok::<_, LocalError>(
            LocalPackage { stage: Stage::ReadLockfile(name, version), ..before },
        )),
        before.args.lockfile is None ==> (local::outcome(
            before,
            Event::CrateLoaded(name, version),
            r,
        ) <==> r == Ok::<_, LocalError>(
            LocalPackage { stage: local::audit_stage(before.policy), ..before },
        )),
{
}

/// A lockfile that is read gives the run the versions that it selects for the
/// crate, and the archive that it has for it: the given copy is read, and
/// without one the archive is downloaded. Its errors end the run, those of the
/// versions first.
pub proof fn law_lockfile_read<P>(
    before: LocalPackage<P>,
    name: String,
    version: Version,
    written: String,
    r: Result<LocalPackage<P>, LocalError>,
)
    requires
        before.stage == Stage::ReadLockfile(name, version),
        local::outcome(before, Event::LockfileRead(written), r),
    ensures
        match document::toml_document(written@) {
            Err(fault) => r is Err && r->Err_0@ == LocalErrorView::Lockfile(
                LockErrorView::Syntax(fault),
            ),
            Ok(lock) => {
                let v = version::version_text(version@);
                let deps = lockfile::locked_dependencies_of(lock, name@, v);
                let found = git_archive::git_archive_of(
                    lock,
                    name@,
                    v,
                    before.source_archive is Some,
                );
                &&& deps matches Err(fault) ==> r is Err && r->Err_0@ == LocalErrorView::Lockfile(
                    fault,
                )
                &&& deps is Ok ==> (found matches Err(fault) ==> r is Err && r->Err_0@
                    == LocalErrorView::GitArchive(fault))
                &&& deps is Ok && found is Ok ==> {
                    &&& r is Ok
                    &&& match (r->Ok_0.args.lockfile_deps, deps->Ok_0) {
                        (Some(held), Some(selected)) => held@ == selected,
                        (None, None) => true,
                        _ => false,
                    }
                    &&& r->Ok_0 == (LocalPackage {
                        args: PackageExecuteArgs {
                            lockfile_deps: r->Ok_0.args.lockfile_deps,
                            ..before.args
                        },
                        stage: r->Ok_0.stage,
                        ..before
                    })
                    &&& match found->Ok_0 {
                        None => r->Ok_0.stage == local::audit_stage(before.policy),
                        Some(fetched) => match before.source_archive {
                            Some(_) => r->Ok_0.stage is ReadArchive
                                && r->Ok_0.stage->ReadArchive_0@ == fetched,
                            None => r->Ok_0.stage is DownloadArchive
                                && r->Ok_0.stage->DownloadArchive_0@ == fetched,
                        },
                    }
                }
            },
        },
{
}

/// The bytes of an archive describe the source, by their checksum and their
/// top-level directory, or end the run. Where they came from does not matter.
pub proof fn law_archive_fetched<P>(
    before: LocalPackage<P>,
    fetched: GitArchive,
    bytes: Vec<u8>,
    r: Result<LocalPackage<P>, LocalError>,
)
    requires
        before.stage == Stage::ReadArchive(fetched) || before.stage == Stage::DownloadArchive(
            fetched,
        ),
        local::outcome(before, Event::ArchiveFetched(bytes), r),
    ensures
        match archive::archive_top_level(bytes@) {
            Err(fault) => r is Err && r->Err_0@ == LocalErrorView::GitArchive(
                GitArchiveErrorView::Archive(fault),
            ),
            Ok(prep_dir) => match git_archive::override_of(
                fetched@,
                archive::sha256(bytes@),
                prep_dir,
            ) {
                Err(fault) => r is Err && r->Err_0@ == LocalErrorView::GitArchive(fault),
                Ok(described) => {
                    &&& r is Ok
                    &&& r->Ok_0.source_override is Some
                    &&& r->Ok_0.source_override->0@ == described
                    &&& r->Ok_0 == (LocalPackage {
                        source_override: r->Ok_0.source_override,
                        stage: local::audit_stage(before.policy),
                        ..before
                    })
                },
            },
        },
{
}

/// The warnings of dependencies that the lockfile does not settle are reported.
pub proof fn law_ranges_audited<P>(
    before: LocalPackage<P>,
    dependencies: Vec<String>,
    r: Result<LocalPackage<P>, LocalError>,
)
    requires
        before.stage == Stage::AuditRanges,
        local::outcome(before, Event::RangesAudited(dependencies), r),
    ensures
        r is Ok,
        r->Ok_0 == (LocalPackage { stage: r->Ok_0.stage, ..before }),
        r->Ok_0.stage is ReportRanges,
        forall|i: int, j: int|
            0 <= i < j < r->Ok_0.stage->ReportRanges_0@.len()
                ==> r->Ok_0.stage->ReportRanges_0@[i] < r->Ok_0.stage->ReportRanges_0@[j],
        forall|i: int|
            0 <= i < dependencies@.len() ==> (!local::is_settled(
                local::locked(before.args.lockfile_deps),
                (#[trigger] dependencies@[i])@,
            ) <==> exists|k: int|
                0 <= k < r->Ok_0.stage->ReportRanges_0@.len() && r->Ok_0.stage->ReportRanges_0@[k]
                    == i),
        forall|k: int|
            0 <= k < r->Ok_0.stage->ReportRanges_0@.len()
                ==> (#[trigger] r->Ok_0.stage->ReportRanges_0@[k]) < dependencies@.len(),
{
    let kept = r->Ok_0.stage->ReportRanges_0@;
    let names = text::texts(dependencies@);
    law_unsettled(local::locked(before.args.lockfile_deps), names, kept);
    assert forall|i: int| 0 <= i < dependencies@.len() implies (!local::is_settled(
        local::locked(before.args.lockfile_deps),
        (#[trigger] dependencies@[i])@,
    ) <==> exists|k: int| 0 <= k < kept.len() && kept[k] == i) by {
        assert(names[i] == dependencies@[i]@);
    }
}

/// Fatal warnings end a run, and others do not.
pub proof fn law_ranges_reported<P>(
    before: LocalPackage<P>,
    kept: Vec<usize>,
    r: Result<LocalPackage<P>, LocalError>,
)
    requires
        before.stage == Stage::ReportRanges(kept),
    ensures
        local::outcome(before, Event::RangesReported(true), r) <==> r is Err && r->Err_0@
            == LocalErrorView::RangeAuditFailed,
        local::outcome(before, Event::RangesReported(false), r) <==> r == Ok::<_, LocalError>(
            LocalPackage { stage: Stage::Prepare, ..before },
        ),
{
}

/// A spec file that was generated is saved, which ends the run. A missing one
/// is an error.
pub proof fn law_prepared<P>(
    before: LocalPackage<P>,
    last: LocalPackage<P>,
    r: Result<LocalPackage<P>, LocalError>,
)
    requires
        before.stage == Stage::Prepare,
        last.stage == Stage::SaveSpec,
    ensures
        local::outcome(before, Event::Prepared(true), r) <==> r == Ok::<_, LocalError>(
            LocalPackage { stage: Stage::SaveSpec, ..before },
        ),
        local::outcome(before, Event::Prepared(false), r) <==> r is Err && r->Err_0@
            == LocalErrorView::SpecMissing,
        local::outcome(last, Event::SpecSaved, r) <==> r == Ok::<_, LocalError>(
            LocalPackage { stage: Stage::Done, ..last },
        ),
{
}

/// An event that answers another stage is refused.
pub proof fn law_other_events_are_refused<P>(
    before: LocalPackage<P>,
    event: Event,
    r: Result<LocalPackage<P>, LocalError>,
)
    requires
        !(before.stage is ResolvePath && event is PathResolved),
        !(before.stage is Materialize && event is Materialized),
        !(before.stage is LoadCrate && event is CrateLoaded),
        !(before.stage is ReadLockfile && event is LockfileRead),
        !(before.stage is ReadArchive && event is ArchiveFetched),
        !(before.stage is DownloadArchive && event is ArchiveFetched),
        !(before.stage is AuditRanges && event is RangesAudited),
        !(before.stage is ReportRanges && event is RangesReported),
        !(before.stage is Prepare && event is Prepared),
        !(before.stage is SaveSpec && event is SpecSaved),
    ensures
        local::outcome(before, event, r) <==> r is Err && r->Err_0@ == LocalErrorView::OutOfOrder,
{
}

/// What stands for an error keeps all of it.
pub proof fn law_run_views(error: LocalError)
    ensures
        match error {
            LocalError::SourceArchiveWithoutLockfile => error@
                == LocalErrorView::SourceArchiveWithoutLockfile,
            LocalError::NotTomlFile => error@ == LocalErrorView::NotTomlFile,
            LocalError::ManifestMissing => error@ == LocalErrorView::ManifestMissing,
            LocalError::InvalidPath => error@ == LocalErrorView::InvalidPath,
            LocalError::Lockfile(e) => error@ == LocalErrorView::Lockfile(e@),
            LocalError::GitArchive(e) => error@ == LocalErrorView::GitArchive(e@),
            LocalError::RangeAuditFailed => error@ == LocalErrorView::RangeAuditFailed,
            LocalError::SpecMissing => error@ == LocalErrorView::SpecMissing,
            LocalError::OutOfOrder => error@ == LocalErrorView::OutOfOrder,
        },
{
}

} // verus!
