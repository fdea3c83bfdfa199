use flate2::{write::GzEncoder, Compression};
use tar::{Builder, Header};

use takopack_local::local::{
    locate_manifest, process_local_package, process_local_package_with_lockfile,
    process_local_package_with_source, settled_by_lockfile, unsettled_ranges, ConfigLocation,
    Event, LocalError, LocalPackage, ManifestLocation, PackageExecuteArgs, PathFacts,
    RangeCapabilityPolicy, Stage,
};
use takopack_local::lockfile::{LockError, LockedVersions};
use takopack_local::version::Version;

const COMMIT: &str = "76e849426cc092f84509e31a17027755f67d662a";

fn args(lockfile: Option<&'static str>) -> PackageExecuteArgs<&'static str> {
    PackageExecuteArgs {
        changelog_ready: false,
        copyright_guess_harder: false,
        no_overlay_write_back: false,
        with_spdx: true,
        lockfile,
        lockfile_deps: None,
    }
}

fn version(major: u64, minor: u64, patch: u64) -> Version {
    Version {
        major,
        minor,
        patch,
        pre: String::new(),
        build: String::new(),
    }
}

fn directory() -> Event {
    Event::PathResolved(PathFacts {
        is_file: false,
        extension: None,
        is_dir: true,
        has_manifest: true,
    })
}

/// Takes a run to the point where its crate is loaded.
fn loaded(
    package: LocalPackage<&'static str>,
    name: &str,
    version: Version,
) -> LocalPackage<&'static str> {
    let package = package.advance(directory()).unwrap();
    assert!(matches!(
        package.stage,
        Stage::Materialize(ManifestLocation::InDirectory)
    ));
    let package = package.advance(Event::Materialized(false)).unwrap();
    assert!(matches!(
        package.stage,
        Stage::LoadCrate(ConfigLocation::Default)
    ));
    package
        .advance(Event::CrateLoaded(name.to_string(), version))
        .unwrap()
}

#[test]
fn plain_run() {
    let package = process_local_package(
        "crate",
        Some("out"),
        args(None),
        RangeCapabilityPolicy::Allow,
    )
    .unwrap();
    assert_eq!(package.path, "crate");
    assert_eq!(package.output_dir, Some("out"));
    assert!(package.source_archive.is_none());
    let package = loaded(package, "smoke", version(0, 1, 0));
    assert!(matches!(package.stage, Stage::Prepare));
    assert!(package.args.with_spdx);
    let package = package.advance(Event::Prepared(true)).unwrap();
    assert!(matches!(package.stage, Stage::SaveSpec));
    let package = package.advance(Event::SpecSaved).unwrap();
    assert!(matches!(package.stage, Stage::Done));
    assert!(matches!(
        package.advance(Event::SpecSaved),
        Err(LocalError::OutOfOrder)
    ));
}

#[test]
fn source_archive_requires_lockfile() {
    let start = |lockfile, source_archive| {
        process_local_package_with_source(
            "crate",
            None,
            args(lockfile),
            RangeCapabilityPolicy::Allow,
            source_archive,
        )
    };
    assert!(matches!(
        start(None, Some("a.tar.gz")),
        Err(LocalError::SourceArchiveWithoutLockfile)
    ));
    assert!(start(None, None).is_ok());
    assert!(start(Some("Cargo.lock"), None).is_ok());
    let package = start(Some("Cargo.lock"), Some("a.tar.gz")).unwrap();
    assert_eq!(package.source_archive, Some("a.tar.gz"));
}

#[test]
fn manifests_by_kind_of_path() {
    let facts = |is_file, extension: Option<&str>, is_dir, has_manifest| PathFacts {
        is_file,
        extension: extension.map(str::to_string),
        is_dir,
        has_manifest,
    };
    assert!(matches!(
        locate_manifest(&facts(true, Some("toml"), false, false)),
        Ok(ManifestLocation::GivenFile)
    ));
    assert!(matches!(
        locate_manifest(&facts(true, Some("rs"), false, false)),
        Err(LocalError::NotTomlFile)
    ));
    assert!(matches!(
        locate_manifest(&facts(true, None, false, false)),
        Err(LocalError::NotTomlFile)
    ));
    assert!(matches!(
        locate_manifest(&facts(false, None, true, true)),
        Ok(ManifestLocation::InDirectory)
    ));
    assert!(matches!(
        locate_manifest(&facts(false, None, true, false)),
        Err(LocalError::ManifestMissing)
    ));
    assert!(matches!(
        locate_manifest(&facts(false, None, false, true)),
        Err(LocalError::InvalidPath)
    ));
}

#[test]
fn lockfile_settles_ranges_under_the_error_policy() {
    let package = process_local_package_with_lockfile(
        "crate",
        None,
        args(None),
        RangeCapabilityPolicy::Error,
        Some("Cargo.lock"),
    )
    .unwrap();
    assert_eq!(package.args.lockfile, Some("Cargo.lock"));
    let package = loaded(package, "range_consumer", version(1, 2, 3));
    assert!(matches!(&package.stage, Stage::ReadLockfile(name, v)
        if name == "range_consumer" && *v == version(1, 2, 3)));
    let package = package
        .advance(Event::LockfileRead(
            r#"
version = 4

[[package]]
name = "range_consumer"
version = "1.2.3"
dependencies = [
 "itertools 0.14.0",
]

[[package]]
name = "itertools"
version = "0.10.5"

[[package]]
name = "itertools"
version = "0.14.0"
"#
            .to_string(),
        ))
        .unwrap();
    assert!(matches!(package.stage, Stage::AuditRanges));
    let deps = package.args.lockfile_deps.as_ref().unwrap();
    assert_eq!(deps.get("itertools"), Some(&version(0, 14, 0)));
    let package = package
        .advance(Event::RangesAudited(vec![
            "itertools".to_string(),
            "other".to_string(),
        ]))
        .unwrap();
    assert!(matches!(&package.stage, Stage::ReportRanges(kept) if kept == &[1]));
    let package = package.advance(Event::RangesReported(false)).unwrap();
    assert!(matches!(package.stage, Stage::Prepare));
    assert!(matches!(
        package.advance(Event::Prepared(false)),
        Err(LocalError::SpecMissing)
    ));
}

#[test]
fn fatal_warnings_end_a_run() {
    let package =
        process_local_package("crate", None, args(None), RangeCapabilityPolicy::Error).unwrap();
    let package = loaded(package, "x", version(1, 0, 0));
    assert!(matches!(package.stage, Stage::AuditRanges));
    let package = package
        .advance(Event::RangesAudited(vec!["a".to_string()]))
        .unwrap();
    assert!(matches!(&package.stage, Stage::ReportRanges(kept) if kept == &[0]));
    assert!(matches!(
        package.advance(Event::RangesReported(true)),
        Err(LocalError::RangeAuditFailed)
    ));
}

#[test]
fn settled_with_dashes_for_underscores() {
    let mut versions = LockedVersions::new();
    versions.insert("a-b".to_string(), version(1, 0, 0));
    versions.insert("c_d".to_string(), version(1, 0, 0));
    let deps = Some(versions);
    assert!(settled_by_lockfile(&deps, "a-b"));
    assert!(settled_by_lockfile(&deps, "a_b"));
    assert!(settled_by_lockfile(&deps, "c_d"));
    assert!(!settled_by_lockfile(&deps, "c-d"));
    assert!(!settled_by_lockfile(&None, "a-b"));
    let names: Vec<String> = ["x", "a_b", "c-d", "c_d", "y"]
        .iter()
        .map(|name| name.to_string())
        .collect();
    assert_eq!(unsettled_ranges(&deps, &names), [0, 2, 4]);
    assert_eq!(unsettled_ranges(&None, &names), [0, 1, 2, 3, 4]);
}

#[test]
fn git_source_is_read_or_downloaded() {
    let lock = format!(
        "[[package]]\nname = \"x\"\nversion = \"1.0.0\"\nsource = \"git+https://github.com/o/x#{COMMIT}\"\n"
    );
    let at_lockfile = |source_archive| {
        let package = process_local_package_with_source(
            "crate",
            None,
            args(Some("Cargo.lock")),
            RangeCapabilityPolicy::Allow,
            source_archive,
        )
        .unwrap();
        loaded(package, "x", version(1, 0, 0))
    };
    let read = at_lockfile(Some("x.tar.gz"))
        .advance(Event::LockfileRead(lock.clone()))
        .unwrap();
    assert!(matches!(read.stage, Stage::ReadArchive(_)));
    let downloaded = at_lockfile(None)
        .advance(Event::LockfileRead(lock.clone()))
        .unwrap();
    match &downloaded.stage {
        Stage::DownloadArchive(found) => assert_eq!(
            found.fetch_url,
            format!("https://github.com/o/x/archive/{COMMIT}.tar.gz")
        ),
        stage => panic!("{stage:?}"),
    }
    assert!(matches!(
        downloaded.advance(Event::ArchiveFetched(vec![])),
        Err(LocalError::GitArchive(_))
    ));
    assert!(matches!(
        at_lockfile(None).advance(Event::LockfileRead("[".to_string())),
        Err(LocalError::Lockfile(LockError::Syntax(_)))
    ));
    assert!(matches!(
        at_lockfile(Some("x.tar.gz"))
            .advance(Event::LockfileRead("package = []".to_string())),
        Err(LocalError::GitArchive(_))
    ));
    let unlocked = at_lockfile(None)
        .advance(Event::LockfileRead("package = []".to_string()))
        .unwrap();
    assert!(matches!(unlocked.stage, Stage::Prepare));
    assert!(unlocked.args.lockfile_deps.is_none());
}

#[test]
fn given_archive_describes_the_source() {
    let mut builder = Builder::new(GzEncoder::new(Vec::new(), Compression::default()));
    let mut header = Header::new_gnu();
    header.set_size(0);
    header.set_mode(0o644);
    header.set_cksum();
    builder
        .append_data(&mut header, "harmony-0.0.11/Cargo.toml", &b""[..])
        .unwrap();
    let bytes = builder.into_inner().unwrap().finish().unwrap();

    let package = process_local_package_with_source(
        "crate",
        None,
        args(Some("Cargo.lock")),
        RangeCapabilityPolicy::Warn,
        Some("source.tar.gz"),
    )
    .unwrap();
    let package = loaded(package, "oss-harmony", version(0, 0, 11));
    let lock = format!(
        "[[package]]\nname = \"oss-harmony\"\nversion = \"0.0.11\"\nsource = \"git+https://github.com/oss-harmony/harmony?tag=v0.0.11#{COMMIT}\"\n"
    );
    let package = package.advance(Event::LockfileRead(lock)).unwrap();
    assert!(package.source_override.is_none());
    let package = package.advance(Event::ArchiveFetched(bytes)).unwrap();
    assert!(matches!(package.stage, Stage::AuditRanges));
    let described = package.source_override.as_ref().unwrap();
    assert_eq!(described.prep_dir, "harmony-0.0.11");
    assert_eq!(
        described.source_macros,
        [
            ("git_tag".to_string(), "v0.0.11".to_string()),
            ("git_commit".to_string(), COMMIT.to_string()),
        ]
    );
    let package = package.advance(Event::RangesAudited(Vec::new())).unwrap();
    let package = package.advance(Event::RangesReported(false)).unwrap();
    let package = package.advance(Event::Prepared(true)).unwrap();
    let package = package.advance(Event::SpecSaved).unwrap();
    assert!(matches!(package.stage, Stage::Done));
    assert_eq!(package.source_archive, Some("source.tar.gz"));
}
