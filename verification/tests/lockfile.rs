use takopack_local::document::parse_document;
use takopack_local::doubts::{conflicting_dependencies, doubtful_dependencies};
use takopack_local::lockfile::{
    locked_dependencies, lockfile_dependencies_for_package, select_versions, LockError,
    LockedDependency, LockedPackage, LockedVersions,
};
use takopack_local::version::Version;

fn version(major: u64, minor: u64, patch: u64) -> Version {
    Version {
        major,
        minor,
        patch,
        pre: String::new(),
        build: String::new(),
    }
}

fn package(name: &str, version: Version) -> LockedPackage {
    LockedPackage {
        name: name.to_string(),
        version,
    }
}

fn dependency(name: &str, version: Option<Version>) -> LockedDependency {
    LockedDependency {
        name: name.to_string(),
        version,
    }
}

#[test]
fn lockfile_selects_direct_dependency_version_for_current_package() {
    let lockfile = r#"
version = 4

[[package]]
name = "consumer"
version = "1.2.3"
dependencies = [
 "itertools 0.14.0",
]

[[package]]
name = "itertools"
version = "0.10.5"

[[package]]
name = "itertools"
version = "0.14.0"
"#;

    let selected = lockfile_dependencies_for_package(lockfile, "consumer", "1.2.3")
        .unwrap()
        .unwrap();
    assert_eq!(selected.get("itertools"), Some(&version(0, 14, 0)));
    assert_eq!(selected.entries().len(), 1);
}

#[test]
fn lockfile_without_the_package_selects_nothing() {
    let lockfile = "[[package]]\nname = \"a\"\nversion = \"1.0.0\"\n";
    assert!(lockfile_dependencies_for_package(lockfile, "a", "1.0.1")
        .unwrap()
        .is_none());
    assert!(lockfile_dependencies_for_package(lockfile, "b", "1.0.0")
        .unwrap()
        .is_none());
    let selected = lockfile_dependencies_for_package(lockfile, "a", "1.0.0")
        .unwrap()
        .unwrap();
    assert!(selected.entries().is_empty());
}

#[test]
fn lockfiles_that_cannot_be_used() {
    assert!(matches!(
        lockfile_dependencies_for_package("[[package", "a", "1.0.0"),
        Err(LockError::Syntax(_))
    ));
    assert!(matches!(
        lockfile_dependencies_for_package("version = 4\n", "a", "1.0.0"),
        Err(LockError::NoPackageArray)
    ));
    assert!(matches!(
        lockfile_dependencies_for_package("package = \"x\"\n", "a", "1.0.0"),
        Err(LockError::NoPackageArray)
    ));
}

#[test]
fn dependencies_resolve_only_without_doubt() {
    let lock = parse_document(
        r#"
[[package]]
name = "top"
version = "1.0.0"
dependencies = [
 "plain",
 "gone",
 "twice",
 "twin 2.0.0",
 "bad not-a-version",
 "clash 1.0.0",
 "clash 2.0.0",
 "  spaced   0.1.0-rc.1+b5  (registry)",
 "",
 7,
]

[[package]]
name = "plain"
version = "0.3.1"

[[package]]
name = "twice"
version = "1.0.0"

[[package]]
name = "twice"
version = "1.1.0"

[[package]]
name = "twin"
version = "2.0.0"

[[package]]
name = "twin"
version = "2.0.0"
source = "git+https://example.org/twin#0"

[[package]]
name = "bad"
version = "4.0.0"

[[package]]
name = "clash"
version = "1.0.0"

[[package]]
name = "clash"
version = "2.0.0"

[[package]]
name = "spaced"
version = "0.1.0-rc.1+b5"

[[package]]
name = "spaced"
version = "not a version"
"#,
    )
    .unwrap();
    let selected = locked_dependencies(&lock, "top", "1.0.0").unwrap().unwrap();
    assert_eq!(selected.get("plain"), Some(&version(0, 3, 1)));
    assert_eq!(selected.get("bad"), Some(&version(4, 0, 0)));
    let spaced = selected.get("spaced").unwrap();
    assert_eq!(spaced.pre, "rc.1");
    assert_eq!(spaced.build, "b5");
    assert_eq!(spaced.to_text(), "0.1.0-rc.1+b5");
    for name in ["gone", "twice", "twin", "clash", "", "registry"] {
        assert!(!selected.contains(name), "{name}");
    }
    assert_eq!(selected.entries().len(), 3);
}

#[test]
fn conflicting_resolutions_are_dropped_and_agreeing_ones_kept() {
    let packages = vec![
        package("a", version(1, 0, 0)),
        package("a", version(2, 0, 0)),
        package("b", version(3, 0, 0)),
    ];
    let clash = vec![
        dependency("a", Some(version(1, 0, 0))),
        dependency("b", None),
        dependency("a", Some(version(2, 0, 0))),
    ];
    let selected = select_versions(&packages, &clash);
    assert!(selected.get("a").is_none());
    assert_eq!(selected.get("b"), Some(&version(3, 0, 0)));

    let agreeing = vec![
        dependency("a", Some(version(1, 0, 0))),
        dependency("a", None),
        dependency("a", Some(version(1, 0, 0))),
        dependency("a", Some(version(9, 0, 0))),
    ];
    let selected = select_versions(&packages, &agreeing);
    assert_eq!(selected.get("a"), Some(&version(1, 0, 0)));
}

#[test]
fn latest_entry_counts() {
    let mut versions = LockedVersions::new();
    assert!(!versions.contains("a"));
    versions.insert("a".to_string(), version(1, 0, 0));
    versions.insert("a".to_string(), version(2, 0, 0));
    assert_eq!(versions.get("a"), Some(&version(2, 0, 0)));
    assert!(versions.contains("a"));
}

#[test]
fn versions_are_written_as_semver_writes_them() {
    for text in [
        "0.0.0",
        "1.2.3",
        "10.200.3000",
        "18446744073709551615.0.9",
        "1.0.0-alpha.1",
        "1.0.0+build.7",
        "0.9.11+spec-1.1.0",
        "1.0.0-rc.1+b",
    ] {
        let parsed = semver::Version::parse(text).unwrap();
        let ours = Version {
            major: parsed.major,
            minor: parsed.minor,
            patch: parsed.patch,
            pre: parsed.pre.as_str().to_string(),
            build: parsed.build.as_str().to_string(),
        };
        assert_eq!(ours.to_text(), parsed.to_string());
        assert_eq!(ours.to_text(), text);
        assert!(ours.same(&ours.duplicate()));
    }
    assert!(!version(1, 2, 3).same(&version(1, 2, 4)));
}

#[test]
fn a_name_is_not_selected_for_one_it_begins() {
    let lockfile = r#"
version = 4

[[package]]
name = "prefix_consumer"
version = "1.2.3"
dependencies = [
 "tower",
]

[[package]]
name = "tower"
version = "0.5.3"
"#;
    let selected = lockfile_dependencies_for_package(lockfile, "prefix_consumer", "1.2.3")
        .unwrap()
        .unwrap();
    assert_eq!(selected.get("tower"), Some(&version(0, 5, 3)));
    assert!(!selected.contains("tower-http"));
}

const ENTRIES: [&str; 6] = [
    "name = \"b\"\nversion = \"1.0.0\"\n",
    "name = \"b\"\nversion = \"2.0.0\"\n",
    "name = \"c\"\nversion = \"3.0.0\"\n",
    "name = \"d\"\nversion = \"4.0.0\"\n",
    "name = \"d\"\nversion = \"5.0.0\"\n",
    "name = \"e\"\nversion = \"no\"\n",
];

fn lock_text(entries: &[&str], dependencies: &[&str]) -> String {
    let mut text = format!(
        "[[package]]\nname = \"top\"\nversion = \"1.0.0\"\ndependencies = {dependencies:?}\n"
    );
    for entry in entries {
        text.push_str("[[package]]\n");
        text.push_str(entry);
    }
    text
}

#[test]
fn order_in_a_lockfile_does_not_matter() {
    let lines = ["b 1.0.0", "c", "d", "b 2.0.0", "d 5.0.0", "e"];
    let mut moved_lines = lines;
    moved_lines.reverse();
    moved_lines.swap(1, 3);
    let mut moved_entries = ENTRIES;
    moved_entries.rotate_left(2);
    moved_entries.swap(0, 3);
    let one = lock_text(&ENTRIES, &lines);
    let other = lock_text(&moved_entries, &moved_lines);
    for text in [one, other] {
        let selected = lockfile_dependencies_for_package(&text, "top", "1.0.0")
            .unwrap()
            .unwrap();
        assert_eq!(selected.get("c"), Some(&version(3, 0, 0)));
        assert_eq!(selected.get("d"), Some(&version(5, 0, 0)));
        assert!(!selected.contains("b"));
        assert!(!selected.contains("e"));
    }
}

#[test]
fn open_dependencies_are_listed() {
    let text = lock_text(
        &ENTRIES,
        &["b 1.0.0", "c", "d x", "", "b 2.0.0", "gone  1.0.0", "e", "d 5.0.0"],
    );
    let lock = parse_document(&text).unwrap();
    assert_eq!(
        doubtful_dependencies(&lock, "top", "1.0.0"),
        [
            ("d x".to_string(), 2),
            ("gone  1.0.0".to_string(), 0),
            ("e".to_string(), 0),
        ]
    );
    assert_eq!(conflicting_dependencies(&lock, "top", "1.0.0"), ["b"]);
    assert!(doubtful_dependencies(&lock, "top", "1.0.1").is_empty());
    assert!(conflicting_dependencies(&lock, "b", "1.0.0").is_empty());
    let empty = parse_document("").unwrap();
    assert!(doubtful_dependencies(&empty, "top", "1.0.0").is_empty());
}
