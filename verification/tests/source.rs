use flate2::{write::GzEncoder, Compression};
use tar::{Builder, EntryType, Header};

use takopack_local::archive::{
    archive_top_level_directory, content_top_level_directory, to_hex, top_level_directory, ArchiveEntry, ArchiveError,
    ArchiveListing,
};
use takopack_local::document::parse_document;
use takopack_local::git_archive::{
    describe_archive, git_archive, git_archive_source_from_lockfile, source_archive_override,
    uses_branch, GitArchiveError,
};
use takopack_local::source::{
    parse_locked_github_source, source_follows_branch, validate_git_selector, LockedGitReference, LockedGitSource,
    SourceError,
};
use takopack_local::text::char_is_space;
use takopack_local::version::Version;

const COMMIT: &str = "15adba5e025d8636ba4a334fb379b1371f6196a1";

fn version_of(text: &str) -> Version {
    let parsed = semver::Version::parse(text).unwrap();
    Version {
        major: parsed.major,
        minor: parsed.minor,
        patch: parsed.patch,
        pre: parsed.pre.as_str().to_string(),
        build: parsed.build.as_str().to_string(),
    }
}

fn test_git_archive(root: &str) -> Vec<u8> {
    let encoder = GzEncoder::new(Vec::new(), Compression::default());
    let mut archive = Builder::new(encoder);
    let pax_content = b"19 comment=fixture\n";
    let mut pax_header = Header::new_gnu();
    pax_header.set_path("pax_global_header").unwrap();
    pax_header.set_entry_type(EntryType::XGlobalHeader);
    pax_header.set_size(pax_content.len() as u64);
    pax_header.set_mode(0o644);
    pax_header.set_mtime(0);
    pax_header.set_cksum();
    archive.append(&pax_header, &pax_content[..]).unwrap();
    let content = b"[package]\nname = \"fixture\"\nversion = \"0.0.0\"\n";
    let mut header = Header::new_gnu();
    header.set_size(content.len() as u64);
    header.set_mode(0o644);
    header.set_mtime(0);
    header.set_cksum();
    archive
        .append_data(&mut header, format!("{root}/Cargo.toml"), &content[..])
        .unwrap();
    archive.finish().unwrap();
    archive.into_inner().unwrap().finish().unwrap()
}

/// An archive with empty files at these raw names.
fn archive_of_names(names: &[&[u8]]) -> Vec<u8> {
    let encoder = GzEncoder::new(Vec::new(), Compression::default());
    let mut archive = Builder::new(encoder);
    for name in names {
        let mut header = Header::new_gnu();
        header.as_old_mut().name[..name.len()].copy_from_slice(name);
        header.set_size(0);
        header.set_mode(0o644);
        header.set_mtime(0);
        header.set_cksum();
        archive.append(&header, &b""[..]).unwrap();
    }
    archive.into_inner().unwrap().finish().unwrap()
}

fn entry(path: &[u8]) -> ArchiveEntry {
    ArchiveEntry {
        pax_global: false,
        pax_local: false,
        gnu_long_name: false,
        gnu_long_link: false,
        path: path.to_vec(),
        position: 0,
        size: 0,
    }
}

fn listing(entries: Vec<ArchiveEntry>) -> ArchiveListing {
    ArchiveListing {
        entries,
        failure: None,
    }
}

#[test]
fn git_archive_top_level_ignores_pax_global_header() {
    let archive = test_git_archive("project-0123456789abcdef");

    assert_eq!(
        archive_top_level_directory(&archive).unwrap(),
        "project-0123456789abcdef"
    );
}

#[test]
fn archives_without_one_top_level_directory() {
    assert!(matches!(
        archive_top_level_directory(&archive_of_names(&[])),
        Err(ArchiveError::Empty)
    ));
    assert!(matches!(
        archive_top_level_directory(b"not gzip"),
        Err(ArchiveError::UnreadableEntry(_))
    ));
    assert!(matches!(
        archive_top_level_directory(&archive_of_names(&[b"/a"])),
        Err(ArchiveError::UnsafePath(path)) if path == b"/a"
    ));
    assert!(matches!(
        archive_top_level_directory(&archive_of_names(&[b"../a"])),
        Err(ArchiveError::UnsafePath(path)) if path == b"../a"
    ));
    assert!(matches!(
        archive_top_level_directory(&archive_of_names(&[b"./a"])),
        Err(ArchiveError::UnsafePath(_))
    ));
    assert!(matches!(
        archive_top_level_directory(&archive_of_names(&[b"\xff/a"])),
        Err(ArchiveError::NotUtf8)
    ));
    assert!(matches!(
        archive_top_level_directory(&archive_of_names(&[b"a/x", b"a/y", b"b/x"])),
        Err(ArchiveError::MultipleTopLevel(a, b)) if a == "a" && b == "b"
    ));
    assert_eq!(
        archive_top_level_directory(&archive_of_names(&[b"a/x", b"a", b"a/\xff"])).unwrap(),
        "a"
    );
}

#[test]
fn listed_entries_share_a_top_level_directory() {
    let mut described = entry(b"other");
    described.gnu_long_name = true;
    let entries = vec![described, entry(b"..a/b"), entry(b"..a/../c")];
    assert_eq!(top_level_directory(listing(entries)).unwrap(), "..a");

    assert!(matches!(
        top_level_directory(listing(vec![entry(b"")])),
        Err(ArchiveError::EmptyPath)
    ));
    let mut described = entry(b"a");
    described.pax_local = true;
    assert!(matches!(
        top_level_directory(listing(vec![described])),
        Err(ArchiveError::Empty)
    ));
    let broken = |entries| ArchiveListing {
        entries,
        failure: Some(std::io::Error::from(std::io::ErrorKind::UnexpectedEof)),
    };
    assert!(matches!(
        top_level_directory(broken(vec![entry(b"a/x")])),
        Err(ArchiveError::UnreadableEntry(_))
    ));
    assert!(matches!(
        top_level_directory(broken(vec![entry(b"a/x"), entry(b"b")])),
        Err(ArchiveError::MultipleTopLevel(_, _))
    ));
}

#[test]
fn localpkg_generates_locked_git_sources_for_rev_and_tag() {
    struct Case<'a> {
        name: &'a str,
        version: &'a str,
        source: &'a str,
        archive_root: &'a str,
        expected_macros: &'a [&'a str],
        expected_source: &'a str,
    }

    let cases = [
        Case {
            name: "llm-multimodal",
            version: "1.7.1",
            source: "git+https://github.com/smg-project/llm-multimodal?rev=15adba5e025d8636ba4a334fb379b1371f6196a1#15adba5e025d8636ba4a334fb379b1371f6196a1",
            archive_root: "llm-multimodal-15adba5e025d8636ba4a334fb379b1371f6196a1",
            expected_macros: &["%global git_commit 15adba5e025d8636ba4a334fb379b1371f6196a1"],
            expected_source: "Source:         https://github.com/smg-project/llm-multimodal/archive/%{git_commit}.tar.gz#/%{crate_name}-%{git_commit}.tar.gz",
        },
        Case {
            name: "oss-harmony",
            version: "0.0.11",
            source: "git+https://github.com/oss-harmony/harmony?tag=v0.0.11#76e849426cc092f84509e31a17027755f67d662a",
            archive_root: "harmony-0.0.11",
            expected_macros: &[
                "%global git_tag v0.0.11",
                "%global git_commit 76e849426cc092f84509e31a17027755f67d662a",
            ],
            expected_source: "Source:         https://github.com/oss-harmony/harmony/archive/refs/tags/%{git_tag}.tar.gz#/%{crate_name}-%{git_tag}.tar.gz",
        },
    ];

    for case in cases {
        let lockfile = format!(
            "version = 4\n\n[[package]]\nname = {:?}\nversion = {:?}\nsource = {:?}\n",
            case.name, case.version, case.source
        );
        let found = git_archive_source_from_lockfile(
            &lockfile,
            case.name,
            &version_of(case.version),
            true,
        )
        .unwrap()
        .unwrap();
        let archive = test_git_archive(case.archive_root);
        let described = source_archive_override(found, &archive).unwrap();
        let macros: Vec<String> = described
            .source_macros
            .iter()
            .map(|(name, value)| format!("%global {name} {value}"))
            .collect();
        assert_eq!(macros, case.expected_macros);
        assert_eq!(
            format!("Source:         {}", described.source_url),
            case.expected_source
        );
        assert_eq!(described.prep_dir, case.archive_root);
        assert_eq!(described.sha256.len(), 64);
        assert_eq!(
            described.sha256,
            format!("{:x}", <sha2::Sha256 as sha2::Digest>::digest(&archive))
        );
    }
}

#[test]
fn download_urls() {
    let read = |query: &str| {
        let source = format!("git+https://github.com/o/r.git{query}#{COMMIT}");
        git_archive(parse_locked_github_source(&source).unwrap())
    };
    assert_eq!(
        read("").fetch_url,
        format!("https://github.com/o/r/archive/{COMMIT}.tar.gz")
    );
    assert_eq!(
        read("?branch=main").fetch_url,
        format!("https://github.com/o/r/archive/{COMMIT}.tar.gz")
    );
    assert_eq!(
        read("?tag=v1").fetch_url,
        "https://github.com/o/r/archive/refs/tags/v1.tar.gz"
    );
    assert_eq!(
        read("?rev=abc").source_macros,
        [("git_commit".to_string(), COMMIT.to_string())]
    );
}

#[test]
fn sources_are_read_back() {
    let expected = |reference| LockedGitSource {
        repository: "https://github.com/owner/repo".to_string(),
        repository_name: "repo".to_string(),
        commit: COMMIT.to_string(),
        reference,
    };
    let upper = COMMIT.to_ascii_uppercase();
    for ending in ["", ".git", "/"] {
        let read = |query: &str| {
            parse_locked_github_source(&format!(
                "git+https://github.com/owner/repo{ending}{query}#{upper}"
            ))
        };
        assert_eq!(read(""), Ok(expected(LockedGitReference::Commit)));
        assert_eq!(read("?branch=x"), Ok(expected(LockedGitReference::Commit)));
        assert_eq!(read("?rev=x"), Ok(expected(LockedGitReference::Rev)));
        assert_eq!(
            read("?tag=v1=2"),
            Ok(expected(LockedGitReference::Tag("v1=2".to_string())))
        );
        assert_eq!(
            read("?tag=a&flag&&tag=b"),
            Ok(expected(LockedGitReference::Tag("b".to_string())))
        );
    }
    assert_eq!(
        parse_locked_github_source(&format!(
            "git+https://github.com/owner/repo.git.git//?x=1#{COMMIT}"
        )),
        Ok(expected(LockedGitReference::Commit))
    );
}

#[test]
fn sources_that_are_refused() {
    let refused = |source: &str| parse_locked_github_source(source).unwrap_err();
    assert_eq!(
        refused("registry+https://example.org"),
        SourceError::NotGit("registry+https://example.org".to_string())
    );
    assert_eq!(
        refused("git+https://github.com/o/r"),
        SourceError::NoCommit("https://github.com/o/r".to_string())
    );
    assert_eq!(
        refused("git+https://github.com/o/r#abc"),
        SourceError::InvalidCommit("abc".to_string())
    );
    let not_hex = "z".repeat(40);
    assert_eq!(
        refused(&format!("git+https://github.com/o/r#{not_hex}")),
        SourceError::InvalidCommit(not_hex.clone())
    );
    assert_eq!(
        refused(&format!("git+ssh://git@github.com/o/r.git#{COMMIT}")),
        SourceError::UnsupportedHost("ssh://git@github.com/o/r".to_string())
    );
    for path in ["o", "o/", "/r", "o/r/x", ""] {
        assert!(matches!(
            refused(&format!("git+https://github.com/{path}?#{COMMIT}")),
            SourceError::InvalidRepository(_) | SourceError::UnsupportedHost(_)
        ));
    }
    assert_eq!(
        refused(&format!("git+https://github.com/o/r/x#{COMMIT}")),
        SourceError::InvalidRepository("https://github.com/o/r/x".to_string())
    );
    assert_eq!(
        refused(&format!("git+https://github.com/o/r?tag=a%20b&rev=#{COMMIT}")),
        SourceError::UnsupportedSelector("a%20b".to_string())
    );
    assert_eq!(
        refused(&format!("git+https://github.com/o/r?rev=a&tag=b#{COMMIT}")),
        SourceError::RevAndTag(format!("https://github.com/o/r?rev=a&tag=b#{COMMIT}"))
    );
}

#[test]
fn selectors() {
    assert_eq!(validate_git_selector("v1.0/x"), Ok(()));
    for bad in ["", "a b", "a\u{3000}b", "50%", "a#b", "\t"] {
        assert_eq!(
            validate_git_selector(bad),
            Err(SourceError::UnsupportedSelector(bad.to_string()))
        );
    }
}

#[test]
fn white_space_is_that_of_std() {
    for c in '\u{0}'..=char::MAX {
        assert_eq!(char_is_space(c), c.is_whitespace(), "{c:?}");
    }
}

#[test]
fn git_sources_of_a_package() {
    let lockfile = format!(
        r#"
[[package]]
name = "one"
version = "1.0.0"
source = "git+https://github.com/o/one#{COMMIT}"

[[package]]
name = "two"
version = "1.0.0"
source = "git+https://github.com/o/two#{COMMIT}"

[[package]]
name = "two"
version = "1.0.0"
source = "git+https://github.com/o/two?tag=v1#{COMMIT}"

[[package]]
name = "registry"
version = "1.0.0"
source = "registry+https://example.org"

[[package]]
name = "gitlab"
version = "1.0.0-rc.1"
source = "git+https://gitlab.com/o/r#{COMMIT}"
"#
    );
    let find = |name: &str, version: &str, given: bool| {
        git_archive_source_from_lockfile(&lockfile, name, &version_of(version), given)
    };
    assert_eq!(
        find("one", "1.0.0", true).unwrap().unwrap().source.repository_name,
        "one"
    );
    assert!(find("one", "1.0.1", false).unwrap().is_none());
    assert!(find("registry", "1.0.0", false).unwrap().is_none());
    assert!(matches!(
        find("registry", "1.0.0", true),
        Err(GitArchiveError::NoGitSource)
    ));
    assert!(matches!(
        find("two", "1.0.0", false),
        Err(GitArchiveError::AmbiguousGitSource)
    ));
    assert!(matches!(
        find("gitlab", "1.0.0-rc.1", false),
        Err(GitArchiveError::Source(SourceError::UnsupportedHost(_)))
    ));
    assert!(matches!(
        git_archive_source_from_lockfile("x", "a", &version_of("1.0.0"), false),
        Err(GitArchiveError::Syntax(_))
    ));
    assert!(matches!(
        git_archive_source_from_lockfile("x = 1", "a", &version_of("1.0.0"), false),
        Err(GitArchiveError::NoPackageArray)
    ));
}

#[test]
fn archives_of_other_repositories_are_refused() {
    let fetched = || {
        git_archive(
            parse_locked_github_source(&format!("git+https://github.com/o/repo#{COMMIT}"))
                .unwrap(),
        )
    };
    assert!(matches!(
        source_archive_override(fetched(), &test_git_archive("other-1")),
        Err(GitArchiveError::WrongTopLevel(found, name)) if found == "other-1" && name == "repo"
    ));
    assert!(matches!(
        source_archive_override(fetched(), &test_git_archive("repo")),
        Err(GitArchiveError::WrongTopLevel(_, _))
    ));
    assert!(matches!(
        source_archive_override(fetched(), &archive_of_names(&[])),
        Err(GitArchiveError::Archive(ArchiveError::Empty))
    ));
    let described =
        describe_archive(fetched(), vec![0, 10, 255], "repo-abc".to_string()).unwrap();
    assert_eq!(described.sha256, "000aff");
    assert_eq!(described.prep_dir, "repo-abc");
}

#[test]
fn hexadecimal() {
    assert_eq!(to_hex(&vec![]), "");
    assert_eq!(to_hex(&vec![0x00, 0x9a, 0xbc, 0xde, 0xff]), "009abcdeff");
}

fn gzip(content: &[u8]) -> Vec<u8> {
    let mut encoder = GzEncoder::new(Vec::new(), Compression::default());
    std::io::Write::write_all(&mut encoder, content).unwrap();
    encoder.finish().unwrap()
}

/// A block with a sparse header that another follows.
fn sparse_block(size: &[u8; 12]) -> Vec<u8> {
    let mut header = Header::new_gnu();
    header.as_old_mut().name[..3].copy_from_slice(b"a/b");
    header.set_entry_type(EntryType::GNUSparse);
    header.set_mode(0o644);
    header.as_old_mut().size = *size;
    header.as_gnu_mut().unwrap().isextended[0] = 1;
    header.set_cksum();
    header.as_bytes().to_vec()
}

const HUGE: [u8; 12] = [128, 0, 0, 0, 255, 255, 255, 255, 255, 255, 252, 0];

/// A header and its data, padded to whole blocks.
fn member(kind: EntryType, path: &str, data: &[u8]) -> Vec<u8> {
    let mut header = Header::new_gnu();
    header.set_path(path).unwrap();
    header.set_entry_type(kind);
    header.set_size(data.len() as u64);
    header.set_mode(0o644);
    header.set_cksum();
    let mut content = header.as_bytes().to_vec();
    content.extend_from_slice(data);
    content.resize(content.len().div_ceil(512) * 512, 0);
    content
}

/// The top-level directory of an archive made of these parts.
fn directory_of(parts: &[Vec<u8>]) -> Result<String, ArchiveError> {
    let mut content: Vec<u8> = parts.concat();
    let direct = content_top_level_directory(&content, None);
    content.extend_from_slice(&[0; 1024]);
    let packed = archive_top_level_directory(&gzip(&content));
    assert_eq!(direct.is_ok(), packed.is_ok());
    packed
}

const SIZE_RECORDS: [&str; 2] = [
    "29 size=18446744073709548544\n",
    "30 size=+18446744073709548544\n",
];

#[test]
fn sizes_out_of_range_are_refused() {
    let mut content = sparse_block(&HUGE);
    content.extend_from_slice(&[0; 512]);
    assert_eq!(content.len(), 1024);
    assert!(matches!(
        archive_top_level_directory(&gzip(&content)),
        Err(ArchiveError::OversizedEntry)
    ));
    let fetched = git_archive(
        parse_locked_github_source(&format!("git+https://github.com/o/a#{COMMIT}")).unwrap(),
    );
    assert!(matches!(
        source_archive_override(fetched, &gzip(&content)),
        Err(GitArchiveError::Archive(ArchiveError::OversizedEntry))
    ));

    for record in SIZE_RECORDS {
        assert!(matches!(
            directory_of(&[
                member(EntryType::Regular, "a/x", b"1"),
                member(EntryType::XHeader, "x", record.as_bytes()),
                sparse_block(b"00000000000\0"),
                vec![0; 512],
            ]),
            Err(ArchiveError::OversizedEntry)
        ));
    }
}

#[test]
fn earlier_entries_are_judged_before_an_oversized_one() {
    let mut size = HUGE;
    size[10] = 244;
    let archive = |second: &str| {
        directory_of(&[
            member(EntryType::Regular, "a/x", b"1"),
            member(EntryType::Regular, second, b"1"),
            sparse_block(&size),
            vec![0; 512],
        ])
    };
    assert!(matches!(archive("a/y"), Err(ArchiveError::OversizedEntry)));
    assert!(matches!(
        archive("b/y"),
        Err(ArchiveError::MultipleTopLevel(_, _))
    ));
}

#[test]
fn files_may_hold_what_looks_like_a_header() {
    let huge = sparse_block(&HUGE);
    let mut unchecked = vec![0; 512];
    unchecked[124] = 128;
    unchecked[128] = 128;
    unchecked[156] = 83;
    unchecked[257..265].copy_from_slice(b"ustar  \0");
    unchecked[482] = 1;
    for data in [&huge, &unchecked] {
        assert_eq!(
            directory_of(&[member(EntryType::Regular, "a/x", data)]).unwrap(),
            "a"
        );
    }
    let nested = [huge.clone(), vec![0; 512], huge, unchecked].concat();
    for record in SIZE_RECORDS {
        assert_eq!(
            directory_of(&[
                member(EntryType::Regular, "a/x", record.as_bytes()),
                member(EntryType::XGlobalHeader, "g", record.as_bytes()),
                member(EntryType::Regular, "a/fixture.tar", &nested),
                member(EntryType::Regular, "a/y", b"2"),
            ])
            .unwrap(),
            "a"
        );
        assert!(matches!(
            directory_of(&[
                member(EntryType::Regular, "a/fixture.tar", &nested),
                member(EntryType::Regular, "b/y", b"2"),
            ]),
            Err(ArchiveError::MultipleTopLevel(_, _))
        ));
    }
}

/// A sparse entry without data and with one further header.
fn sparse_member(path: &str) -> Vec<u8> {
    let mut header = Header::new_gnu();
    header.set_path(path).unwrap();
    header.set_entry_type(EntryType::GNUSparse);
    header.set_mode(0o644);
    header.set_size(0);
    let gnu = header.as_gnu_mut().unwrap();
    gnu.isextended[0] = 1;
    gnu.realsize = *b"00000000000\0";
    header.set_cksum();
    let mut content = header.as_bytes().to_vec();
    content.extend_from_slice(&[0; 512]);
    content
}

#[test]
fn sound_sparse_entries_are_listed() {
    let record = SIZE_RECORDS[0].as_bytes();
    assert_eq!(
        directory_of(&[
            member(EntryType::Regular, "a/x", record),
            sparse_member("a/s"),
            member(EntryType::Regular, "a/fixture.tar", &sparse_block(&HUGE)),
            sparse_member("a/t"),
            member(EntryType::Regular, "a/y", b"2"),
        ])
        .unwrap(),
        "a"
    );
    assert!(matches!(
        directory_of(&[
            sparse_member("a/s"),
            sparse_member("a/t"),
            member(EntryType::Regular, "b/y", b"2"),
        ]),
        Err(ArchiveError::MultipleTopLevel(_, _))
    ));
    assert!(matches!(
        directory_of(&[sparse_member("a/s"), sparse_block(&HUGE), vec![0; 512]]),
        Err(ArchiveError::UnreadableEntry(_))
    ));
    let mut size = HUGE;
    size[10] = 248;
    assert!(matches!(
        directory_of(&[sparse_member("a/s"), sparse_block(&size), vec![0; 512]]),
        Err(ArchiveError::OversizedEntry)
    ));
}

#[test]
fn order_and_contents_of_an_archive_do_not_matter() {
    let x = |data: &[u8]| member(EntryType::Regular, "a/x", data);
    let y = |data: &[u8]| member(EntryType::Regular, "a/y/z", data);
    for parts in [[x(b""), y(b"1")], [y(&[7; 700]), x(b"2")]] {
        assert_eq!(directory_of(&parts).unwrap(), "a");
    }
    let z = member(EntryType::Regular, "z", b"");
    assert!(directory_of(&[x(b""), z.clone()]).is_err());
    assert!(directory_of(&[z, x(b"")]).is_err());
}

#[test]
fn streams_that_break_off() {
    let whole = archive_of_names(&[b"a/x", b"a/y"]);
    assert_eq!(archive_top_level_directory(&whole).unwrap(), "a");

    let cut = &whole[..whole.len() - 8];
    assert_eq!(archive_top_level_directory(cut).unwrap(), "a");

    let mut plain = Vec::new();
    std::io::Read::read_to_end(&mut flate2::read::GzDecoder::new(&whole[..]), &mut plain).unwrap();
    let unmarked = gzip(&plain[..1024]);
    assert_eq!(archive_top_level_directory(&unmarked).unwrap(), "a");
    for cut in [1, 8] {
        assert!(matches!(
            archive_top_level_directory(&unmarked[..unmarked.len() - cut]),
            Err(ArchiveError::UnreadableEntry(_))
        ));
    }
    match archive_top_level_directory(b"not gzip") {
        Err(ArchiveError::UnreadableEntry(error)) => {
            let mut decoder = flate2::read::GzDecoder::new(&b"not gzip"[..]);
            let expected = std::io::Read::read(&mut decoder, &mut [0; 8]).unwrap_err();
            assert_eq!(error.to_string(), expected.to_string());
        }
        other => panic!("{other:?}"),
    }
}

#[test]
fn branches_are_told_from_other_selectors() {
    let source = |query: &str| format!("git+https://github.com/o/r{query}#{COMMIT}");
    assert!(source_follows_branch(&source("?branch=main")));
    assert!(source_follows_branch(&source("?x&branch=a&branch=b")));
    for query in ["", "?tag=v1&branch=main", "?branch=a&rev=b", "?branch=%", "?branch", "?b=1"] {
        assert!(!source_follows_branch(&source(query)), "{query}");
    }
    assert!(!source_follows_branch("registry+https://example.org?branch=main#x"));

    let lock = parse_document(&format!(
        "[[package]]\nname = \"p\"\nversion = \"1.0.0\"\nsource = \"{}\"\n",
        source("?branch=main")
    ))
    .unwrap();
    assert!(uses_branch(&lock, "p", &version_of("1.0.0")));
    assert!(!uses_branch(&lock, "p", &version_of("1.0.1")));
}
