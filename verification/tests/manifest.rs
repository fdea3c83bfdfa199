use std::path::{Component, Path};

use takopack_local::document::{parse_document, Toml};
use takopack_local::file_set::insert_file;
use takopack_local::manifest::{
    default_target_path, list_declared_files, materialize_manifest_backed_temp_crate,
    materialize_manifest_paths, normalize_package_root_relative_path, placeholder_content,
    plan_placeholders, should_materialize_include,
};
use takopack_local::path::{
    components_below, has_materialized_child_path, path_components, path_extension,
    path_is_absolute, safe_manifest_relative_path, PathError,
};

fn files_of(manifest: &str) -> Vec<String> {
    let plan = materialize_manifest_backed_temp_crate(manifest).unwrap();
    assert!(plan.fault.is_none());
    plan.files.into_iter().map(|file| file.path).collect()
}

fn has(files: &[String], path: &str) -> bool {
    files.iter().any(|file| file == path)
}

#[test]
fn localpkg_materializes_declared_manifest_paths() {
    let files = files_of(
        r#"
[package]
name = "shape"
version = "1.2.3"
edition = "2021"
build = "build/main.rs"
readme = "docs/README.md"
license-file = "licenses/LICENSE.txt"
include = ["NOTICE"]

[lib]
path = "src/shape/lib.rs"

[[bin]]
name = "shape-cli"
path = "cli/main.rs"

[[example]]
name = "demo"
"#,
    );
    for path in [
        "build/main.rs",
        "docs/README.md",
        "licenses/LICENSE.txt",
        "NOTICE",
        "src/shape/lib.rs",
        "cli/main.rs",
        "examples/demo.rs",
    ] {
        assert!(has(&files, path), "missing {path}");
    }
    assert_eq!(files.len(), 7);
}

#[test]
fn localpkg_adds_default_lib_for_manifest_without_targets() {
    let files = files_of(
        r#"
[package]
name = "minimal"
version = "0.1.0"
edition = "2021"
"#,
    );
    assert_eq!(files, ["src/lib.rs"]);
}

#[test]
fn localpkg_materializes_root_relative_includes() {
    let files = files_of(
        r#"
[package]
name = "rooted"
version = "0.1.0"
edition = "2021"
include = [
    "/Cargo.toml",
    "/CHANGELOG.md",
    "/src",
]

[lib]
path = "src/lib.rs"
"#,
    );
    assert!(has(&files, "CHANGELOG.md"));
    assert!(!has(&files, "src"));
    assert!(has(&files, "src/lib.rs"));
}

#[test]
fn localpkg_does_not_materialize_parent_include_as_file() {
    let files = files_of(
        r#"
[package]
name = "benchy"
version = "0.1.0"
edition = "2021"
include = ["benches"]

[lib]
path = "src/lib.rs"

[[bench]]
name = "mod"
path = "benches/mod.rs"
"#,
    );
    assert!(!has(&files, "benches"));
    assert!(has(&files, "benches/mod.rs"));
}

#[test]
fn localpkg_materializes_auto_lib_with_other_targets() {
    let files = files_of(
        r#"
[package]
name = "auto_lib"
version = "0.1.0"
edition = "2021"

[[test]]
name = "tests"

[[bench]]
name = "benchmarks"
"#,
    );
    assert!(has(&files, "src/lib.rs"));
    assert!(has(&files, "tests/tests.rs"));
    assert!(has(&files, "benches/benchmarks.rs"));
}

#[test]
fn manifest_that_is_no_toml_is_refused() {
    assert!(materialize_manifest_backed_temp_crate("[package").is_err());
}

#[test]
fn build_scripts_by_kind_of_value() {
    assert_eq!(files_of("[package]\nbuild = false\n"), ["src/lib.rs"]);
    assert_eq!(files_of("[package]\nbuild = true\n"), ["build.rs", "src/lib.rs"]);
    assert_eq!(files_of("[package]\nbuild = \"b.rs\"\n"), ["b.rs", "src/lib.rs"]);
    assert_eq!(files_of("[package]\nbuild = 1\n"), ["build.rs", "src/lib.rs"]);
}

#[test]
fn autolib_off_needs_another_target() {
    assert_eq!(
        files_of("[package]\nautolib = false\n[[bin]]\nname = \"x\"\n"),
        ["src/bin/x.rs"]
    );
    assert_eq!(files_of("[package]\nautolib = false\n"), ["src/lib.rs"]);
    assert_eq!(
        files_of("[package]\nautolib = \"no\"\n[[bin]]\nname = \"x\"\n"),
        ["src/bin/x.rs", "src/lib.rs"]
    );
}

#[test]
fn targets_without_path_and_name_have_default_paths() {
    let files = files_of("[[bin]]\n[[example]]\n[[test]]\n[[bench]]\n[lib]\n");
    assert_eq!(
        files,
        [
            "benches/bench.rs",
            "examples/example.rs",
            "src/lib.rs",
            "src/main.rs",
            "tests/test.rs",
        ]
    );
    assert_eq!(default_target_path("bin"), "src/main.rs");
    assert_eq!(default_target_path("example"), "examples/example.rs");
    assert_eq!(default_target_path("test"), "tests/test.rs");
    assert_eq!(default_target_path("bench"), "benches/bench.rs");
    assert_eq!(default_target_path("lib"), "src/lib.rs");
}

#[test]
fn sections_of_other_kinds_are_ignored() {
    assert_eq!(
        files_of("package = 1\nlib = [\"x\"]\nbin = [\"y\", 2]\ntest = true\n"),
        ["src/lib.rs"]
    );
}

#[test]
fn include_patterns_are_not_files() {
    assert!(should_materialize_include("src"));
    assert!(should_materialize_include(""));
    assert!(!should_materialize_include("!src"));
    assert!(!should_materialize_include("src/*.rs"));
    assert!(!should_materialize_include("src/?.rs"));
    assert!(!should_materialize_include("src/[ab].rs"));
    assert!(!should_materialize_include("Cargo.toml"));
    assert_eq!(normalize_package_root_relative_path("///a/"), "a/");
    assert_eq!(normalize_package_root_relative_path("a"), "a");
    assert_eq!(
        files_of("[package]\ninclude = [\"/docs//\", \"*.c\", 3, \"!x\", \"/Cargo.toml\"]\n"),
        ["docs", "src/lib.rs"]
    );
}

#[test]
fn files_come_in_order_and_once() {
    let manifest = parse_document(
        "[package]\nreadme = \"b\"\nlicense-file = \"a\"\ninclude = [\"b\", \"c\", \"a\"]\n",
    )
    .unwrap();
    assert_eq!(materialize_manifest_paths(&manifest), ["a", "b", "c", "src/lib.rs"]);

    let mut files: Vec<String> = Vec::new();
    let names = ["z", "a", "\u{e9}", "ab", "Z", "a", "a/b", "a.b", ""];
    for name in names {
        insert_file(&mut files, name.to_string());
    }
    let expected: std::collections::BTreeSet<String> =
        names.iter().map(|name| name.to_string()).collect();
    assert_eq!(files, expected.into_iter().collect::<Vec<_>>());
}

#[test]
fn every_declared_path_is_made_or_has_a_file_below_it() {
    let manifest = parse_document(
        "[package]\ninclude = [\"a\", \"a/b\", \"a/b/c\", \"a/./d\", \"e/\", \"a//b\"]\n",
    )
    .unwrap();
    let declared = list_declared_files(&manifest);
    let made = materialize_manifest_paths(&manifest);
    assert_eq!(made, ["a/./d", "a/b/c", "e", "src/lib.rs"]);
    for path in &declared {
        assert!(has(&made, path) || has_materialized_child_path(path, &made));
    }
    for path in &made {
        assert!(!has_materialized_child_path(path, &made));
    }
}

#[test]
fn children_are_compared_by_component() {
    let files = vec!["src/lib.rs".to_string(), "srcs".to_string()];
    assert!(has_materialized_child_path("src", &files));
    assert!(has_materialized_child_path("src/", &files));
    assert!(has_materialized_child_path("", &files));
    assert!(!has_materialized_child_path("sr", &files));
    assert!(!has_materialized_child_path("src/lib.rs", &files));
    assert!(!has_materialized_child_path("src/lib.rs/.", &files));
    assert!(!has_materialized_child_path("./src", &files));
    assert!(!components_below(&path_components("a"), &path_components("a/b")));
}

const PATHS: [&str; 27] = [
    "", ".", "..", "/", "//", "/.", "./", "a", "a/", "a/b", "a//b", "a/./b", "a/../b", "./a",
    ".//a", "/a", "/./a", "/../a", "a/.", "a/..", ".a", "..a", "a.b.c", "a.", ".a.b", "x/.hidden",
    "\u{e9}/\u{1F980}.rs",
];

#[test]
fn paths_fall_apart_as_in_std() {
    for path in PATHS {
        let expected: Vec<String> = Path::new(path)
            .components()
            .map(|c| c.as_os_str().to_str().unwrap().to_string())
            .collect();
        assert_eq!(path_components(path), expected, "{path:?}");
        assert_eq!(path_is_absolute(path), Path::new(path).is_absolute(), "{path:?}");
        let extension = Path::new(path)
            .extension()
            .map(|e| e.to_str().unwrap().to_string());
        assert_eq!(path_extension(path), extension, "{path:?}");
        for other in PATHS {
            let files = vec![other.to_string()];
            let below =
                Path::new(other) != Path::new(path) && Path::new(other).starts_with(path);
            assert_eq!(has_materialized_child_path(path, &files), below, "{path:?} {other:?}");
        }
    }
}

#[test]
fn safe_paths_walk_down() {
    for path in PATHS {
        let escapes = Path::new(path)
            .components()
            .any(|c| matches!(c, Component::ParentDir));
        let expected = if Path::new(path).is_absolute() {
            Err(PathError::Absolute(path.to_string()))
        } else if escapes {
            Err(PathError::Escapes(path.to_string()))
        } else {
            Ok(path)
        };
        assert_eq!(safe_manifest_relative_path(path), expected);
    }
    assert_eq!(
        safe_manifest_relative_path("/etc/passwd"),
        Err(PathError::Absolute("/etc/passwd".to_string()))
    );
    assert_eq!(
        safe_manifest_relative_path("a/../../b"),
        Err(PathError::Escapes("a/../../b".to_string()))
    );
}

#[test]
fn placeholders_by_extension() {
    assert_eq!(
        placeholder_content("src/lib.rs"),
        Ok("// Placeholder for takopack localpkg spec generation.\n")
    );
    assert_eq!(placeholder_content("README.md"), Ok("# Placeholder\n"));
    assert_eq!(
        placeholder_content("LICENSE"),
        Ok("Placeholder for takopack localpkg spec generation.\n")
    );
    assert_eq!(
        placeholder_content(".rs"),
        Ok("Placeholder for takopack localpkg spec generation.\n")
    );
    assert_eq!(
        placeholder_content("../x.rs"),
        Err(PathError::Escapes("../x.rs".to_string()))
    );
}

#[test]
fn documents_are_read_by_key() {
    let document = parse_document(
        "s = \"x\"\nn = 7\nf = 1.5\nb = true\nd = 1979-05-27\na = [1, \"y\"]\n[t]\nk = \"v\"\n",
    )
    .unwrap();
    assert_eq!(document.text_at("s"), Some("x"));
    assert!(matches!(document.get("n"), Some(Toml::Integer(7))));
    assert!(matches!(document.get("f"), Some(Toml::Float)));
    assert_eq!(document.get("b").unwrap().as_flag(), Some(true));
    assert!(matches!(document.get("d"), Some(Toml::Datetime)));
    let items = document.array_at("a").unwrap();
    assert_eq!(items.len(), 2);
    assert_eq!(items[1].as_text(), Some("y"));
    assert_eq!(document.table_at("t").unwrap().text_at("k"), Some("v"));
    assert!(document.get("x").is_none());
    assert!(document.text_at("n").is_none());
    assert!(items[0].get("k").is_none());
}

#[test]
fn files_are_made_up_to_a_path_that_escapes() {
    let plan = materialize_manifest_backed_temp_crate(
        "[package]\nreadme = \"README.md\"\nlicense-file = \"a/../../LICENSE\"\n",
    )
    .unwrap();
    assert_eq!(plan.files.len(), 1);
    assert_eq!(plan.files[0].path, "README.md");
    assert_eq!(plan.files[0].content, "# Placeholder\n");
    assert_eq!(
        plan.fault,
        Some(PathError::Escapes("a/../../LICENSE".to_string()))
    );

    let paths: Vec<String> = ["x.rs", "/etc/y", "z"]
        .iter()
        .map(|path| path.to_string())
        .collect();
    let plan = plan_placeholders(&paths);
    assert_eq!(plan.files.len(), 1);
    assert_eq!(plan.files[0].path, "x.rs");
    assert_eq!(plan.fault, Some(PathError::Absolute("/etc/y".to_string())));
}
