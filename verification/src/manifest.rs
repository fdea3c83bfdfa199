//! The files that a manifest declares, and what stands in for them where only
//! the manifest is at hand.
use vstd::prelude::*;

use crate::document;
use crate::document::{Toml, TomlView};
use crate::file_set;
use crate::path;
use crate::path::{PathError, PathErrorView};
use crate::text;

verus! {

/// Where a target of each kind is looked for if nothing says where it is.
pub open spec fn default_target(kind: Seq<char>) -> Seq<char> {
    if kind == "bin"@ {
        "src/main.rs"@
    } else if kind == "example"@ {
        "examples/example.rs"@
    } else if kind == "test"@ {
        "tests/test.rs"@
    } else if kind == "bench"@ {
        "benches/bench.rs"@
    } else {
        "src/lib.rs"@
    }
}

/// Whether an include pattern names one file or directory besides the
/// manifest.
pub open spec fn is_plain_include(pattern: Seq<char>) -> bool {
    &&& !(pattern.len() > 0 && pattern[0] == '!')
    &&& !pattern.contains('*')
    &&& !pattern.contains('?')
    &&& !pattern.contains('[')
    &&& pattern != "Cargo.toml"@
}

/// The build script of a package.
pub open spec fn build_file(package: TomlView) -> Option<Seq<char>> {
    match package.get("build"@) {
        None => None,
        Some(TomlView::Flag(false)) => None,
        Some(TomlView::Text(path)) => Some(path),
        Some(_) => Some("build.rs"@),
    }
}

/// The path that an include pattern stands for.
pub open spec fn include_file(item: TomlView) -> Option<Seq<char>> {
    match item.as_text() {
        Some(pattern) => {
            let rooted = text::trim_start(pattern, '/');
            if is_plain_include(rooted) {
                Some(text::trim_end(rooted, '/'))
            } else {
                None
            }
        },
        None => None,
    }
}

/// The paths that a list of include patterns stands for.
pub open spec fn include_files(items: Seq<TomlView>) -> Set<Seq<char>> {
    Set::new(
        |f: Seq<char>|
            exists|i: int| 0 <= i < items.len() && include_file(#[trigger] items[i]) == Some(f),
    )
}

/// Nothing, or the one path.
pub open spec fn at_most(file: Option<Seq<char>>) -> Set<Seq<char>> {
    match file {
        Some(f) => Set::empty().insert(f),
        None => Set::empty(),
    }
}

/// The paths that a package section declares.
pub open spec fn package_files(package: TomlView) -> Set<Seq<char>> {
    at_most(build_file(package)) + at_most(package.text_at("readme"@)) + at_most(
        package.text_at("license-file"@),
    ) + match package.array_at("include"@) {
        Some(items) => include_files(items),
        None => Set::empty(),
    }
}

/// The path of a target in a list of targets.
pub open spec fn target_file(kind: Seq<char>, directory: Seq<char>, target: TomlView) -> Option<
    Seq<char>,
> {
    if !(target is Table) {
        None
    } else {
        match (target.text_at("path"@), target.text_at("name"@)) {
            (Some(path), _) => Some(path),
            (None, Some(name)) => Some(directory + "/"@ + name + ".rs"@),
            (None, None) => Some(default_target(kind)),
        }
    }
}

/// The paths of a list of targets.
pub open spec fn listed_targets(
    kind: Seq<char>,
    directory: Seq<char>,
    targets: Seq<TomlView>,
) -> Set<Seq<char>> {
    Set::new(
        |f: Seq<char>|
            exists|i: int|
                0 <= i < targets.len() && target_file(kind, directory, #[trigger] targets[i])
                    == Some(f),
    )
}

/// The paths of the targets of one kind.
pub open spec fn target_files(
    manifest: TomlView,
    kind: Seq<char>,
    directory: Seq<char>,
) -> Set<Seq<char>> {
    match manifest.array_at(kind) {
        Some(targets) => listed_targets(kind, directory, targets),
        None => Set::empty(),
    }
}

/// Whether a manifest lists a target of this kind.
pub open spec fn has_target(manifest: TomlView, kind: Seq<char>) -> bool {
    match manifest.array_at(kind) {
        Some(targets) => exists|i: int|
            0 <= i < targets.len() && #[trigger] targets[i] is Table,
        None => false,
    }
}

/// The path of the library that a manifest declares.
pub open spec fn library_file(manifest: TomlView) -> Option<Seq<char>> {
    match manifest.table_at("lib"@) {
        Some(library) => match library.text_at("path"@) {
            Some(path) => Some(path),
            None => Some("src/lib.rs"@),
        },
        None => None,
    }
}

/// Whether a library is looked for where the manifest declares none.
pub open spec fn finds_library(manifest: TomlView) -> bool {
    match manifest.table_at("package"@) {
        Some(package) => package.get("autolib"@) != Some(TomlView::Flag(false)),
        None => true,
    }
}

/// Whether a manifest declares any target at all.
pub open spec fn has_any_target(manifest: TomlView) -> bool {
    ||| manifest.table_at("lib"@) is Some
    ||| has_target(manifest, "bin"@)
    ||| has_target(manifest, "example"@)
    ||| has_target(manifest, "test"@)
    ||| has_target(manifest, "bench"@)
}

/// The library that is there though the manifest does not declare it.
pub open spec fn implied_library(manifest: TomlView) -> Option<Seq<char>> {
    if (manifest.table_at("lib"@) is None && finds_library(manifest)) || !has_any_target(manifest) {
        Some("src/lib.rs"@)
    } else {
        None
    }
}

/// All paths that a manifest declares or implies.
pub open spec fn declared_files(manifest: TomlView) -> Set<Seq<char>> {
    (match manifest.table_at("package"@) {
        Some(package) => package_files(package),
        None => Set::empty(),
    }) + at_most(library_file(manifest)) + target_files(manifest, "bin"@, "src/bin"@)
        + target_files(manifest, "example"@, "examples"@) + target_files(
        manifest,
        "test"@,
        "tests"@,
    ) + target_files(manifest, "bench"@, "benches"@) + at_most(implied_library(manifest))
}

/// The paths that become files: those with no other path below them. The
/// others are directories.
pub open spec fn leaf_files(declared: Set<Seq<char>>) -> Set<Seq<char>> {
    Set::new(
        |f: Seq<char>|
            declared.contains(f) && forall|g: Seq<char>| #[trigger]
                declared.contains(g) ==> !path::is_below(g, f),
    )
}

/// What a file that stands in for the one at `path` holds.
pub open spec fn placeholder_text(path: Seq<char>) -> Seq<char> {
    match path::extension(path) {
        Some(found) => if found == "rs"@ {
            "// Placeholder for takopack localpkg spec generation.\n"@
        } else if found == "md"@ {
            "# Placeholder\n"@
        } else {
            "Placeholder for takopack localpkg spec generation.\n"@
        },
        None => "Placeholder for takopack localpkg spec generation.\n"@,
    }
}

/// Where a target of each kind is looked for if nothing says where it is.
pub fn default_target_path(kind: &str) -> (r: &'static str)
    ensures
        r@ == default_target(kind@),
{
    if text::same_text(kind, "bin") {
        "src/main.rs"
    } else if text::same_text(kind, "example") {
        "examples/example.rs"
    } else if text::same_text(kind, "test") {
        "tests/test.rs"
    } else if text::same_text(kind, "bench") {
        "benches/bench.rs"
    } else {
        "src/lib.rs"
    }
}

/// Whether an include pattern names one file or directory besides the
/// manifest.
pub fn should_materialize_include(path: &str) -> (r: bool)
    ensures
        r == is_plain_include(path@),
{
    !(path.unicode_len() > 0 && path.get_char(0) == '!') && !text::contains_char(path, '*')
        && !text::contains_char(path, '?') && !text::contains_char(path, '[') && !text::same_text(
        path,
        "Cargo.toml",
    )
}

/// A pattern without the slashes that root it in the package.
pub fn normalize_package_root_relative_path(path: &str) -> (r: String)
    ensures
        r@ == text::trim_start(path@, '/'),
{
    text::trim_start_char(path, '/').to_owned()
}

/// Adds the paths that a package section declares.
fn add_package_files(files: &mut Vec<String>, package: &Toml)
    requires
        file_set::is_ordered(text::texts(old(files)@)),
    ensures
        file_set::is_ordered(text::texts(final(files)@)),
        file_set::held(final(files)@) == file_set::held(old(files)@) + package_files(package@),
{
    let ghost start = file_set::held(files@);
    match package.get("build") {
        None => {},
        Some(Toml::Flag(false)) => {},
        Some(Toml::Text(path)) => {
            file_set::insert_file(files, path.clone());
        },
        Some(_) => {
            file_set::insert_file(files, "build.rs".to_owned());
        },
    }
    assert(file_set::held(files@) =~= start + at_most(build_file(package@)));
    let ghost built = file_set::held(files@);
    if let Some(path) = package.text_at("readme") {
        file_set::insert_file(files, path.to_owned());
    }
    assert(file_set::held(files@) =~= built + at_most(package@.text_at("readme"@)));
    let ghost read = file_set::held(files@);
    if let Some(path) = package.text_at("license-file") {
        file_set::insert_file(files, path.to_owned());
    }
    assert(file_set::held(files@) =~= read + at_most(package@.text_at("license-file"@)));
    let ghost licensed = file_set::held(files@);
    if let Some(items) = package.array_at("include") {
        let ghost all = document::trees(items@);
        let mut i: usize = 0;
        assert(file_set::held(files@) =~= licensed + include_files(all.take(0)));
        while i < items.len()
            invariant
                i <= items.len(),
                all == document::trees(items@),
                file_set::is_ordered(text::texts(files@)),
                file_set::held(files@) == licensed + include_files(all.take(i as int)),
            decreases items.len() - i,
        {
            let item = &items[i];
            assert(all[i as int] == item@);
            proof {
                lemma_include_step(all, i as int);
            }
            if let Some(pattern) = item.as_text() {
                let rooted = normalize_package_root_relative_path(pattern);
                if should_materialize_include(rooted.as_str()) {
                    let name = text::trim_end_char(rooted.as_str(), '/').to_owned();
                    file_set::insert_file(files, name);
                }
            }
            assert(file_set::held(files@) =~= licensed + include_files(all.take(i + 1)));
            i += 1;
        }
        assert(all.take(i as int) =~= all);
    }
    assert(file_set::held(files@) =~= start + package_files(package@));
}

/// One more include pattern adds the path that it stands for.
proof fn lemma_include_step(items: Seq<TomlView>, i: int)
    requires
        0 <= i < items.len(),
    ensures
        include_files(items.take(i + 1)) == include_files(items.take(i)) + at_most(
            include_file(items[i]),
        ),
{
    let one = items.take(i);
    let two = items.take(i + 1);
    assert forall|f: Seq<char>| include_files(two).contains(f) == (include_files(one)
        + at_most(include_file(items[i]))).contains(f) by {
        if include_files(two).contains(f) {
            let k = choose|k: int|
                0 <= k < two.len() && include_file(#[trigger] two[k]) == Some(f);
            if k < i {
                assert(one[k] == two[k]);
            }
        }
        if include_files(one).contains(f) {
            let k = choose|k: int|
                0 <= k < one.len() && include_file(#[trigger] one[k]) == Some(f);
            assert(two[k] == one[k]);
        }
        assert(two[i] == items[i]);
    }
    assert(include_files(two) =~= include_files(one) + at_most(include_file(items[i])));
}

/// One more target adds its path.
proof fn lemma_target_step(
    kind: Seq<char>,
    directory: Seq<char>,
    targets: Seq<TomlView>,
    i: int,
)
    requires
        0 <= i < targets.len(),
    ensures
        listed_targets(kind, directory, targets.take(i + 1)) == listed_targets(
            kind,
            directory,
            targets.take(i),
        ) + at_most(target_file(kind, directory, targets[i])),
{
    let one = targets.take(i);
    let two = targets.take(i + 1);
    let last = at_most(target_file(kind, directory, targets[i]));
    assert forall|f: Seq<char>|
        listed_targets(kind, directory, two).contains(f) == (listed_targets(kind, directory, one)
            + last).contains(f) by {
        if listed_targets(kind, directory, two).contains(f) {
            let k = choose|k: int|
                0 <= k < two.len() && target_file(kind, directory, #[trigger] two[k]) == Some(f);
            if k < i {
                assert(one[k] == two[k]);
            }
        }
        if listed_targets(kind, directory, one).contains(f) {
            let k = choose|k: int|
                0 <= k < one.len() && target_file(kind, directory, #[trigger] one[k]) == Some(f);
            assert(two[k] == one[k]);
        }
        assert(two[i] == targets[i]);
    }
    assert(listed_targets(kind, directory, two) =~= listed_targets(kind, directory, one) + last);
}

/// Adds the paths of the targets of one kind, and says whether there is one.
fn add_target_files(
    files: &mut Vec<String>,
    manifest: &Toml,
    kind: &str,
    directory: &str,
) -> (any: bool)
    requires
        file_set::is_ordered(text::texts(old(files)@)),
    ensures
        file_set::is_ordered(text::texts(final(files)@)),
        file_set::held(final(files)@) == file_set::held(old(files)@) + target_files(
            manifest@,
            kind@,
            directory@,
        ),
        any == has_target(manifest@, kind@),
{
    let ghost start = file_set::held(files@);
    let targets = match manifest.array_at(kind) {
        Some(targets) => targets,
        None => {
            assert(start =~= start + target_files(manifest@, kind@, directory@));
            return false;
        },
    };
    let ghost all = document::trees(targets@);
    let mut any: bool = false;
    let mut i: usize = 0;
    assert(file_set::held(files@) =~= start + listed_targets(kind@, directory@, all.take(0)));
    while i < targets.len()
        invariant
            i <= targets.len(),
            all == document::trees(targets@),
            file_set::is_ordered(text::texts(files@)),
            file_set::held(files@) == start + listed_targets(
                kind@,
                directory@,
                all.take(i as int),
            ),
            any == exists|k: int| 0 <= k < i && #[trigger] all[k] is Table,
        decreases targets.len() - i,
    {
        let target = &targets[i];
        assert(all[i as int] == target@);
        proof {
            lemma_target_step(kind@, directory@, all, i as int);
        }
        if target.is_table() {
            any = true;
            let file = match target.text_at("path") {
                Some(path) => path.to_owned(),
                None => match target.text_at("name") {
                    Some(name) => {
                        let mut file = directory.to_owned();
                        file.append("/");
                        file.append(name);
                        file.append(".rs");
                        file
                    },
                    None => default_target_path(kind).to_owned(),
                },
            };
            file_set::insert_file(files, file);
        }
        assert(file_set::held(files@) =~= start + listed_targets(
            kind@,
            directory@,
            all.take(i + 1),
        ));
        i += 1;
    }
    assert(all.take(i as int) =~= all);
    any
}

/// All paths that a manifest declares or implies, in order.
pub fn list_declared_files(manifest: &Toml) -> (r: Vec<String>)
    ensures
        file_set::is_ordered(text::texts(r@)),
        file_set::held(r@) == declared_files(manifest@),
{
    let mut files: Vec<String> = Vec::new();
    let ghost nothing = Set::<Seq<char>>::empty();
    assert(file_set::held(files@) =~= nothing);
    let mut autolib: bool = true;
    let ghost packaged = match manifest@.table_at("package"@) {
        Some(package) => package_files(package),
        None => nothing,
    };
    if let Some(package) = manifest.table_at("package") {
        if let Some(value) = package.get("autolib") {
            if let Some(flag) = value.as_flag() {
                autolib = flag;
            }
        }
        add_package_files(&mut files, package);
    }
    assert(file_set::held(files@) =~= packaged);
    assert(autolib == finds_library(manifest@));
    let mut has_library: bool = false;
    if let Some(library) = manifest.table_at("lib") {
        has_library = true;
        let file = match library.text_at("path") {
            Some(path) => path.to_owned(),
            None => "src/lib.rs".to_owned(),
        };
        file_set::insert_file(&mut files, file);
    }
    let ghost with_library = packaged + at_most(library_file(manifest@));
    assert(file_set::held(files@) =~= with_library);
    let bins = add_target_files(&mut files, manifest, "bin", "src/bin");
    let examples = add_target_files(&mut files, manifest, "example", "examples");
    let tests = add_target_files(&mut files, manifest, "test", "tests");
    let benches = add_target_files(&mut files, manifest, "bench", "benches");
    let ghost with_targets = file_set::held(files@);
    if (!has_library && autolib) || !(has_library || bins || examples || tests || benches) {
        file_set::insert_file(&mut files, "src/lib.rs".to_owned());
    }
    assert(file_set::held(files@) =~= with_targets + at_most(implied_library(manifest@)));
    files
}

/// The files that have to stand in for a crate of which only the manifest is
/// at hand, in order. The directories that they lie in are implied.
pub fn materialize_manifest_paths(manifest: &Toml) -> (r: Vec<String>)
    ensures
        file_set::is_ordered(text::texts(r@)),
        file_set::held(r@) == leaf_files(declared_files(manifest@)),
{
    let files = list_declared_files(manifest);
    let ghost all = text::texts(files@);
    let ghost declared = declared_files(manifest@);
    let mut kept: Vec<String> = Vec::new();
    let mut i: usize = 0;
    while i < files.len()
        invariant
            i <= files.len(),
            all == text::texts(files@),
            file_set::held(files@) == declared,
            file_set::is_ordered(all),
            file_set::is_ordered(text::texts(kept@)),
            forall|k: int|
                0 <= k < kept@.len() ==> leaf_files(declared).contains(
                    #[trigger] text::texts(kept@)[k],
                ),
            forall|k: int|
                0 <= k < kept@.len() ==> all.take(i as int).contains(
                    #[trigger] text::texts(kept@)[k],
                ),
            forall|j: int|
                0 <= j < i && leaf_files(declared).contains(#[trigger] all[j]) ==> text::texts(
                    kept@,
                ).contains(all[j]),
        decreases files.len() - i,
    {
        let file = files[i].as_str();
        let ghost before = text::texts(kept@);
        assert(all[i as int] == file@);
        assert(declared.contains(file@)) by {
            assert(all.contains(all[i as int]));
        }
        let parent = path::has_materialized_child_path(file, &files);
        proof {
            if parent {
                let k = choose|k: int|
                    0 <= k < files@.len() && path::is_below((#[trigger] files@[k])@, file@);
                assert(all[k] == files@[k]@);
                assert(all.contains(all[k]));
                assert(declared.contains(all[k]));
                assert(!leaf_files(declared).contains(file@));
            } else {
                assert forall|g: Seq<char>| #[trigger]
                    declared.contains(g) implies !path::is_below(g, file@) by {
                    let k = choose|k: int| 0 <= k < all.len() && all[k] == g;
                    assert(all[k] == files@[k]@);
                }
            }
        }
        if !parent {
            kept.push(file.to_owned());
        }
        proof {
            let now = text::texts(kept@);
            assert(all.take(i + 1) =~= all.take(i as int).push(file@));
            if !parent {
                assert(now =~= before.push(file@));
                assert forall|a: int, b: int| 0 <= a < b < now.len() implies file_set::precedes(
                    #[trigger] now[a],
                    #[trigger] now[b],
                ) by {
                    if b < before.len() {
                        assert(now[a] == before[a] && now[b] == before[b]);
                    } else {
                        assert(now[a] == before[a]);
                        let front = all.take(i as int);
                        let p = choose|p: int| 0 <= p < front.len() && front[p] == before[a];
                        assert(all[p] == now[a] && all[i as int] == now[b]);
                    }
                }
                assert(now[now.len() - 1] == file@);
                assert forall|k: int| 0 <= k < now.len() implies all.take(i + 1).contains(
                    #[trigger] now[k],
                ) by {
                    if k < before.len() {
                        let front = all.take(i as int);
                        assert(before[k] == now[k]);
                        let p = choose|p: int| 0 <= p < front.len() && front[p] == before[k];
                        assert(all.take(i + 1)[p] == now[k]);
                    } else {
                        assert(all.take(i + 1)[i as int] == now[k]);
                    }
                }
                assert forall|k: int| 0 <= k < now.len() implies leaf_files(declared).contains(
                    #[trigger] now[k],
                ) by {
                    if k < before.len() {
                        assert(before[k] == now[k]);
                    }
                }
                assert forall|j: int|
                    0 <= j < i + 1 && leaf_files(declared).contains(
                        #[trigger] all[j],
                    ) implies now.contains(all[j]) by {
                    if j < i {
                        let p = choose|p: int| 0 <= p < before.len() && before[p] == all[j];
                        assert(now[p] == all[j]);
                    }
                }
            } else {
                assert forall|k: int| 0 <= k < now.len() implies all.take(i + 1).contains(
                    #[trigger] now[k],
                ) by {
                    let front = all.take(i as int);
                    let p = choose|p: int| 0 <= p < front.len() && front[p] == now[k];
                    assert(all.take(i + 1)[p] == now[k]);
                }
            }
        }
        i += 1;
    }
    proof {
        let now = text::texts(kept@);
        assert forall|f: Seq<char>| file_set::held(kept@).contains(f) == leaf_files(
            declared,
        ).contains(f) by {
            if now.contains(f) {
                let k = choose|k: int| 0 <= k < now.len() && now[k] == f;
                assert(leaf_files(declared).contains(now[k]));
            }
            if leaf_files(declared).contains(f) {
                assert(declared.contains(f));
                let j = choose|j: int| 0 <= j < all.len() && all[j] == f;
                assert(leaf_files(declared).contains(all[j]));
            }
        }
        assert(file_set::held(kept@) =~= leaf_files(declared));
    }
    kept
}

/// What stands in for the file at `relative_path`, unless the path leaves the
/// crate.
pub fn placeholder_content(relative_path: &str) -> (r: Result<&'static str, PathError>)
    ensures
        match r {
            Ok(content) => path::safe_path(relative_path@) is Ok && content@ == placeholder_text(
                relative_path@,
            ),
            Err(e) => path::safe_path(relative_path@) == Err::<Seq<char>, PathErrorView>(e@),
        },
{
    if let Err(e) = path::safe_manifest_relative_path(relative_path) {
        return Err(e);
    }
    match path::path_extension(relative_path) {
        Some(found) => if text::same_text(found.as_str(), "rs") {
            Ok("// Placeholder for takopack localpkg spec generation.\n")
        } else if text::same_text(found.as_str(), "md") {
            Ok("# Placeholder\n")
        } else {
            Ok("Placeholder for takopack localpkg spec generation.\n")
        },
        None => Ok("Placeholder for takopack localpkg spec generation.\n"),
    }
}

/// A file to be made.
#[derive(Debug)]
pub struct Placeholder {
    pub path: String,
    pub content: &'static str,
}

/// The files to be made, in order, and the path that then has to be refused,
/// if there is one.
#[derive(Debug)]
pub struct Placeholders {
    pub files: Vec<Placeholder>,
    pub fault: Option<PathError>,
}

/// Whether `file` stands in for the file at `path`, which lies in the crate.
pub open spec fn stands_in(file: Placeholder, path: Seq<char>) -> bool {
    &&& file.path@ == path
    &&& path::safe_path(path) is Ok
    &&& file.content@ == placeholder_text(path)
}

/// Whether `plan` makes all of `paths` in order, up to the first that leaves
/// the crate, and refuses that one.
pub open spec fn is_plan(plan: Placeholders, paths: Seq<Seq<char>>) -> bool {
    let made = plan.files@;
    &&& made.len() <= paths.len()
    &&& forall|i: int|
        0 <= i < made.len() ==> stands_in(#[trigger] made[i], paths[i])
    &&& match plan.fault {
        Some(e) => made.len() < paths.len() && path::safe_path(paths[made.len() as int]) == Err::<
            Seq<char>,
            PathErrorView,
        >(e@),
        None => made.len() == paths.len(),
    }
}

/// Whether `paths` are the paths of a manifest that become files, in order.
pub open spec fn is_listing(manifest: TomlView, paths: Seq<Seq<char>>) -> bool {
    &&& file_set::is_ordered(paths)
    &&& forall|f: Seq<char>|
        paths.contains(f) <==> #[trigger] leaf_files(declared_files(manifest)).contains(f)
}

/// The files to be made for `paths`.
pub fn plan_placeholders(paths: &Vec<String>) -> (r: Placeholders)
    ensures
        is_plan(r, text::texts(paths@)),
{
    let ghost all = text::texts(paths@);
    let mut files: Vec<Placeholder> = Vec::new();
    let mut i: usize = 0;
    while i < paths.len()
        invariant
            i == files@.len() <= paths@.len(),
            all.len() == paths@.len(),
            forall|k: int| 0 <= k < paths@.len() ==> #[trigger] all[k] == paths@[k]@,
            forall|k: int| 0 <= k < i ==> stands_in(#[trigger] files@[k], all[k]),
        decreases paths.len() - i,
    {
        assert(all[i as int] == paths@[i as int]@);
        match placeholder_content(paths[i].as_str()) {
            Ok(content) => {
                let file = Placeholder { path: paths[i].as_str().to_owned(), content };
                assert(stands_in(file, all[i as int]));
                files.push(file);
            },
            Err(e) => {
                return Placeholders { files, fault: Some(e) };
            },
        }
        i += 1;
    }
    Placeholders { files, fault: None }
}

/// The files to be made for a crate of which only the manifest's text is at
/// hand.
pub fn materialize_manifest_backed_temp_crate(manifest: &str) -> (r: Result<
    Placeholders,
    toml::de::Error,
>)
    ensures
        match (document::toml_document(manifest@), r) {
            (Ok(tree), Ok(plan)) => exists|paths: Seq<Seq<char>>|
                is_listing(tree, paths) && #[trigger] is_plan(plan, paths),
            (Err(fault), Err(e)) => e == fault,
            _ => false,
        },
{
    match document::parse_document(manifest) {
        Ok(tree) => {
            let paths = materialize_manifest_paths(&tree);
            let plan = plan_placeholders(&paths);
            proof {
                let listed = text::texts(paths@);
                assert forall|f: Seq<char>|
                    listed.contains(f) <==> #[trigger] leaf_files(
                        declared_files(tree@),
                    ).contains(f) by {
                    assert(file_set::held(paths@).contains(f) == listed.contains(f));
                }
                assert(is_listing(tree@, listed) && is_plan(plan, listed));
            }
            Ok(plan)
        },
        Err(e) => Err(e),
    }
}

/// The files of a manifest have one order, so one plan.
pub proof fn law_listing_is_unique(
    manifest: TomlView,
    one: Seq<Seq<char>>,
    other: Seq<Seq<char>>,
)
    requires
        is_listing(manifest, one),
        is_listing(manifest, other),
    ensures
        one == other,
{
    assert forall|f: Seq<char>| #[trigger] one.contains(f) <==> other.contains(f) by {
        assert(one.contains(f) <==> leaf_files(declared_files(manifest)).contains(f));
    }
    file_set::lemma_one_order(one, other);
}

/// Whatever a manifest says, no file is made outside the crate: the path of
/// each only walks down.
pub proof fn law_files_stay_in_the_crate(plan: Placeholders, paths: Seq<Seq<char>>, i: int, k: int)
    requires
        is_plan(plan, paths),
        0 <= i < plan.files@.len(),
        0 <= k < path::components(plan.files@[i].path@).len(),
    ensures
        path::is_name(path::components(plan.files@[i].path@)[k]) || (k == 0 && path::components(
            plan.files@[i].path@,
        )[k] == seq!['.']),
{
    assert(stands_in(plan.files@[i], paths[i]));
    path::law_safe_path_walks_down(paths[i], k);
}

/// A manifest is refused exactly if one of the files that it needs would lie
/// outside the crate.
pub proof fn law_refused_if_a_file_escapes(
    manifest: TomlView,
    plan: Placeholders,
    paths: Seq<Seq<char>>,
)
    requires
        is_listing(manifest, paths),
        is_plan(plan, paths),
    ensures
        plan.fault is Some <==> exists|f: Seq<char>| #[trigger]
            leaf_files(declared_files(manifest)).contains(f) && path::safe_path(f) is Err,
{
    let n = plan.files@.len() as int;
    if plan.fault is Some {
        assert(paths.contains(paths[n]));
        assert(leaf_files(declared_files(manifest)).contains(paths[n]));
    } else {
        assert forall|f: Seq<char>| #[trigger]
            leaf_files(declared_files(manifest)).contains(f) implies path::safe_path(f) is Ok by {
            assert(paths.contains(f));
            let i = choose|i: int| 0 <= i < paths.len() && paths[i] == f;
            assert(stands_in(plan.files@[i], paths[i]));
        }
    }
}

/// No file has to be made where another has to have a directory.
pub proof fn law_no_file_below_another(manifest: TomlView, f: Seq<char>, g: Seq<char>)
    requires
        leaf_files(declared_files(manifest)).contains(f),
        leaf_files(declared_files(manifest)).contains(g),
    ensures
        !path::is_below(g, f),
{
    assert(declared_files(manifest).contains(g));
}

/// Every declared path exists once the files are made: it is one of them, or
/// one of them lies below it.
pub proof fn law_declared_paths_exist(manifest: TomlView, f: Seq<char>)
    requires
        declared_files(manifest).contains(f),
    ensures
        exists|g: Seq<char>| #[trigger]
            leaf_files(declared_files(manifest)).contains(g) && (g == f || path::is_below(g, f)),
{
    lemma_declared_finite(manifest);
    lemma_leaf_exists(declared_files(manifest), f);
}

/// A manifest that declares no target has the library `src/lib.rs`, and so has
/// one that declares other targets only and does not turn this off.
pub proof fn law_implied_library(manifest: TomlView)
    requires
        !has_any_target(manifest) || (manifest.table_at("lib"@) is None && finds_library(manifest)),
    ensures
        declared_files(manifest).contains("src/lib.rs"@),
{
}

/// The declared paths below `f`.
spec fn below(declared: Set<Seq<char>>, f: Seq<char>) -> Set<Seq<char>> {
    declared.filter(|g: Seq<char>| path::is_below(g, f))
}

/// What [`law_declared_paths_exist`] says of a finite set.
proof fn lemma_leaf_exists(declared: Set<Seq<char>>, f: Seq<char>)
    requires
        declared.finite(),
        declared.contains(f),
    ensures
        exists|g: Seq<char>| #[trigger]
            leaf_files(declared).contains(g) && (g == f || path::is_below(g, f)),
    decreases below(declared, f).len(),
{
    if forall|g: Seq<char>| #[trigger] declared.contains(g) ==> !path::is_below(g, f) {
        assert(leaf_files(declared).contains(f));
    } else {
        let g = choose|g: Seq<char>| #[trigger] declared.contains(g) && path::is_below(g, f);
        assert(below(declared, f).contains(g));
        assert forall|h: Seq<char>| below(declared, g).contains(h) implies below(
            declared,
            f,
        ).remove(g).contains(h) by {
            lemma_below_transitive(h, g, f);
        }
        assert(below(declared, g).subset_of(below(declared, f).remove(g)));
        vstd::set_lib::lemma_len_subset(below(declared, g), below(declared, f).remove(g));
        lemma_leaf_exists(declared, g);
        let h = choose|h: Seq<char>| #[trigger]
            leaf_files(declared).contains(h) && (h == g || path::is_below(h, g));
        if h != g {
            lemma_below_transitive(h, g, f);
        }
        assert(leaf_files(declared).contains(h) && path::is_below(h, f));
    }
}

/// What lies below something below `f` lies below `f`.
proof fn lemma_below_transitive(h: Seq<char>, g: Seq<char>, f: Seq<char>)
    requires
        path::is_below(h, g),
        path::is_below(g, f),
    ensures
        path::is_below(h, f),
        h != g,
{
    let a = path::components(h);
    let b = path::components(g);
    let c = path::components(f);
    assert(a.take(c.len() as int) =~= a.take(b.len() as int).take(c.len() as int));
    if a == c {
        assert(b =~= a.take(b.len() as int));
        assert(a.len() == b.len());
        assert(a.take(b.len() as int) =~= a);
    }
}

/// A manifest declares finitely many paths.
proof fn lemma_declared_finite(manifest: TomlView)
    ensures
        declared_files(manifest).finite(),
{
    if let Some(package) = manifest.table_at("package"@) {
        if let Some(items) = package.array_at("include"@) {
            lemma_include_finite(items, items.len() as int);
            assert(items.take(items.len() as int) =~= items);
        }
        assert(package_files(package).finite());
    }
    lemma_target_files_finite(manifest, "bin"@, "src/bin"@);
    lemma_target_files_finite(manifest, "example"@, "examples"@);
    lemma_target_files_finite(manifest, "test"@, "tests"@);
    lemma_target_files_finite(manifest, "bench"@, "benches"@);
}

proof fn lemma_include_finite(items: Seq<TomlView>, n: int)
    requires
        0 <= n <= items.len(),
    ensures
        include_files(items.take(n)).finite(),
    decreases n,
{
    if n == 0 {
        assert(include_files(items.take(0)) =~= Set::empty());
    } else {
        lemma_include_finite(items, n - 1);
        lemma_include_step(items, n - 1);
    }
}

proof fn lemma_targets_finite(
    kind: Seq<char>,
    directory: Seq<char>,
    targets: Seq<TomlView>,
    n: int,
)
    requires
        0 <= n <= targets.len(),
    ensures
        listed_targets(kind, directory, targets.take(n)).finite(),
    decreases n,
{
    if n == 0 {
        assert(listed_targets(kind, directory, targets.take(0)) =~= Set::empty());
    } else {
        lemma_targets_finite(kind, directory, targets, n - 1);
        lemma_target_step(kind, directory, targets, n - 1);
    }
}

proof fn lemma_target_files_finite(manifest: TomlView, kind: Seq<char>, directory: Seq<char>)
    ensures
        target_files(manifest, kind, directory).finite(),
{
    if let Some(targets) = manifest.array_at(kind) {
        lemma_targets_finite(kind, directory, targets, targets.len() as int);
        assert(targets.take(targets.len() as int) =~= targets);
    }
}

} // verus!
