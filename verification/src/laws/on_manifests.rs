//! Laws of [`crate::manifest`].
use vstd::prelude::*;

use crate::document::TomlView;
use crate::file_set;
use crate::laws::on_paths;
use crate::manifest;
use crate::manifest::Placeholders;
use crate::path;
use crate::path::{PathError, PathErrorView};
use crate::text;

verus! {

/// Where a target without a path and a name is looked for.
pub proof fn law_default_target(kind: Seq<char>)
    ensures
        manifest::default_target("bin"@) == "src/main.rs"@,
        manifest::default_target("example"@) == "examples/example.rs"@,
        manifest::default_target("test"@) == "tests/test.rs"@,
        manifest::default_target("bench"@) == "benches/bench.rs"@,
        kind != "bin"@ && kind != "example"@ && kind != "test"@ && kind != "bench"@
            ==> manifest::default_target(kind) == "src/lib.rs"@,
{
    reveal_strlit("bin");
    reveal_strlit("example");
    reveal_strlit("test");
    reveal_strlit("bench");
    assert("bin"@.len() == 3 && "example"@.len() == 7 && "test"@.len() == 4 && "bench"@.len() == 5);
}

/// A pattern is a plain path unless it excludes, has a wildcard or names the
/// manifest.
pub proof fn law_plain_include(pattern: Seq<char>)
    ensures
        manifest::is_plain_include(pattern) <==> {
            &&& pattern.len() == 0 || pattern[0] != '!'
            &&& forall|i: int|
                0 <= i < pattern.len() ==> #[trigger] pattern[i] != '*' && pattern[i] != '?'
                    && pattern[i] != '['
            &&& pattern != "Cargo.toml"@
        },
{
    if pattern.contains('*') {
        let i = choose|i: int| 0 <= i < pattern.len() && pattern[i] == '*';
        assert(pattern[i] == '*');
    }
    if pattern.contains('?') {
        let i = choose|i: int| 0 <= i < pattern.len() && pattern[i] == '?';
        assert(pattern[i] == '?');
    }
    if pattern.contains('[') {
        let i = choose|i: int| 0 <= i < pattern.len() && pattern[i] == '[';
        assert(pattern[i] == '[');
    }
    if exists|i: int|
        0 <= i < pattern.len() && (#[trigger] pattern[i] == '*' || pattern[i] == '?' || pattern[i]
            == '[') {
        let i = choose|i: int|
            0 <= i < pattern.len() && (#[trigger] pattern[i] == '*' || pattern[i] == '?'
                || pattern[i] == '[');
        assert(pattern.contains(pattern[i]));
    }
}

/// A library section declares the path that it gives, or `src/lib.rs` if it
/// gives none, whatever else it says.
pub proof fn law_library_section(m: TomlView, library: TomlView)
    requires
        m.table_at("lib"@) == Some(library),
    ensures
        match library.text_at("path"@) {
            Some(path) => manifest::declared_files(m).contains(path),
            None => manifest::declared_files(m).contains("src/lib.rs"@),
        },
{
}

/// A package section declares its readme and licence file, its build script
/// unless that is turned off, and the paths that it includes, without slashes
/// around them.
pub proof fn law_package_section(m: TomlView, package: TomlView, i: int)
    requires
        m.table_at("package"@) == Some(package),
    ensures
        package.text_at("readme"@) matches Some(path) ==> manifest::declared_files(m).contains(
            path,
        ),
        package.text_at("license-file"@) matches Some(path) ==> manifest::declared_files(
            m,
        ).contains(path),
        match package.get("build"@) {
            None => true,
            Some(TomlView::Flag(false)) => true,
            Some(TomlView::Text(path)) => manifest::declared_files(m).contains(path),
            Some(_) => manifest::declared_files(m).contains("build.rs"@),
        },
        package.array_at("include"@) matches Some(items) ==> 0 <= i < items.len() ==> (
        items[i] matches TomlView::Text(pattern) ==> manifest::is_plain_include(
            text::trim_start(pattern, '/'),
        ) ==> manifest::declared_files(m).contains(
            text::trim_end(text::trim_start(pattern, '/'), '/'),
        )),
{
    if let Some(items) = package.array_at("include"@) {
        if 0 <= i < items.len() {
            if let TomlView::Text(pattern) = items[i] {
                if manifest::is_plain_include(text::trim_start(pattern, '/')) {
                    assert(manifest::include_file(items[i]) == Some(
                        text::trim_end(text::trim_start(pattern, '/'), '/'),
                    ));
                }
            }
        }
    }
}

/// A listed target declares its path, else the file of its name in the
/// directory of its kind, else the default of its kind.
pub proof fn law_listed_target(
    m: TomlView,
    kind: Seq<char>,
    directory: Seq<char>,
    targets: Seq<TomlView>,
    i: int,
)
    requires
        (kind == "bin"@ && directory == "src/bin"@) || (kind == "example"@ && directory
            == "examples"@) || (kind == "test"@ && directory == "tests"@) || (kind == "bench"@
            && directory == "benches"@),
        m.array_at(kind) == Some(targets),
        0 <= i < targets.len(),
        targets[i] is Table,
    ensures
        match (targets[i].text_at("path"@), targets[i].text_at("name"@)) {
            (Some(path), _) => manifest::declared_files(m).contains(path),
            (None, Some(name)) => manifest::declared_files(m).contains(
                directory + "/"@ + name + ".rs"@,
            ),
            (None, None) => manifest::declared_files(m).contains(manifest::default_target(kind)),
        },
{
    let f = manifest::target_file(kind, directory, targets[i]);
    assert(f is Some);
    assert(manifest::listed_targets(kind, directory, targets).contains(f->0));
}

/// Nothing is declared but by the package section, the library section, a
/// listed target, or as the library that is there without being declared.
pub proof fn law_declared(m: TomlView, f: Seq<char>)
    ensures
        manifest::declared_files(m).contains(f) <==> {
            ||| m.table_at("package"@) matches Some(package) && {
                ||| package.text_at("readme"@) == Some(f)
                ||| package.text_at("license-file"@) == Some(f)
                ||| match package.get("build"@) {
                    None => false,
                    Some(TomlView::Flag(false)) => false,
                    Some(TomlView::Text(path)) => f == path,
                    Some(_) => f == "build.rs"@,
                }
                ||| package.array_at("include"@) matches Some(items) && exists|i: int|
                    0 <= i < items.len() && (#[trigger] items[i] matches TomlView::Text(pattern)
                        && manifest::is_plain_include(text::trim_start(pattern, '/')) && f
                        == text::trim_end(text::trim_start(pattern, '/'), '/'))
            }
            ||| m.table_at("lib"@) matches Some(library) && match library.text_at("path"@) {
                Some(path) => f == path,
                None => f == "src/lib.rs"@,
            }
            ||| exists|kind: Seq<char>, directory: Seq<char>, i: int|
                #![trigger manifest::target_file(kind, directory, m.array_at(kind)->0[i])]
                {
                    &&& {
                        ||| kind == "bin"@ && directory == "src/bin"@
                        ||| kind == "example"@ && directory == "examples"@
                        ||| kind == "test"@ && directory == "tests"@
                        ||| kind == "bench"@ && directory == "benches"@
                    }
                    &&& m.array_at(kind) is Some
                    &&& 0 <= i < m.array_at(kind)->0.len()
                    &&& m.array_at(kind)->0[i] is Table
                    &&& match (
                        m.array_at(kind)->0[i].text_at("path"@),
                        m.array_at(kind)->0[i].text_at("name"@),
                    ) {
                        (Some(path), _) => f == path,
                        (None, Some(name)) => f == directory + "/"@ + name + ".rs"@,
                        (None, None) => f == manifest::default_target(kind),
                    }
                }
            ||| f == "src/lib.rs"@ && m.table_at("lib"@) is None && (m.table_at("package"@) is None
                || m.table_at("package"@)->0.get("autolib"@) != Some(TomlView::Flag(false)))
            ||| f == "src/lib.rs"@ && m.table_at("lib"@) is None && (forall|
                kind: Seq<char>,
                i: int,
            |
                #![trigger m.array_at(kind)->0[i]]
                (kind == "bin"@ || kind == "example"@ || kind == "test"@ || kind == "bench"@)
                    && m.array_at(kind) is Some && 0 <= i < m.array_at(kind)->0.len()
                    ==> !(m.array_at(kind)->0[i] is Table))
        },
{
    let by_package = m.table_at("package"@) matches Some(package) && {
        ||| package.text_at("readme"@) == Some(f)
        ||| package.text_at("license-file"@) == Some(f)
        ||| match package.get("build"@) {
            None => false,
            Some(TomlView::Flag(false)) => false,
            Some(TomlView::Text(path)) => f == path,
            Some(_) => f == "build.rs"@,
        }
        ||| package.array_at("include"@) matches Some(items) && exists|i: int|
            0 <= i < items.len() && (#[trigger] items[i] matches TomlView::Text(pattern)
                && manifest::is_plain_include(text::trim_start(pattern, '/')) && f
                == text::trim_end(text::trim_start(pattern, '/'), '/'))
    };
    if let Some(package) = m.table_at("package"@) {
        if let Some(items) = package.array_at("include"@) {
            assert forall|i: int| 0 <= i < items.len() implies (manifest::include_file(
                #[trigger] items[i],
            ) == Some(f) <==> (items[i] matches TomlView::Text(pattern)
                && manifest::is_plain_include(text::trim_start(pattern, '/')) && f
                == text::trim_end(text::trim_start(pattern, '/'), '/'))) by {}
            if manifest::include_files(items).contains(f) {
                let i = choose|i: int|
                    0 <= i < items.len() && manifest::include_file(#[trigger] items[i]) == Some(f);
                assert(items[i] matches TomlView::Text(pattern) && manifest::is_plain_include(
                    text::trim_start(pattern, '/'),
                ) && f == text::trim_end(text::trim_start(pattern, '/'), '/'));
            }
            if exists|i: int|
                0 <= i < items.len() && (#[trigger] items[i] matches TomlView::Text(pattern)
                    && manifest::is_plain_include(text::trim_start(pattern, '/')) && f
                    == text::trim_end(text::trim_start(pattern, '/'), '/')) {
                let i = choose|i: int|
                    0 <= i < items.len() && (#[trigger] items[i] matches TomlView::Text(pattern)
                        && manifest::is_plain_include(text::trim_start(pattern, '/')) && f
                        == text::trim_end(text::trim_start(pattern, '/'), '/'));
                assert(manifest::include_file(items[i]) == Some(f));
            }
        }
        assert(manifest::package_files(package).contains(f) <==> by_package);
    }
    lemma_targets(m, "bin"@, "src/bin"@, f);
    lemma_targets(m, "example"@, "examples"@, f);
    lemma_targets(m, "test"@, "tests"@, f);
    lemma_targets(m, "bench"@, "benches"@, f);
    lemma_any_target(m);
}

/// What the targets of one kind declare.
proof fn lemma_targets(m: TomlView, kind: Seq<char>, directory: Seq<char>, f: Seq<char>)
    ensures
        manifest::target_files(m, kind, directory).contains(f) <==> m.array_at(kind) is Some
            && exists|i: int|
            #![trigger manifest::target_file(kind, directory, m.array_at(kind)->0[i])]
            {
                &&& 0 <= i < m.array_at(kind)->0.len()
                &&& m.array_at(kind)->0[i] is Table
                &&& match (
                    m.array_at(kind)->0[i].text_at("path"@),
                    m.array_at(kind)->0[i].text_at("name"@),
                ) {
                    (Some(path), _) => f == path,
                    (None, Some(name)) => f == directory + "/"@ + name + ".rs"@,
                    (None, None) => f == manifest::default_target(kind),
                }
            },
{
    if let Some(targets) = m.array_at(kind) {
        if manifest::target_files(m, kind, directory).contains(f) {
            let i = choose|i: int|
                0 <= i < targets.len() && manifest::target_file(
                    kind,
                    directory,
                    #[trigger] targets[i],
                ) == Some(f);
            assert(manifest::target_file(kind, directory, m.array_at(kind)->0[i]) == Some(f));
        }
    }
}

/// Whether any target is declared.
proof fn lemma_any_target(m: TomlView)
    ensures
        manifest::has_any_target(m) <==> m.table_at("lib"@) is Some || exists|
            kind: Seq<char>,
            i: int,
        |
            #![trigger m.array_at(kind)->0[i]]
            (kind == "bin"@ || kind == "example"@ || kind == "test"@ || kind == "bench"@)
                && m.array_at(kind) is Some && 0 <= i < m.array_at(kind)->0.len() && m.array_at(
                kind,
            )->0[i] is Table,
{
    assert forall|kind: Seq<char>| #[trigger] manifest::has_target(m, kind) implies m.array_at(
        kind,
    ) is Some && exists|i: int|
        0 <= i < m.array_at(kind)->0.len() && #[trigger] m.array_at(kind)->0[i] is Table by {
        let targets = m.array_at(kind)->0;
        let i = choose|i: int| 0 <= i < targets.len() && #[trigger] targets[i] is Table;
        assert(m.array_at(kind)->0[i] is Table);
    }
}

/// A declared path becomes a file exactly if no other declared path lies below
/// it.
pub proof fn law_leaf_files(declared: Set<Seq<char>>, f: Seq<char>)
    ensures
        manifest::leaf_files(declared).contains(f) <==> declared.contains(f) && forall|
            g: Seq<char>,
            more: Seq<Seq<char>>,
        |
            #![trigger declared.contains(g), path::components(f) + more]
            declared.contains(g) && more.len() > 0 ==> path::components(g) != path::components(f)
                + more,
{
    if manifest::leaf_files(declared).contains(f) {
        assert forall|g: Seq<char>, more: Seq<Seq<char>>|
            #![trigger declared.contains(g), path::components(f) + more]
            declared.contains(g) && more.len() > 0 implies path::components(g) != path::components(
            f,
        ) + more by {
            on_paths::law_below(g, f);
        }
    }
    if declared.contains(f) && !manifest::leaf_files(declared).contains(f) {
        let g = choose|g: Seq<char>| #[trigger] declared.contains(g) && path::is_below(g, f);
        on_paths::law_below(g, f);
        let more = choose|more: Seq<Seq<char>>|
            more.len() > 0 && path::components(g) == #[trigger] (path::components(f) + more);
        assert(declared.contains(g) && path::components(g) == path::components(f) + more);
    }
}

/// What stands in for a file goes by its extension.
pub proof fn law_placeholder(path: Seq<char>)
    ensures
        path::extension(path) == Some("rs"@) ==> manifest::placeholder_text(path)
            == "// Placeholder for takopack localpkg spec generation.\n"@,
        path::extension(path) == Some("md"@) ==> manifest::placeholder_text(path)
            == "# Placeholder\n"@,
        path::extension(path) != Some("rs"@) && path::extension(path) != Some("md"@)
            ==> manifest::placeholder_text(path)
            == "Placeholder for takopack localpkg spec generation.\n"@,
{
    reveal_strlit("rs");
    reveal_strlit("md");
    assert("rs"@[0] != "md"@[0]);
}

/// A plan makes the paths in their order, each with its text, and all of them,
/// or those up to the first that is refused, which it names.
pub proof fn law_plan(plan: Placeholders, paths: Seq<Seq<char>>)
    ensures
        manifest::is_plan(plan, paths) <==> {
            &&& plan.files@.len() <= paths.len()
            &&& forall|i: int|
                0 <= i < plan.files@.len() ==> (#[trigger] plan.files@[i]).path@ == paths[i]
                    && plan.files@[i].content@ == manifest::placeholder_text(paths[i])
                    && path::safe_path(paths[i]) is Ok
            &&& match plan.fault {
                None => plan.files@.len() == paths.len(),
                Some(e) => plan.files@.len() < paths.len() && path::safe_path(
                    paths[plan.files@.len() as int],
                ) == Err::<Seq<char>, _>(e@),
            }
        },
{
    assert forall|i: int| 0 <= i < plan.files@.len() implies (manifest::stands_in(
        #[trigger] plan.files@[i],
        paths[i],
    ) <==> plan.files@[i].path@ == paths[i] && plan.files@[i].content@
        == manifest::placeholder_text(paths[i]) && path::safe_path(paths[i]) is Ok) by {}
}

/// The listing of a manifest has the declared paths that become files, in
/// order.
pub proof fn law_listing(m: TomlView, paths: Seq<Seq<char>>)
    ensures
        manifest::is_listing(m, paths) <==> {
            &&& file_set::is_ordered(paths)
            &&& forall|f: Seq<char>|
                paths.contains(f) <==> #[trigger] manifest::leaf_files(
                    manifest::declared_files(m),
                ).contains(f)
        },
{
}

/// What stands for an error keeps its path.
pub proof fn law_path_views(error: PathError)
    ensures
        match error {
            PathError::Absolute(path) => error@ == PathErrorView::Absolute(path@),
            PathError::Escapes(path) => error@ == PathErrorView::Escapes(path@),
        },
{
}

} // verus!
