//! Laws of [`crate::lockfile`] and [`crate::doubts`].
use vstd::prelude::*;

use crate::document::TomlView;
use crate::doubts;
use crate::laws::on_text;
use crate::lockfile;
use crate::lockfile::{LockError, LockErrorView, LockedDependency, LockedPackage};
use crate::text;
use crate::version;
use crate::version::{Version, VersionView};

verus! {

/// A package fits a dependency of the same name that asks for no version or
/// for the package's own.
pub proof fn law_fits(
    package: Seq<char>,
    version: VersionView,
    name: Seq<char>,
    asked: VersionView,
)
    ensures
        lockfile::fits((package, version), (name, None)) <==> package == name,
        lockfile::fits((package, version), (name, Some(asked))) <==> package == name && version
            == asked,
{
}

/// A dependency that one package fits, and no other does, resolves to the
/// version of that package.
pub proof fn law_one_fit_resolves(
    before: Seq<(Seq<char>, VersionView)>,
    package: (Seq<char>, VersionView),
    after: Seq<(Seq<char>, VersionView)>,
    dependency: (Seq<char>, Option<VersionView>),
)
    requires
        lockfile::fits(package, dependency),
        forall|i: int| 0 <= i < before.len() ==> !lockfile::fits(#[trigger] before[i], dependency),
        forall|i: int| 0 <= i < after.len() ==> !lockfile::fits(#[trigger] after[i], dependency),
    ensures
        lockfile::resolution(before + seq![package] + after, dependency) == Some(package.1),
        lockfile::resolution(before, dependency) is None,
{
    let all = before + seq![package] + after;
    let at = before.len() as int;
    assert(all[at] == package);
    assert forall|j: int|
        0 <= j < all.len() && lockfile::fits(#[trigger] all[j], dependency) implies j == at by {
        if j < at {
            assert(all[j] == before[j]);
        } else if j > at {
            assert(all[j] == after[j - at - 1]);
        }
    }
    assert(lockfile::sole_fit(all, dependency, at));
    let c = choose|i: int| lockfile::sole_fit(all, dependency, i);
    assert(c == at);
    if exists|i: int| lockfile::sole_fit(before, dependency, i) {
        let i = choose|i: int| lockfile::sole_fit(before, dependency, i);
        assert(!lockfile::fits(before[i], dependency));
    }
}

/// A dependency that packages at two places fit resolves to nothing.
pub proof fn law_two_fits_resolve_to_nothing(
    packages: Seq<(Seq<char>, VersionView)>,
    dependency: (Seq<char>, Option<VersionView>),
    i: int,
    j: int,
)
    requires
        0 <= i < j < packages.len(),
        lockfile::fits(packages[i], dependency),
        lockfile::fits(packages[j], dependency),
    ensures
        lockfile::resolution(packages, dependency) is None,
{
    if exists|k: int| lockfile::sole_fit(packages, dependency, k) {
        let k = choose|k: int| lockfile::sole_fit(packages, dependency, k);
        assert(lockfile::fits(packages[i], dependency) && lockfile::fits(packages[j], dependency));
    }
}

/// A version is selected for a name exactly if a dependency of that name
/// resolves to it and none of that name resolves to another.
pub proof fn law_selection(
    packages: Seq<(Seq<char>, VersionView)>,
    dependencies: Seq<(Seq<char>, Option<VersionView>)>,
    name: Seq<char>,
    v: VersionView,
)
    ensures
        lockfile::selection(packages, dependencies).contains_key(name) && lockfile::selection(
            packages,
            dependencies,
        )[name] == v <==> {
            &&& exists|d: int|
                0 <= d < dependencies.len() && (#[trigger] dependencies[d]).0 == name
                    && lockfile::resolution(packages, dependencies[d]) == Some(v)
            &&& forall|d: int|
                0 <= d < dependencies.len() && (#[trigger] dependencies[d]).0 == name
                    ==> lockfile::resolution(packages, dependencies[d]) is None
                    || lockfile::resolution(packages, dependencies[d]) == Some(v)
        },
{
    let all = lockfile::selection(packages, dependencies);
    if lockfile::selects(packages, dependencies, name, v) {
        assert(all.contains_key(name));
        lockfile::lemma_selects_one(packages, dependencies, name, v, all[name]);
    }
    if all.contains_key(name) && all[name] == v {
        assert(lockfile::selects(packages, dependencies, name, v));
    }
}

/// A package entry is the one sought by its name and version as written.
pub proof fn law_entry(entry: TomlView, name: Seq<char>, version: Seq<char>)
    ensures
        lockfile::is_entry(entry, name, version) <==> entry.text_at("name"@) == Some(name)
            && entry.text_at("version"@) == Some(version),
{
}

/// The first entry that is sought is found, and none where there is none.
pub proof fn law_find_entry(
    before: Seq<TomlView>,
    entry: TomlView,
    after: Seq<TomlView>,
    name: Seq<char>,
    version: Seq<char>,
)
    requires
        forall|i: int|
            0 <= i < before.len() ==> !lockfile::is_entry(#[trigger] before[i], name, version),
        lockfile::is_entry(entry, name, version),
    ensures
        lockfile::find_entry(before + seq![entry] + after, name, version) == Some(entry),
        lockfile::find_entry(before, name, version) is None,
{
    let all = before + seq![entry] + after;
    let at = before.len() as int;
    assert(all[at] == entry);
    assert forall|j: int| 0 <= j < at implies !lockfile::is_entry(
        #[trigger] all[j],
        name,
        version,
    ) by {
        assert(all[j] == before[j]);
    }
    lockfile::lemma_find_entry(all, name, version, at);
    lockfile::lemma_find_entry(before, name, version, at);
}

/// An entry with a name and a version that parses is the package of that name,
/// as written, and that version. Any other entry is none.
pub proof fn law_packages(entries: Seq<TomlView>, entry: TomlView)
    ensures
        lockfile::packages_of(seq![]) == Seq::<(Seq<char>, VersionView)>::empty(),
        match (entry.text_at("name"@), entry.text_at("version"@)) {
            (Some(name), Some(written)) => match version::semver_version(written) {
                Some(v) => lockfile::packages_of(entries.push(entry)) == lockfile::packages_of(
                    entries,
                ).push((name, v)),
                None => lockfile::packages_of(entries.push(entry)) == lockfile::packages_of(
                    entries,
                ),
            },
            _ => lockfile::packages_of(entries.push(entry)) == lockfile::packages_of(entries),
        },
{
    assert(entries.push(entry).drop_last() =~= entries);
}

/// A dependency line means the name that it begins with, as it stands, and the
/// version that its second word parses to, if it has one. White space around
/// the words and what follows them do not matter.
pub proof fn law_dependency(
    front: Seq<char>,
    name: Seq<char>,
    between: Seq<char>,
    version: Seq<char>,
    space: char,
    rest: Seq<char>,
)
    requires
        forall|i: int| 0 <= i < front.len() ==> text::is_space(#[trigger] front[i]),
        name.len() > 0,
        forall|i: int| 0 <= i < name.len() ==> !text::is_space(#[trigger] name[i]),
        forall|i: int| 0 <= i < between.len() ==> text::is_space(#[trigger] between[i]),
        version.len() > 0,
        forall|i: int| 0 <= i < version.len() ==> !text::is_space(#[trigger] version[i]),
        text::is_space(space),
    ensures
        lockfile::dependency_of(TomlView::Text(front)) is None,
        lockfile::dependency_of(TomlView::Text(front + name + between)) == Some(
            (name, None::<VersionView>),
        ),
        between.len() > 0 ==> lockfile::dependency_of(
            TomlView::Text(front + name + between + version),
        ) == Some((name, version::semver_version(version))),
        between.len() > 0 ==> lockfile::dependency_of(
            TomlView::Text(front + name + between + version + seq![space] + rest),
        ) == Some((name, version::semver_version(version))),
{
    let none = Seq::<char>::empty();
    on_text::law_words(name, space, none);
    lemma_blank_front(front, none);
    assert(front + none =~= front);
    lemma_blank_front(front, name + between);
    assert(front + name + between =~= front + (name + between));
    lemma_word_and_blank(name, between, none);
    assert(name + between + none =~= name + between);
    if between.len() > 0 {
        lemma_blank_front(front, name + between + version);
        assert(front + name + between + version =~= front + (name + between + version));
        lemma_word_and_blank(name, between, version);
        on_text::law_words(version, space, rest);
        let tail = version + seq![space] + rest;
        lemma_blank_front(front, name + between + tail);
        assert(front + name + between + version + seq![space] + rest =~= front + (name + between
            + tail));
        lemma_word_and_blank(name, between, tail);
        assert(text::words(tail)[0] == version);
    }
}

/// White space in front changes no word.
proof fn lemma_blank_front(front: Seq<char>, rest: Seq<char>)
    requires
        forall|i: int| 0 <= i < front.len() ==> text::is_space(#[trigger] front[i]),
    ensures
        text::words(front + rest) == text::words(rest),
    decreases front.len(),
{
    if front.len() == 0 {
        assert(front + rest =~= rest);
    } else {
        let more = front.drop_first();
        assert(text::is_space(front[0]));
        assert forall|i: int| 0 <= i < more.len() implies text::is_space(#[trigger] more[i]) by {
            assert(more[i] == front[i + 1]);
        }
        lemma_blank_front(more, rest);
        on_text::law_words(Seq::empty(), front[0], more + rest);
        assert(front + rest =~= seq![front[0]] + (more + rest));
    }
}

/// A word stands in front of the words behind white space.
proof fn lemma_word_and_blank(word: Seq<char>, blank: Seq<char>, rest: Seq<char>)
    requires
        word.len() > 0,
        forall|i: int| 0 <= i < word.len() ==> !text::is_space(#[trigger] word[i]),
        forall|i: int| 0 <= i < blank.len() ==> text::is_space(#[trigger] blank[i]),
        blank.len() > 0 || rest.len() == 0,
    ensures
        text::words(word + blank + rest) == seq![word] + text::words(rest),
{
    if blank.len() == 0 {
        assert(word + blank + rest =~= word);
        assert(rest =~= Seq::<char>::empty());
        on_text::law_words(word, ' ', rest);
        assert(seq![word] + text::words(rest) =~= seq![word]);
    } else {
        let more = blank.drop_first();
        assert(text::is_space(blank[0]));
        assert forall|i: int| 0 <= i < more.len() implies text::is_space(#[trigger] more[i]) by {
            assert(more[i] == blank[i + 1]);
        }
        lemma_blank_front(more, rest);
        on_text::law_words(word, blank[0], more + rest);
        assert(word + blank + rest =~= word + seq![blank[0]] + (more + rest));
    }
}

/// Each line of a dependency list that is a text with a word adds what it
/// means. Nothing else does.
pub proof fn law_dependencies(items: Seq<TomlView>, item: TomlView)
    ensures
        lockfile::dependencies_of(seq![]) == Seq::<(Seq<char>, Option<VersionView>)>::empty(),
        match lockfile::dependency_of(item) {
            Some(dependency) => lockfile::dependencies_of(items.push(item))
                == lockfile::dependencies_of(items).push(dependency),
            None => lockfile::dependencies_of(items.push(item)) == lockfile::dependencies_of(items),
        },
        !(item is Text) ==> lockfile::dependency_of(item) is None,
{
    assert(items.push(item).drop_last() =~= items);
}

/// A lockfile needs package entries. The versions of a package that it lacks
/// are not known, those of a package without a dependency list are none, and
/// any other has the selection among all packages.
pub proof fn law_locked_dependencies(lock: TomlView, name: Seq<char>, version: Seq<char>)
    ensures
        ({
            let read = lockfile::locked_dependencies_of(lock, name, version);
            match lock.array_at("package"@) {
                None => read == Err::<Option<Map<Seq<char>, VersionView>>, _>(
                    LockErrorView::NoPackageArray,
                ),
                Some(entries) => match lockfile::find_entry(entries, name, version) {
                    None => read == Ok::<_, LockErrorView>(None::<Map<Seq<char>, VersionView>>),
                    Some(entry) => match entry.array_at("dependencies"@) {
                        None => read == Ok::<_, LockErrorView>(
                            Some(Map::<Seq<char>, VersionView>::empty()),
                        ),
                        Some(items) => read == Ok::<_, LockErrorView>(
                            Some(
                                lockfile::selection(
                                    lockfile::packages_of(entries),
                                    lockfile::dependencies_of(items),
                                ),
                            ),
                        ),
                    },
                },
            }
        }),
{
}

/// A dependency that is listed by its name alone, whatever characters that
/// has, gets the version of the one package entry of that name.
pub proof fn law_listed_name_is_pinned(
    lock: TomlView,
    package: Seq<char>,
    version: Seq<char>,
    entries: Seq<TomlView>,
    items: Seq<TomlView>,
    name: Seq<char>,
    at: int,
    line: int,
    v: VersionView,
)
    requires
        lock.array_at("package"@) == Some(entries),
        lockfile::find_entry(entries, package, version) is Some,
        lockfile::find_entry(entries, package, version)->0.array_at("dependencies"@) == Some(items),
        name.len() > 0,
        forall|i: int| 0 <= i < name.len() ==> !text::is_space(#[trigger] name[i]),
        0 <= at < entries.len(),
        entries[at].text_at("name"@) == Some(name),
        entries[at].text_at("version"@) is Some,
        version::semver_version(entries[at].text_at("version"@)->0) == Some(v),
        forall|i: int|
            0 <= i < entries.len() && (#[trigger] entries[i]).text_at("name"@) == Some(name) ==> i
                == at,
        0 <= line < items.len(),
        items[line] == TomlView::Text(name),
    ensures
        lockfile::locked_dependencies_of(lock, package, version) matches Ok(Some(selected))
            && selected.contains_key(name) && selected[name] == v,
{
    let packages = lockfile::packages_of(entries);
    let dependencies = lockfile::dependencies_of(items);
    law_dependency(seq![], name, seq![], name, ' ', seq![]);
    assert(Seq::<char>::empty() + name + Seq::<char>::empty() =~= name);
    let dependency = (name, None::<VersionView>);
    lemma_dependency_is_listed(items, line, dependency);
    let d = choose|d: int| 0 <= d < dependencies.len() && dependencies[d] == dependency;
    lemma_only_package(entries, name, at, v);
    let k = choose|k: int|
        {
            &&& 0 <= k < packages.len()
            &&& #[trigger] packages[k] == (name, v)
            &&& forall|j: int|
                0 <= j < packages.len() && (#[trigger] packages[j]).0 == name ==> j == k
        };
    assert forall|e: int|
        0 <= e < dependencies.len() && (#[trigger] dependencies[e]).0 == name implies
        lockfile::resolution(packages, dependencies[e]) is None || lockfile::resolution(
        packages,
        dependencies[e],
    ) == Some(v) by {
        if exists|i: int| lockfile::sole_fit(packages, dependencies[e], i) {
            let i = choose|i: int| lockfile::sole_fit(packages, dependencies[e], i);
            assert(packages[i].0 == name);
        }
    }
    assert(lockfile::sole_fit(packages, dependency, k));
    let i = choose|i: int| lockfile::sole_fit(packages, dependency, i);
    assert(packages[i].0 == name);
    assert(lockfile::resolution(packages, dependencies[d]) == Some(v));
    assert(dependencies[d].0 == name);
    law_selection(packages, dependencies, name, v);
}

/// What a line means is among the dependencies.
proof fn lemma_dependency_is_listed(
    items: Seq<TomlView>,
    line: int,
    dependency: (Seq<char>, Option<VersionView>),
)
    requires
        0 <= line < items.len(),
        lockfile::dependency_of(items[line]) == Some(dependency),
    ensures
        lockfile::dependencies_of(items).contains(dependency),
    decreases items.len(),
{
    let front = items.drop_last();
    let all = lockfile::dependencies_of(items);
    if line == items.len() - 1 {
        assert(all[all.len() - 1] == dependency);
    } else {
        lemma_dependency_is_listed(front, line, dependency);
        let earlier = lockfile::dependencies_of(front);
        let d = choose|d: int| 0 <= d < earlier.len() && earlier[d] == dependency;
        assert(all[d] == dependency);
    }
}

/// The only entry of a name is the only package of that name.
proof fn lemma_only_package(entries: Seq<TomlView>, name: Seq<char>, at: int, v: VersionView)
    requires
        0 <= at < entries.len(),
        entries[at].text_at("name"@) == Some(name),
        lockfile::package_of(entries[at]) == Some((name, v)),
        forall|i: int|
            0 <= i < entries.len() && (#[trigger] entries[i]).text_at("name"@) == Some(name) ==> i
                == at,
    ensures
        exists|k: int|
            {
                &&& 0 <= k < lockfile::packages_of(entries).len()
                &&& #[trigger] lockfile::packages_of(entries)[k] == (name, v)
                &&& forall|j: int|
                    0 <= j < lockfile::packages_of(entries).len()
                        && (#[trigger] lockfile::packages_of(entries)[j]).0 == name ==> j == k
            },
    decreases entries.len(),
{
    let front = entries.drop_last();
    let all = lockfile::packages_of(entries);
    let earlier = lockfile::packages_of(front);
    assert(forall|i: int| 0 <= i < front.len() ==> front[i] == #[trigger] entries[i]);
    if at == entries.len() - 1 {
        assert forall|i: int| 0 <= i < front.len() implies (#[trigger] front[i]).text_at("name"@)
            != Some(name) by {
            assert(entries[i] == front[i]);
        }
        lemma_no_package(front, name);
        assert(all[earlier.len() as int] == (name, v));
    } else {
        assert forall|i: int|
            0 <= i < front.len() && (#[trigger] front[i]).text_at("name"@) == Some(name) implies i
            == at by {
            assert(entries[i] == front[i]);
        }
        lemma_only_package(front, name, at, v);
        let k = choose|k: int|
            {
                &&& 0 <= k < earlier.len()
                &&& #[trigger] earlier[k] == (name, v)
                &&& forall|j: int|
                    0 <= j < earlier.len() && (#[trigger] earlier[j]).0 == name ==> j == k
            };
        assert(entries[entries.len() - 1].text_at("name"@) != Some(name));
        assert(all[k] == (name, v));
        assert forall|j: int| 0 <= j < all.len() && (#[trigger] all[j]).0 == name implies j
            == k by {
            if j < earlier.len() {
                assert(earlier[j] == all[j]);
            }
        }
    }
}

/// Entries without a name make no package of that name.
proof fn lemma_no_package(entries: Seq<TomlView>, name: Seq<char>)
    requires
        forall|i: int|
            0 <= i < entries.len() ==> (#[trigger] entries[i]).text_at("name"@) != Some(name),
    ensures
        forall|j: int|
            0 <= j < lockfile::packages_of(entries).len() ==> (#[trigger] lockfile::packages_of(
                entries,
            )[j]).0 != name,
    decreases entries.len(),
{
    if entries.len() > 0 {
        let front = entries.drop_last();
        assert forall|i: int| 0 <= i < front.len() implies (#[trigger] front[i]).text_at("name"@)
            != Some(name) by {
            assert(entries[i] == front[i]);
        }
        lemma_no_package(front, name);
        assert(entries[entries.len() - 1].text_at("name"@) != Some(name));
        assert forall|j: int| 0 <= j < lockfile::packages_of(entries).len() implies (
        #[trigger] lockfile::packages_of(entries)[j]).0 != name by {
            if j < lockfile::packages_of(front).len() {
                assert(lockfile::packages_of(entries)[j] == lockfile::packages_of(front)[j]);
            }
        }
    }
}

/// A version that is set counts from then on, and changes no other.
pub proof fn law_version_map(entries: Seq<(String, Version)>, name: String, v: Version)
    ensures
        lockfile::version_map(seq![]) == Map::<Seq<char>, VersionView>::empty(),
        lockfile::version_map(entries.push((name, v))) == lockfile::version_map(entries).insert(
            name@,
            v@,
        ),
{
    assert(entries.push((name, v)).drop_last() =~= entries);
}

/// What stands for a package, a dependency or an error keeps all of it.
pub proof fn law_lockfile_views(
    packages: Seq<LockedPackage>,
    dependencies: Seq<LockedDependency>,
    error: LockError,
)
    ensures
        lockfile::package_views(packages).len() == packages.len(),
        forall|i: int|
            0 <= i < packages.len() ==> #[trigger] lockfile::package_views(packages)[i] == (
                packages[i].name@,
                packages[i].version@,
            ),
        lockfile::dependency_views(dependencies).len() == dependencies.len(),
        forall|i: int|
            0 <= i < dependencies.len() ==> #[trigger] lockfile::dependency_views(dependencies)[i]
                == (
                dependencies[i].name@,
                match dependencies[i].version {
                    Some(v) => Some(v@),
                    None => None,
                },
            ),
        match error {
            LockError::Syntax(e) => error@ == LockErrorView::Syntax(e),
            LockError::NoPackageArray => error@ == LockErrorView::NoPackageArray,
        },
{
}

/// Each package that fits counts once.
pub proof fn law_fit_count(
    packages: Seq<(Seq<char>, VersionView)>,
    package: (Seq<char>, VersionView),
    dependency: (Seq<char>, Option<VersionView>),
)
    ensures
        doubts::fit_count(seq![], dependency) == 0,
        lockfile::fits(package, dependency) ==> doubts::fit_count(
            packages.push(package),
            dependency,
        ) == doubts::fit_count(packages, dependency) + 1,
        !lockfile::fits(package, dependency) ==> doubts::fit_count(
            packages.push(package),
            dependency,
        ) == doubts::fit_count(packages, dependency),
{
    assert(packages.push(package).drop_last() =~= packages);
}

/// A line is reported as it stands, with the number of packages that fit it,
/// exactly if it means a dependency and that number is not one.
pub proof fn law_doubtful_lines(
    packages: Seq<(Seq<char>, VersionView)>,
    items: Seq<TomlView>,
    item: TomlView,
)
    ensures
        doubts::doubtful_lines(packages, seq![]) == Seq::<(Seq<char>, nat)>::empty(),
        match (lockfile::dependency_of(item), item) {
            (Some(dependency), TomlView::Text(line)) => if doubts::fit_count(packages, dependency)
                == 1 {
                doubts::doubtful_lines(packages, items.push(item)) == doubts::doubtful_lines(
                    packages,
                    items,
                )
            } else {
                doubts::doubtful_lines(packages, items.push(item)) == doubts::doubtful_lines(
                    packages,
                    items,
                ).push((line, doubts::fit_count(packages, dependency)))
            },
            _ => doubts::doubtful_lines(packages, items.push(item)) == doubts::doubtful_lines(
                packages,
                items,
            ),
        },
{
    assert(items.push(item).drop_last() =~= items);
}

/// What is reported of a package comes from its dependency list and from all
/// package entries. Without a list there is nothing to report.
pub proof fn law_reports(lock: TomlView, name: Seq<char>, version: Seq<char>, n: Seq<char>)
    ensures
        match lock.array_at("package"@) {
            None => doubts::doubtful_of(lock, name, version).len() == 0 && !doubts::conflicts_of(
                lock,
                name,
                version,
            ).contains(n),
            Some(entries) => match lockfile::find_entry(entries, name, version) {
                None => doubts::doubtful_of(lock, name, version).len() == 0
                    && !doubts::conflicts_of(lock, name, version).contains(n),
                Some(entry) => match entry.array_at("dependencies"@) {
                    None => doubts::doubtful_of(lock, name, version).len() == 0
                        && !doubts::conflicts_of(lock, name, version).contains(n),
                    Some(items) => {
                        &&& doubts::doubtful_of(lock, name, version) == doubts::doubtful_lines(
                            lockfile::packages_of(entries),
                            items,
                        )
                        &&& doubts::conflicts_of(lock, name, version).contains(n)
                            <==> doubts::in_conflict(
                            lockfile::packages_of(entries),
                            lockfile::dependencies_of(items),
                            n,
                        )
                    },
                },
            },
        },
{
}

/// A list of lines has their texts and numbers, in their order.
pub proof fn law_line_views(lines: Seq<(String, usize)>)
    ensures
        doubts::line_views(lines).len() == lines.len(),
        forall|i: int|
            0 <= i < lines.len() ==> #[trigger] doubts::line_views(lines)[i] == (
                lines[i].0@,
                lines[i].1 as nat,
            ),
{
}

} // verus!
