//! Dependencies for which a lockfile settles no version, and why.
use vstd::prelude::*;

use crate::document;
use crate::document::{Toml, TomlView};
use crate::file_set;
use crate::lockfile;
use crate::lockfile::{LockedDependency, LockedPackage};
use crate::text;
use crate::version::VersionView;

verus! {

/// How many packages fit a dependency.
pub open spec fn fit_count(
    packages: Seq<(Seq<char>, VersionView)>,
    dependency: (Seq<char>, Option<VersionView>),
) -> nat
    decreases packages.len(),
{
    if packages.len() == 0 {
        0
    } else if lockfile::fits(packages.last(), dependency) {
        fit_count(packages.drop_last(), dependency) + 1
    } else {
        fit_count(packages.drop_last(), dependency)
    }
}

/// The lines of a dependency list that other than one package fits, each with
/// the number of those that do.
pub open spec fn doubtful_lines(
    packages: Seq<(Seq<char>, VersionView)>,
    items: Seq<TomlView>,
) -> Seq<(Seq<char>, nat)>
    decreases items.len(),
{
    if items.len() == 0 {
        seq![]
    } else {
        let earlier = doubtful_lines(packages, items.drop_last());
        match (lockfile::dependency_of(items.last()), items.last().as_text()) {
            (Some(dependency), Some(line)) => if fit_count(packages, dependency) != 1 {
                earlier.push((line, fit_count(packages, dependency)))
            } else {
                earlier
            },
            _ => earlier,
        }
    }
}

/// Whether dependencies of this name resolve to different versions.
pub open spec fn in_conflict(
    packages: Seq<(Seq<char>, VersionView)>,
    dependencies: Seq<(Seq<char>, Option<VersionView>)>,
    name: Seq<char>,
) -> bool {
    exists|d: int, e: int|
        {
            &&& 0 <= d < dependencies.len()
            &&& 0 <= e < dependencies.len()
            &&& (#[trigger] dependencies[d]).0 == name
            &&& (#[trigger] dependencies[e]).0 == name
            &&& lockfile::resolution(packages, dependencies[d]) is Some
            &&& lockfile::resolution(packages, dependencies[e]) is Some
            &&& lockfile::resolution(packages, dependencies[d]) != lockfile::resolution(
                packages,
                dependencies[e],
            )
        }
}

/// The package entries of a lockfile and the dependency list of one package.
pub open spec fn listed(lock: TomlView, name: Seq<char>, version: Seq<char>) -> Option<
    (Seq<TomlView>, Seq<TomlView>),
> {
    match lock.array_at("package"@) {
        None => None,
        Some(entries) => match lockfile::find_entry(entries, name, version) {
            None => None,
            Some(entry) => match entry.array_at("dependencies"@) {
                None => None,
                Some(items) => Some((entries, items)),
            },
        },
    }
}

/// The doubtful lines of one package.
pub open spec fn doubtful_of(lock: TomlView, name: Seq<char>, version: Seq<char>) -> Seq<
    (Seq<char>, nat),
> {
    match listed(lock, name, version) {
        None => seq![],
        Some((entries, items)) => doubtful_lines(lockfile::packages_of(entries), items),
    }
}

/// The names in conflict among the dependencies of one package.
pub open spec fn conflicts_of(lock: TomlView, name: Seq<char>, version: Seq<char>) -> Set<
    Seq<char>,
> {
    match listed(lock, name, version) {
        None => Set::empty(),
        Some((entries, items)) => Set::new(
            |n: Seq<char>|
                in_conflict(
                    lockfile::packages_of(entries),
                    lockfile::dependencies_of(items),
                    n,
                ),
        ),
    }
}

/// Lines with their numbers.
pub open spec fn line_views(lines: Seq<(String, usize)>) -> Seq<(Seq<char>, nat)> {
    lines.map_values(|l: (String, usize)| (l.0@, l.1 as nat))
}

/// A dependency resolves exactly if one package fits it: the lines that are
/// reported as doubtful are those that resolve to nothing.
pub proof fn law_doubtful_is_unresolved(
    packages: Seq<(Seq<char>, VersionView)>,
    dependency: (Seq<char>, Option<VersionView>),
)
    ensures
        fit_count(packages, dependency) == 1 <==> lockfile::resolution(packages, dependency) is Some,
{
    lemma_fit_count(packages, dependency);
}

/// None and only one, counted and in words.
proof fn lemma_fit_count(
    packages: Seq<(Seq<char>, VersionView)>,
    dependency: (Seq<char>, Option<VersionView>),
)
    ensures
        fit_count(packages, dependency) == 0 <==> forall|i: int|
            0 <= i < packages.len() ==> !lockfile::fits(#[trigger] packages[i], dependency),
        fit_count(packages, dependency) == 1 <==> exists|i: int|
            lockfile::sole_fit(packages, dependency, i),
    decreases packages.len(),
{
    if packages.len() > 0 {
        let front = packages.drop_last();
        let last = packages.len() - 1;
        lemma_fit_count(front, dependency);
        assert forall|i: int| 0 <= i < front.len() implies #[trigger] front[i] == packages[i] by {}
        if lockfile::fits(packages[last], dependency) {
            if fit_count(front, dependency) == 0 {
                assert forall|j: int|
                    0 <= j < packages.len() && lockfile::fits(
                        #[trigger] packages[j],
                        dependency,
                    ) implies j == last by {
                    if j < last {
                        assert(front[j] == packages[j]);
                    }
                }
                assert(lockfile::sole_fit(packages, dependency, last));
            } else {
                let j = choose|j: int|
                    0 <= j < front.len() && lockfile::fits(#[trigger] front[j], dependency);
                assert(lockfile::fits(packages[j], dependency));
                assert forall|i: int| !lockfile::sole_fit(packages, dependency, i) by {
                    assert(lockfile::fits(packages[last], dependency));
                }
            }
        } else {
            if exists|i: int| lockfile::sole_fit(front, dependency, i) {
                let i = choose|i: int| lockfile::sole_fit(front, dependency, i);
                assert(front[i] == packages[i]);
                assert forall|j: int|
                    0 <= j < packages.len() && lockfile::fits(
                        #[trigger] packages[j],
                        dependency,
                    ) implies j == i by {
                    assert(j < last);
                    assert(front[j] == packages[j]);
                }
                assert(lockfile::sole_fit(packages, dependency, i));
            }
            if exists|i: int| lockfile::sole_fit(packages, dependency, i) {
                let i = choose|i: int| lockfile::sole_fit(packages, dependency, i);
                assert(i < last);
                assert(front[i] == packages[i]);
                assert forall|j: int|
                    0 <= j < front.len() && lockfile::fits(
                        #[trigger] front[j],
                        dependency,
                    ) implies j == i by {
                    assert(front[j] == packages[j]);
                }
                assert(lockfile::sole_fit(front, dependency, i));
            }
            if fit_count(front, dependency) == 0 {
                assert forall|i: int| 0 <= i < packages.len() implies !lockfile::fits(
                    #[trigger] packages[i],
                    dependency,
                ) by {
                    if i < last {
                        assert(front[i] == packages[i]);
                    }
                }
            } else {
                let j = choose|j: int|
                    0 <= j < front.len() && lockfile::fits(#[trigger] front[j], dependency);
                assert(lockfile::fits(packages[j], dependency));
            }
        }
    }
}

/// The names that are reported as being in conflict are those of which a
/// dependency resolves and none is selected.
pub proof fn law_conflict_is_resolved_and_unselected(
    packages: Seq<(Seq<char>, VersionView)>,
    dependencies: Seq<(Seq<char>, Option<VersionView>)>,
    name: Seq<char>,
)
    ensures
        in_conflict(packages, dependencies, name) <==> {
            &&& exists|d: int|
                0 <= d < dependencies.len() && (#[trigger] dependencies[d]).0 == name
                    && lockfile::resolution(packages, dependencies[d]) is Some
            &&& !lockfile::selection(packages, dependencies).contains_key(name)
        },
{
    let resolves = exists|d: int|
        0 <= d < dependencies.len() && (#[trigger] dependencies[d]).0 == name
            && lockfile::resolution(packages, dependencies[d]) is Some;
    if in_conflict(packages, dependencies, name) {
        let (d, e) = choose|d: int, e: int|
            {
                &&& 0 <= d < dependencies.len()
                &&& 0 <= e < dependencies.len()
                &&& (#[trigger] dependencies[d]).0 == name
                &&& (#[trigger] dependencies[e]).0 == name
                &&& lockfile::resolution(packages, dependencies[d]) is Some
                &&& lockfile::resolution(packages, dependencies[e]) is Some
                &&& lockfile::resolution(packages, dependencies[d]) != lockfile::resolution(
                    packages,
                    dependencies[e],
                )
            };
        lockfile::law_conflict_is_not_selected(packages, dependencies, d, e);
    } else if resolves {
        let d = choose|d: int|
            0 <= d < dependencies.len() && (#[trigger] dependencies[d]).0 == name
                && lockfile::resolution(packages, dependencies[d]) is Some;
        let v = lockfile::resolution(packages, dependencies[d])->0;
        assert(lockfile::selects(packages, dependencies, name, v));
    }
}

/// How many packages fit a dependency.
fn count_fits(packages: &Vec<LockedPackage>, dependency: &LockedDependency) -> (r: usize)
    ensures
        r == fit_count(lockfile::package_views(packages@), dependency@),
{
    let ghost all = lockfile::package_views(packages@);
    let mut count: usize = 0;
    let mut i: usize = 0;
    while i < packages.len()
        invariant
            count <= i <= packages.len(),
            all == lockfile::package_views(packages@),
            count == fit_count(all.take(i as int), dependency@),
        decreases packages.len() - i,
    {
        assert(all[i as int] == packages@[i as int]@);
        assert(all.take(i + 1).drop_last() =~= all.take(i as int));
        if lockfile::check_fit(&packages[i], dependency) {
            count += 1;
        }
        i += 1;
    }
    assert(all.take(i as int) =~= all);
    count
}

/// The package entries of a lockfile and the dependency list of one package.
fn read_listed<'a>(lock: &'a Toml, name: &str, version: &str) -> (r: Option<
    (&'a Vec<Toml>, &'a Vec<Toml>),
>)
    ensures
        match r {
            Some((entries, items)) => listed(lock@, name@, version@) == Some(
                (document::trees(entries@), document::trees(items@)),
            ),
            None => listed(lock@, name@, version@) is None,
        },
{
    match lock.array_at("package") {
        None => None,
        Some(entries) => match lockfile::current_entry(entries, name, version) {
            None => None,
            Some(entry) => match entry.array_at("dependencies") {
                None => None,
                Some(items) => Some((entries, items)),
            },
        },
    }
}

/// The lines in the dependency list of a package that other than one package
/// of the lockfile fits, in order, each with the number of those that do.
pub fn doubtful_dependencies(lock: &Toml, name: &str, version: &str) -> (r: Vec<(String, usize)>)
    ensures
        line_views(r@) == doubtful_of(lock@, name@, version@),
{
    let mut lines: Vec<(String, usize)> = Vec::new();
    let (entries, items) = match read_listed(lock, name, version) {
        Some(found) => found,
        None => {
            assert(line_views(lines@) =~= seq![]);
            return lines;
        },
    };
    let packages = lockfile::read_packages(entries);
    let ghost ps = lockfile::package_views(packages@);
    let ghost all = document::trees(items@);
    let mut i: usize = 0;
    assert(line_views(lines@) =~= doubtful_lines(ps, all.take(0)));
    while i < items.len()
        invariant
            i <= items.len(),
            ps == lockfile::package_views(packages@),
            all == document::trees(items@),
            line_views(lines@) == doubtful_lines(ps, all.take(i as int)),
        decreases items.len() - i,
    {
        let item = &items[i];
        let ghost before = lines@;
        assert(all[i as int] == item@);
        assert(all.take(i + 1).drop_last() =~= all.take(i as int));
        if let (Some(dependency), Some(line)) = (lockfile::read_dependency(item), item.as_text()) {
            let count = count_fits(&packages, &dependency);
            if count != 1 {
                let copy = line.to_owned();
                lines.push((copy, count));
                assert(line_views(lines@) =~= line_views(before).push((copy@, count as nat)));
            }
        }
        i += 1;
    }
    assert(all.take(i as int) =~= all);
    lines
}

/// The names among the dependencies of a package that resolve to different
/// versions, in order.
pub fn conflicting_dependencies(lock: &Toml, name: &str, version: &str) -> (r: Vec<String>)
    ensures
        file_set::is_ordered(text::texts(r@)),
        file_set::held(r@) == conflicts_of(lock@, name@, version@),
{
    let mut names: Vec<String> = Vec::new();
    assert(file_set::held(names@) =~= Set::empty());
    let (entries, items) = match read_listed(lock, name, version) {
        Some(found) => found,
        None => {
            return names;
        },
    };
    let packages = lockfile::read_packages(entries);
    let dependencies = lockfile::read_dependencies(items);
    let ghost ps = lockfile::package_views(packages@);
    let ghost ds = lockfile::dependency_views(dependencies@);
    let mut i: usize = 0;
    while i < dependencies.len()
        invariant
            i <= dependencies.len(),
            ps == lockfile::package_views(packages@),
            ds == lockfile::dependency_views(dependencies@),
            file_set::is_ordered(text::texts(names@)),
            forall|n: Seq<char>| #[trigger]
                file_set::held(names@).contains(n) ==> in_conflict(ps, ds, n),
            forall|d: int|
                0 <= d < i && lockfile::resolution(ps, #[trigger] ds[d]) is Some && in_conflict(
                    ps,
                    ds,
                    ds[d].0,
                ) ==> file_set::held(names@).contains(ds[d].0),
        decreases dependencies.len() - i,
    {
        let dependency = &dependencies[i];
        assert(ds[i as int] == dependency@);
        if let Some(found) = lockfile::resolve(&packages, dependency) {
            if !lockfile::agreed(&packages, &dependencies, dependency.name.as_str(), found) {
                let ghost e = choose|d: int|
                    0 <= d < ds.len() && (#[trigger] ds[d]).0 == dependency.name@
                        && lockfile::resolution(ps, ds[d]) is Some && lockfile::resolution(
                        ps,
                        ds[d],
                    ) != Some(found@);
                assert(ds[i as int].0 == ds[e].0);
                assert(in_conflict(ps, ds, dependency.name@));
                file_set::insert_file(&mut names, dependency.name.as_str().to_owned());
            } else {
                assert(!in_conflict(ps, ds, dependency.name@));
            }
        }
        i += 1;
    }
    proof {
        assert forall|n: Seq<char>| in_conflict(ps, ds, n) implies file_set::held(
            names@,
        ).contains(n) by {
            let d = choose|d: int|
                0 <= d < ds.len() && (#[trigger] ds[d]).0 == n && lockfile::resolution(
                    ps,
                    ds[d],
                ) is Some;
            assert(lockfile::resolution(ps, ds[d]) is Some);
        }
        assert(file_set::held(names@) =~= conflicts_of(lock@, name@, version@));
    }
    names
}

} // verus!
