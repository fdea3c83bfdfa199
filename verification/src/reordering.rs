//! The order in which a lockfile lists packages and dependencies does not
//! matter.
use vstd::prelude::*;
use vstd::seq_lib::*;

use crate::document::TomlView;
use crate::lockfile;
use crate::version::VersionView;

verus! {

/// Whether two lists hold the same items, each as often, in any order.
pub open spec fn same_items<T>(one: Seq<T>, other: Seq<T>) -> bool {
    one.to_multiset() == other.to_multiset()
}

/// Whether two package entries differ at most in the order of their
/// dependencies.
pub open spec fn same_entry(one: TomlView, other: TomlView) -> bool {
    &&& forall|key: Seq<char>|
        key != "dependencies"@ ==> #[trigger] one.get(key) == other.get(key)
    &&& match (one.array_at("dependencies"@), other.array_at("dependencies"@)) {
        (Some(a), Some(b)) => same_items(a, b),
        (None, None) => true,
        _ => false,
    }
}

/// Whether `between` has the entries of `one` in their order, each up to the
/// order of its dependencies, and the very entries of `other` in some order.
pub open spec fn leads_to(
    one: Seq<TomlView>,
    between: Seq<TomlView>,
    other: Seq<TomlView>,
) -> bool {
    &&& one.len() == between.len()
    &&& forall|i: int| 0 <= i < one.len() ==> same_entry(#[trigger] one[i], between[i])
    &&& same_items(between, other)
}

/// Whether two lists of package entries differ at most in their order and in
/// the order of the dependencies of each.
pub open spec fn reordered(one: Seq<TomlView>, other: Seq<TomlView>) -> bool {
    exists|between: Seq<TomlView>| leads_to(one, between, other)
}

/// Lockfiles that differ only in the order of their package entries and of the
/// dependencies in these select the same versions for a package that neither
/// lists twice.
pub proof fn law_order_does_not_matter(
    one: TomlView,
    other: TomlView,
    name: Seq<char>,
    version: Seq<char>,
)
    requires
        match (one.array_at("package"@), other.array_at("package"@)) {
            (Some(a), Some(b)) => {
                &&& reordered(a, b)
                &&& forall|i: int, j: int|
                    0 <= i < a.len() && 0 <= j < a.len() && lockfile::is_entry(
                        #[trigger] a[i],
                        name,
                        version,
                    ) && lockfile::is_entry(#[trigger] a[j], name, version) ==> i == j
            },
            (None, None) => true,
            _ => false,
        },
    ensures
        lockfile::locked_dependencies_of(one, name, version) == lockfile::locked_dependencies_of(
            other,
            name,
            version,
        ),
{
    if let (Some(a), Some(b)) = (one.array_at("package"@), other.array_at("package"@)) {
        let between = choose|between: Seq<TomlView>| leads_to(a, between, b);
        lemma_same_packages(a, between);
        lemma_packages_reordered(between, b);
        lemma_found(a, name, version);
        lemma_found(b, name, version);
        assert forall|i: int| 0 <= i < a.len() implies lockfile::is_entry(
            #[trigger] a[i],
            name,
            version,
        ) == lockfile::is_entry(between[i], name, version) by {
            lemma_same_entry(a[i], between[i]);
        }
        lemma_same_members(between, b);
        match lockfile::find_entry(a, name, version) {
            Some(current) => {
                let i = choose|i: int| 0 <= i < a.len() && a[i] == current;
                let moved = between[i];
                assert(b.contains(moved)) by {
                    assert(between.contains(moved));
                }
                let k = choose|k: int| 0 <= k < b.len() && b[k] == moved;
                assert(lockfile::is_entry(b[k], name, version));
                let found = lockfile::find_entry(b, name, version)->0;
                assert(between.contains(found));
                let j = choose|j: int| 0 <= j < between.len() && between[j] == found;
                assert(lockfile::is_entry(a[j], name, version));
                assert(j == i);
                assert(same_entry(current, found));
                if let (Some(x), Some(y)) = (
                    current.array_at("dependencies"@),
                    found.array_at("dependencies"@),
                ) {
                    lemma_dependencies_reordered(x, y);
                    law_selection_ignores_order(
                        lockfile::packages_of(a),
                        lockfile::packages_of(b),
                        lockfile::dependencies_of(x),
                        lockfile::dependencies_of(y),
                    );
                }
            },
            None => {
                assert forall|k: int| 0 <= k < b.len() implies !lockfile::is_entry(
                    #[trigger] b[k],
                    name,
                    version,
                ) by {
                    assert(b.contains(b[k]));
                    assert(between.contains(b[k]));
                    let j = choose|j: int| 0 <= j < between.len() && between[j] == b[k];
                    assert(!lockfile::is_entry(a[j], name, version));
                }
            },
        }
    }
}

/// What [`lockfile::find_entry`] finds.
proof fn lemma_found(entries: Seq<TomlView>, name: Seq<char>, version: Seq<char>)
    ensures
        match lockfile::find_entry(entries, name, version) {
            Some(entry) => entries.contains(entry) && lockfile::is_entry(entry, name, version),
            None => forall|i: int|
                0 <= i < entries.len() ==> !lockfile::is_entry(#[trigger] entries[i], name, version),
        },
    decreases entries.len(),
{
    if entries.len() > 0 {
        if lockfile::is_entry(entries[0], name, version) {
            assert(entries.contains(entries[0]));
        } else {
            let rest = entries.drop_first();
            lemma_found(rest, name, version);
            match lockfile::find_entry(rest, name, version) {
                Some(entry) => {
                    let i = choose|i: int| 0 <= i < rest.len() && rest[i] == entry;
                    assert(entries[i + 1] == entry);
                },
                None => {
                    assert forall|i: int| 0 <= i < entries.len() implies !lockfile::is_entry(
                        #[trigger] entries[i],
                        name,
                        version,
                    ) by {
                        if i > 0 {
                            assert(rest[i - 1] == entries[i]);
                        }
                    }
                },
            }
        }
    }
}

/// Entries that differ in the order of dependencies alone have the same name
/// and version.
proof fn lemma_same_entry(one: TomlView, other: TomlView)
    requires
        same_entry(one, other),
    ensures
        one.text_at("name"@) == other.text_at("name"@),
        one.text_at("version"@) == other.text_at("version"@),
        lockfile::package_of(one) == lockfile::package_of(other),
{
    reveal_strlit("name");
    reveal_strlit("version");
    reveal_strlit("dependencies");
    assert("name"@.len() != "dependencies"@.len());
    assert("version"@.len() != "dependencies"@.len());
    assert(one.get("name"@) == other.get("name"@));
    assert(one.get("version"@) == other.get("version"@));
}

proof fn lemma_same_packages(one: Seq<TomlView>, between: Seq<TomlView>)
    requires
        one.len() == between.len(),
        forall|i: int| 0 <= i < one.len() ==> same_entry(#[trigger] one[i], between[i]),
    ensures
        lockfile::packages_of(one) == lockfile::packages_of(between),
    decreases one.len(),
{
    if one.len() > 0 {
        let last = one.len() - 1;
        assert(same_entry(one[last], between[last]));
        lemma_same_entry(one.last(), between.last());
        assert forall|i: int| 0 <= i < last implies same_entry(
            #[trigger] one.drop_last()[i],
            between.drop_last()[i],
        ) by {
            assert(same_entry(one[i], between[i]));
        }
        lemma_same_packages(one.drop_last(), between.drop_last());
    }
}

/// What `f` makes of the items of a list, where it makes anything of them.
spec fn gathered<A, B>(s: Seq<A>, f: spec_fn(A) -> Option<B>) -> Seq<B>
    decreases s.len(),
{
    if s.len() == 0 {
        seq![]
    } else {
        match f(s.last()) {
            Some(b) => gathered(s.drop_last(), f).push(b),
            None => gathered(s.drop_last(), f),
        }
    }
}

/// One item more gathers what `f` makes of it more.
proof fn lemma_gathered_remove<A, B>(s: Seq<A>, f: spec_fn(A) -> Option<B>, k: int)
    requires
        0 <= k < s.len(),
    ensures
        gathered(s, f).to_multiset() == match f(s[k]) {
            Some(b) => gathered(s.remove(k), f).to_multiset().insert(b),
            None => gathered(s.remove(k), f).to_multiset(),
        },
    decreases s.len(),
{
    broadcast use group_to_multiset_ensures;

    let last = s.len() - 1;
    if k == last {
        assert(s.remove(k) =~= s.drop_last());
    } else {
        let front = s.drop_last();
        lemma_gathered_remove(front, f, k);
        assert(s.remove(k).drop_last() =~= front.remove(k));
        assert(s.remove(k).last() == s.last());
        if let (Some(b), Some(c)) = (f(s[k]), f(s.last())) {
            let m = gathered(front.remove(k), f).to_multiset();
            assert(m.insert(b).insert(c) =~= m.insert(c).insert(b));
        }
    }
}

/// The same items gather the same.
proof fn lemma_gathered_reordered<A, B>(s: Seq<A>, t: Seq<A>, f: spec_fn(A) -> Option<B>)
    requires
        same_items(s, t),
    ensures
        same_items(gathered(s, f), gathered(t, f)),
    decreases s.len(),
{
    broadcast use group_to_multiset_ensures;

    assert(s.len() == s.to_multiset().len() && t.len() == t.to_multiset().len());
    if s.len() > 0 {
        let last = s.len() - 1;
        assert(s.contains(s[last]));
        assert(t.to_multiset().count(s[last]) > 0);
        assert(t.contains(s[last]));
        let k = choose|k: int| 0 <= k < t.len() && t[k] == s[last];
        assert(s.remove(last).to_multiset() =~= t.remove(k).to_multiset());
        lemma_gathered_reordered(s.remove(last), t.remove(k), f);
        lemma_gathered_remove(s, f, last);
        lemma_gathered_remove(t, f, k);
    }
}

proof fn lemma_packages_reordered(one: Seq<TomlView>, other: Seq<TomlView>)
    requires
        same_items(one, other),
    ensures
        same_items(lockfile::packages_of(one), lockfile::packages_of(other)),
{
    let f = |entry: TomlView| lockfile::package_of(entry);
    lemma_packages_gathered(one, f);
    lemma_packages_gathered(other, f);
    lemma_gathered_reordered(one, other, f);
}

proof fn lemma_packages_gathered(
    entries: Seq<TomlView>,
    f: spec_fn(TomlView) -> Option<(Seq<char>, VersionView)>,
)
    requires
        forall|entry: TomlView| #[trigger] f(entry) == lockfile::package_of(entry),
    ensures
        lockfile::packages_of(entries) == gathered(entries, f),
    decreases entries.len(),
{
    if entries.len() > 0 {
        lemma_packages_gathered(entries.drop_last(), f);
    }
}

proof fn lemma_dependencies_reordered(one: Seq<TomlView>, other: Seq<TomlView>)
    requires
        same_items(one, other),
    ensures
        same_items(lockfile::dependencies_of(one), lockfile::dependencies_of(other)),
{
    let f = |item: TomlView| lockfile::dependency_of(item);
    lemma_dependencies_gathered(one, f);
    lemma_dependencies_gathered(other, f);
    lemma_gathered_reordered(one, other, f);
}

proof fn lemma_dependencies_gathered(
    items: Seq<TomlView>,
    f: spec_fn(TomlView) -> Option<(Seq<char>, Option<VersionView>)>,
)
    requires
        forall|item: TomlView| #[trigger] f(item) == lockfile::dependency_of(item),
    ensures
        lockfile::dependencies_of(items) == gathered(items, f),
    decreases items.len(),
{
    if items.len() > 0 {
        lemma_dependencies_gathered(items.drop_last(), f);
    }
}

/// Lists of the same items have the same members.
proof fn lemma_same_members<T>(one: Seq<T>, other: Seq<T>)
    requires
        same_items(one, other),
    ensures
        forall|x: T| #[trigger] one.contains(x) <==> other.contains(x),
{
    broadcast use group_to_multiset_ensures;

    assert forall|x: T| #[trigger] one.contains(x) <==> other.contains(x) by {
        assert(one.contains(x) <==> one.to_multiset().count(x) > 0);
        assert(other.contains(x) <==> other.to_multiset().count(x) > 0);
    }
}

/// An item that one list has at two positions is at two positions of the
/// other.
proof fn lemma_twice<T>(one: Seq<T>, other: Seq<T>, i: int, j: int) -> (found: (int, int))
    requires
        same_items(one, other),
        0 <= i < j < one.len(),
        one[i] == one[j],
    ensures
        0 <= found.0 < other.len(),
        0 <= found.1 < other.len(),
        found.0 != found.1,
        other[found.0] == one[i],
        other[found.1] == one[i],
{
    broadcast use group_to_multiset_ensures;

    let x = one[i];
    assert(one.contains(one[j]));
    assert(other.to_multiset().count(x) > 0);
    assert(other.contains(x));
    let k = choose|k: int| 0 <= k < other.len() && other[k] == x;
    let a = one.remove(j);
    let b = other.remove(k);
    assert(a.to_multiset() =~= b.to_multiset());
    assert(a[i] == x);
    assert(a.contains(x));
    assert(b.to_multiset().count(x) > 0);
    assert(b.contains(x));
    let l = choose|l: int| 0 <= l < b.len() && b[l] == x;
    let m = if l < k {
        l
    } else {
        l + 1
    };
    assert(other[m] == x);
    (k, m)
}

/// A package that alone fits still does so in another order.
proof fn lemma_sole_fit_moves(
    packages: Seq<(Seq<char>, VersionView)>,
    moved: Seq<(Seq<char>, VersionView)>,
    dependency: (Seq<char>, Option<VersionView>),
    i: int,
) -> (k: int)
    requires
        same_items(packages, moved),
        lockfile::sole_fit(packages, dependency, i),
    ensures
        lockfile::sole_fit(moved, dependency, k),
        moved[k] == packages[i],
{
    lemma_same_members(packages, moved);
    assert(packages.contains(packages[i]));
    let k = choose|k: int| 0 <= k < moved.len() && moved[k] == packages[i];
    assert forall|j: int|
        0 <= j < moved.len() && lockfile::fits(#[trigger] moved[j], dependency) implies j == k by {
        assert(moved.contains(moved[j]));
        assert(packages.contains(moved[j]));
        let l = choose|l: int| 0 <= l < packages.len() && packages[l] == moved[j];
        assert(lockfile::fits(packages[l], dependency));
        assert(l == i);
        if j != k {
            let (p, q) = if j < k {
                lemma_twice(moved, packages, j, k)
            } else {
                lemma_twice(moved, packages, k, j)
            };
            assert(lockfile::fits(packages[p], dependency));
            assert(lockfile::fits(packages[q], dependency));
        }
    }
    k
}

proof fn lemma_resolution_reordered(
    packages: Seq<(Seq<char>, VersionView)>,
    moved: Seq<(Seq<char>, VersionView)>,
    dependency: (Seq<char>, Option<VersionView>),
)
    requires
        same_items(packages, moved),
    ensures
        lockfile::resolution(packages, dependency) == lockfile::resolution(moved, dependency),
{
    if exists|i: int| lockfile::sole_fit(packages, dependency, i) {
        let i = choose|i: int| lockfile::sole_fit(packages, dependency, i);
        let k = lemma_sole_fit_moves(packages, moved, dependency, i);
        let c = choose|c: int| lockfile::sole_fit(moved, dependency, c);
        assert(lockfile::fits(moved[k], dependency));
        assert(c == k);
    } else if exists|i: int| lockfile::sole_fit(moved, dependency, i) {
        let i = choose|i: int| lockfile::sole_fit(moved, dependency, i);
        let k = lemma_sole_fit_moves(moved, packages, dependency, i);
        assert(lockfile::sole_fit(packages, dependency, k));
    }
}

proof fn lemma_selects_reordered(
    packages: Seq<(Seq<char>, VersionView)>,
    moved_packages: Seq<(Seq<char>, VersionView)>,
    dependencies: Seq<(Seq<char>, Option<VersionView>)>,
    moved_dependencies: Seq<(Seq<char>, Option<VersionView>)>,
    name: Seq<char>,
    version: VersionView,
)
    requires
        same_items(packages, moved_packages),
        same_items(dependencies, moved_dependencies),
        lockfile::selects(packages, dependencies, name, version),
    ensures
        lockfile::selects(moved_packages, moved_dependencies, name, version),
{
    lemma_same_members(dependencies, moved_dependencies);
    let d = choose|d: int|
        0 <= d < dependencies.len() && (#[trigger] dependencies[d]).0 == name
            && lockfile::resolution(packages, dependencies[d]) == Some(version);
    assert(dependencies.contains(dependencies[d]));
    let e = choose|e: int|
        0 <= e < moved_dependencies.len() && moved_dependencies[e] == dependencies[d];
    lemma_resolution_reordered(packages, moved_packages, dependencies[d]);
    assert(moved_dependencies[e].0 == name);
    assert forall|e: int|
        0 <= e < moved_dependencies.len() && (#[trigger] moved_dependencies[e]).0 == name
            && lockfile::resolution(
            moved_packages,
            moved_dependencies[e],
        ) is Some implies lockfile::resolution(moved_packages, moved_dependencies[e]) == Some(
        version,
    ) by {
        assert(moved_dependencies.contains(moved_dependencies[e]));
        assert(dependencies.contains(moved_dependencies[e]));
        let d = choose|d: int|
            0 <= d < dependencies.len() && dependencies[d] == moved_dependencies[e];
        lemma_resolution_reordered(packages, moved_packages, dependencies[d]);
        assert(dependencies[d].0 == name);
    }
}

/// The selection depends on the packages and dependencies, not on their order.
pub proof fn law_selection_ignores_order(
    packages: Seq<(Seq<char>, VersionView)>,
    moved_packages: Seq<(Seq<char>, VersionView)>,
    dependencies: Seq<(Seq<char>, Option<VersionView>)>,
    moved_dependencies: Seq<(Seq<char>, Option<VersionView>)>,
)
    requires
        same_items(packages, moved_packages),
        same_items(dependencies, moved_dependencies),
    ensures
        lockfile::selection(packages, dependencies) == lockfile::selection(
            moved_packages,
            moved_dependencies,
        ),
{
    let one = lockfile::selection(packages, dependencies);
    let other = lockfile::selection(moved_packages, moved_dependencies);
    assert forall|n: Seq<char>| one.contains_key(n) <==> other.contains_key(n) by {
        if one.contains_key(n) {
            let v = choose|v: VersionView| lockfile::selects(packages, dependencies, n, v);
            lemma_selects_reordered(
                packages,
                moved_packages,
                dependencies,
                moved_dependencies,
                n,
                v,
            );
        }
        if other.contains_key(n) {
            let v = choose|v: VersionView|
                lockfile::selects(moved_packages, moved_dependencies, n, v);
            lemma_selects_reordered(
                moved_packages,
                packages,
                moved_dependencies,
                dependencies,
                n,
                v,
            );
        }
    }
    assert forall|n: Seq<char>| #[trigger] one.contains_key(n) implies one[n] == other[n] by {
        lemma_selects_reordered(
            packages,
            moved_packages,
            dependencies,
            moved_dependencies,
            n,
            one[n],
        );
        lockfile::lemma_selects_one(moved_packages, moved_dependencies, n, one[n], other[n]);
    }
    assert(one =~= other);
}

} // verus!
