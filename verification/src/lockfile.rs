//! Exact dependency versions from `Cargo.lock`.
use vstd::prelude::*;

use crate::document;
use crate::document::{Toml, TomlView};
use crate::text;
use crate::version;
use crate::version::{Version, VersionView};

verus! {

/// Why `Cargo.lock` cannot be used.
#[derive(Debug)]
pub enum LockError {
    /// The file is no TOML document.
    Syntax(toml::de::Error),
    /// The file has no array of packages.
    NoPackageArray,
}

/// What kind of [`LockError`] it is.
pub enum LockErrorView {
    Syntax(toml::de::Error),
    NoPackageArray,
}

impl View for LockError {
    type V = LockErrorView;

    open spec fn view(&self) -> LockErrorView {
        match self {
            LockError::Syntax(e) => LockErrorView::Syntax(*e),
            LockError::NoPackageArray => LockErrorView::NoPackageArray,
        }
    }
}

/// Versions by dependency name. Of several entries for one name the latest
/// counts.
#[derive(Debug)]
pub struct LockedVersions {
    entries: Vec<(String, Version)>,
}

/// The map that a list of entries stands for.
pub open spec fn version_map(entries: Seq<(String, Version)>) -> Map<Seq<char>, VersionView>
    decreases entries.len(),
{
    if entries.len() == 0 {
        Map::empty()
    } else {
        version_map(entries.drop_last()).insert(entries.last().0@, entries.last().1@)
    }
}

impl View for LockedVersions {
    type V = Map<Seq<char>, VersionView>;

    closed spec fn view(&self) -> Map<Seq<char>, VersionView> {
        version_map(self.entries@)
    }
}

impl LockedVersions {
    /// No versions.
    pub fn new() -> (r: LockedVersions)
        ensures
            r@ == Map::<Seq<char>, VersionView>::empty(),
    {
        LockedVersions { entries: Vec::new() }
    }

    /// Sets the version of `name`.
    pub fn insert(&mut self, name: String, version: Version)
        ensures
            final(self)@ == old(self)@.insert(name@, version@),
    {
        self.entries.push((name, version));
        assert(self.entries@.drop_last() =~= old(self).entries@);
    }

    /// The version of `name`.
    pub fn get(&self, name: &str) -> (r: Option<&Version>)
        ensures
            match r {
                Some(v) => self@.contains_key(name@) && self@[name@] == v@,
                None => !self@.contains_key(name@),
            },
    {
        let mut i: usize = self.entries.len();
        assert(self.entries@.take(i as int) =~= self.entries@);
        while i > 0
            invariant
                i <= self.entries.len(),
                self@.contains_key(name@) <==> version_map(
                    self.entries@.take(i as int),
                ).contains_key(name@),
                self@.contains_key(name@) ==> self@[name@] == version_map(
                    self.entries@.take(i as int),
                )[name@],
            decreases i,
        {
            assert(self.entries@.take(i as int).drop_last() =~= self.entries@.take(i - 1));
            if text::same_text(self.entries[i - 1].0.as_str(), name) {
                return Some(&self.entries[i - 1].1);
            }
            i -= 1;
        }
        None
    }

    /// Whether there is a version of `name`.
    pub fn contains(&self, name: &str) -> (r: bool)
        ensures
            r == self@.contains_key(name@),
    {
        self.get(name).is_some()
    }

    /// The entries, in the order in which they were set.
    pub fn entries(&self) -> (r: &Vec<(String, Version)>)
        ensures
            version_map(r@) == self@,
    {
        &self.entries
    }
}

/// A package that `Cargo.lock` records.
#[derive(Debug)]
pub struct LockedPackage {
    pub name: String,
    pub version: Version,
}

/// A dependency of a package: its name and, where the lockfile has several
/// versions, the one that was resolved.
#[derive(Debug)]
pub struct LockedDependency {
    pub name: String,
    pub version: Option<Version>,
}

impl View for LockedPackage {
    type V = (Seq<char>, VersionView);

    open spec fn view(&self) -> (Seq<char>, VersionView) {
        (self.name@, self.version@)
    }
}

impl View for LockedDependency {
    type V = (Seq<char>, Option<VersionView>);

    open spec fn view(&self) -> (Seq<char>, Option<VersionView>) {
        (
            self.name@,
            match self.version {
                Some(v) => Some(v@),
                None => None,
            },
        )
    }
}

/// Whether `package` can be what `dependency` means.
pub open spec fn fits(
    package: (Seq<char>, VersionView),
    dependency: (Seq<char>, Option<VersionView>),
) -> bool {
    package.0 == dependency.0 && (dependency.1 is Some ==> dependency.1 == Some(package.1))
}

/// Whether the package at `i` is the only one that fits.
pub open spec fn sole_fit(
    packages: Seq<(Seq<char>, VersionView)>,
    dependency: (Seq<char>, Option<VersionView>),
    i: int,
) -> bool {
    &&& 0 <= i < packages.len()
    &&& fits(packages[i], dependency)
    &&& forall|j: int|
        0 <= j < packages.len() && fits(#[trigger] packages[j], dependency) ==> j == i
}

/// The version that `dependency` resolves to: that of the only package that
/// fits it.
pub open spec fn resolution(
    packages: Seq<(Seq<char>, VersionView)>,
    dependency: (Seq<char>, Option<VersionView>),
) -> Option<VersionView> {
    if exists|i: int| sole_fit(packages, dependency, i) {
        Some(packages[choose|i: int| sole_fit(packages, dependency, i)].1)
    } else {
        None
    }
}

/// Whether `version` is selected for `name`: some dependency of that name
/// resolves to it, and none resolves to another version.
pub open spec fn selects(
    packages: Seq<(Seq<char>, VersionView)>,
    dependencies: Seq<(Seq<char>, Option<VersionView>)>,
    name: Seq<char>,
    version: VersionView,
) -> bool {
    &&& exists|d: int|
        0 <= d < dependencies.len() && (#[trigger] dependencies[d]).0 == name && resolution(
            packages,
            dependencies[d],
        ) == Some(version)
    &&& forall|d: int|
        0 <= d < dependencies.len() && (#[trigger] dependencies[d]).0 == name && resolution(
            packages,
            dependencies[d],
        ) is Some ==> resolution(packages, dependencies[d]) == Some(version)
}

/// All selected versions by name.
pub open spec fn selection(
    packages: Seq<(Seq<char>, VersionView)>,
    dependencies: Seq<(Seq<char>, Option<VersionView>)>,
) -> Map<Seq<char>, VersionView> {
    Map::new(
        |name: Seq<char>| exists|v: VersionView| selects(packages, dependencies, name, v),
        |name: Seq<char>| choose|v: VersionView| selects(packages, dependencies, name, v),
    )
}

/// The packages of a list.
pub open spec fn package_views(list: Seq<LockedPackage>) -> Seq<(Seq<char>, VersionView)> {
    list.map_values(|p: LockedPackage| p@)
}

/// The dependencies of a list.
pub open spec fn dependency_views(list: Seq<LockedDependency>) -> Seq<
    (Seq<char>, Option<VersionView>),
> {
    list.map_values(|d: LockedDependency| d@)
}

/// Whether `package` can be what `dependency` means.
pub(crate) fn check_fit(package: &LockedPackage, dependency: &LockedDependency) -> (r: bool)
    ensures
        r == fits(package@, dependency@),
{
    text::same_text(package.name.as_str(), dependency.name.as_str()) && match &dependency.version {
        Some(v) => v.same(&package.version),
        None => true,
    }
}

/// The version that `dependency` resolves to.
pub(crate) fn resolve<'a>(packages: &'a Vec<LockedPackage>, dependency: &LockedDependency) -> (r: Option<
    &'a Version,
>)
    ensures
        match r {
            Some(v) => resolution(package_views(packages@), dependency@) == Some(v@),
            None => resolution(package_views(packages@), dependency@) is None,
        },
{
    let ghost all = package_views(packages@);
    let mut found: Option<usize> = None;
    let mut i: usize = 0;
    while i < packages.len()
        invariant
            i <= packages.len(),
            all == package_views(packages@),
            match found {
                Some(at) => at < i && fits(all[at as int], dependency@) && forall|j: int|
                    0 <= j < i && fits(#[trigger] all[j], dependency@) ==> j == at,
                None => forall|j: int| 0 <= j < i ==> !fits(#[trigger] all[j], dependency@),
            },
        decreases packages.len() - i,
    {
        assert(all[i as int] == packages@[i as int]@);
        if check_fit(&packages[i], dependency) {
            if let Some(at) = found {
                proof {
                    assert(fits(all[at as int], dependency@) && fits(all[i as int], dependency@));
                    assert forall|k: int| !sole_fit(all, dependency@, k) by {}
                }
                return None;
            }
            found = Some(i);
        }
        i += 1;
    }
    match found {
        Some(at) => {
            assert(sole_fit(all, dependency@, at as int));
            assert(all[at as int] == packages@[at as int]@);
            Some(&packages[at].version)
        },
        None => None,
    }
}

/// Whether every dependency named `name` that resolves at all resolves to
/// `version`.
pub(crate) fn agreed(
    packages: &Vec<LockedPackage>,
    dependencies: &Vec<LockedDependency>,
    name: &str,
    version: &Version,
) -> (r: bool)
    ensures
        r == forall|d: int|
            0 <= d < dependencies@.len() && (#[trigger] dependency_views(dependencies@)[d]).0
                == name@ && resolution(
                package_views(packages@),
                dependency_views(dependencies@)[d],
            ) is Some ==> resolution(
                package_views(packages@),
                dependency_views(dependencies@)[d],
            ) == Some(version@),
{
    let ghost all = dependency_views(dependencies@);
    let mut i: usize = 0;
    while i < dependencies.len()
        invariant
            i <= dependencies.len(),
            all == dependency_views(dependencies@),
            forall|d: int|
                0 <= d < i && (#[trigger] all[d]).0 == name@ && resolution(
                    package_views(packages@),
                    all[d],
                ) is Some ==> resolution(package_views(packages@), all[d]) == Some(version@),
        decreases dependencies.len() - i,
    {
        assert(all[i as int] == dependencies@[i as int]@);
        if text::same_text(dependencies[i].name.as_str(), name) {
            if let Some(v) = resolve(packages, &dependencies[i]) {
                if !v.same(version) {
                    return false;
                }
            }
        }
        i += 1;
    }
    true
}

/// Selects the version of each dependency that resolves without conflict.
pub fn select_versions(
    packages: &Vec<LockedPackage>,
    dependencies: &Vec<LockedDependency>,
) -> (r: LockedVersions)
    ensures
        r@ == selection(package_views(packages@), dependency_views(dependencies@)),
{
    let ghost ps = package_views(packages@);
    let ghost ds = dependency_views(dependencies@);
    let mut selected = LockedVersions::new();
    let mut i: usize = 0;
    while i < dependencies.len()
        invariant
            i <= dependencies.len(),
            ps == package_views(packages@),
            ds == dependency_views(dependencies@),
            forall|n: Seq<char>| #[trigger]
                selected@.contains_key(n) ==> selects(ps, ds, n, selected@[n]),
            forall|n: Seq<char>, v: VersionView, d: int|
                0 <= d < i && (#[trigger] ds[d]).0 == n && #[trigger] selects(ps, ds, n, v)
                    && resolution(ps, ds[d]) == Some(v) ==> selected@.contains_key(n),
        decreases dependencies.len() - i,
    {
        let dependency = &dependencies[i];
        assert(ds[i as int] == dependency@);
        let name = dependency.name.as_str();
        if let Some(v) = resolve(packages, dependency) {
            if agreed(packages, dependencies, name, v) {
                assert(selects(ps, ds, name@, v@));
                selected.insert(name.to_owned(), v.duplicate());
            }
        }
        i += 1;
    }
    proof {
        let all = selection(ps, ds);
        assert forall|n: Seq<char>| all.contains_key(n) <==> selected@.contains_key(n) by {
            if all.contains_key(n) {
                let v = choose|v: VersionView| selects(ps, ds, n, v);
                let d = choose|d: int|
                    0 <= d < ds.len() && (#[trigger] ds[d]).0 == n && resolution(ps, ds[d])
                        == Some(v);
                assert(ds[d].0 == n && selects(ps, ds, n, v));
            }
            if selected@.contains_key(n) {
                assert(selects(ps, ds, n, selected@[n]));
            }
        }
        assert forall|n: Seq<char>| #[trigger] all.contains_key(n) implies all[n]
            == selected@[n] by {
            lemma_selects_one(ps, ds, n, all[n], selected@[n]);
        }
        assert(selected@ =~= all);
    }
    selected
}

/// At most one version is selected for a name.
pub proof fn lemma_selects_one(
    packages: Seq<(Seq<char>, VersionView)>,
    dependencies: Seq<(Seq<char>, Option<VersionView>)>,
    name: Seq<char>,
    v: VersionView,
    w: VersionView,
)
    requires
        selects(packages, dependencies, name, v),
        selects(packages, dependencies, name, w),
    ensures
        v == w,
{
    let d = choose|d: int|
        0 <= d < dependencies.len() && (#[trigger] dependencies[d]).0 == name && resolution(
            packages,
            dependencies[d],
        ) == Some(v);
    assert(dependencies[d].0 == name);
}

/// Whether a package entry has this name and version.
pub open spec fn is_entry(entry: TomlView, name: Seq<char>, version: Seq<char>) -> bool {
    entry.text_at("name"@) == Some(name) && entry.text_at("version"@) == Some(version)
}

/// The first package entry with this name and version.
pub open spec fn find_entry(
    entries: Seq<TomlView>,
    name: Seq<char>,
    version: Seq<char>,
) -> Option<TomlView>
    decreases entries.len(),
{
    if entries.len() == 0 {
        None
    } else if is_entry(entries[0], name, version) {
        Some(entries[0])
    } else {
        find_entry(entries.drop_first(), name, version)
    }
}

/// The package of an entry that has a name and a version.
pub open spec fn package_of(entry: TomlView) -> Option<(Seq<char>, VersionView)> {
    match (entry.text_at("name"@), entry.text_at("version"@)) {
        (Some(name), Some(version)) => match version::semver_version(version) {
            Some(v) => Some((name, v)),
            None => None,
        },
        _ => None,
    }
}

/// The packages of all entries that have a name and a version.
pub open spec fn packages_of(entries: Seq<TomlView>) -> Seq<(Seq<char>, VersionView)>
    decreases entries.len(),
{
    if entries.len() == 0 {
        seq![]
    } else {
        match package_of(entries.last()) {
            Some(package) => packages_of(entries.drop_last()).push(package),
            None => packages_of(entries.drop_last()),
        }
    }
}

/// What an item of a dependency list means: a name, which a version may
/// follow.
pub open spec fn dependency_of(item: TomlView) -> Option<(Seq<char>, Option<VersionView>)> {
    match item.as_text() {
        Some(line) => {
            let fields = text::words(line);
            if fields.len() == 0 {
                None
            } else if fields.len() == 1 {
                Some((fields[0], None))
            } else {
                Some((fields[0], version::semver_version(fields[1])))
            }
        },
        None => None,
    }
}

/// The dependencies that the items of a dependency list mean.
pub open spec fn dependencies_of(items: Seq<TomlView>) -> Seq<(Seq<char>, Option<VersionView>)>
    decreases items.len(),
{
    if items.len() == 0 {
        seq![]
    } else {
        match dependency_of(items.last()) {
            Some(dependency) => dependencies_of(items.drop_last()).push(dependency),
            None => dependencies_of(items.drop_last()),
        }
    }
}

/// The versions that a lockfile selects for the direct dependencies of one
/// package; nothing where the lockfile does not have the package.
pub open spec fn locked_dependencies_of(
    lock: TomlView,
    name: Seq<char>,
    version: Seq<char>,
) -> Result<Option<Map<Seq<char>, VersionView>>, LockErrorView> {
    match lock.array_at("package"@) {
        None => Err(LockErrorView::NoPackageArray),
        Some(entries) => match find_entry(entries, name, version) {
            None => Ok(None),
            Some(entry) => match entry.array_at("dependencies"@) {
                None => Ok(Some(Map::empty())),
                Some(items) => Ok(Some(selection(packages_of(entries), dependencies_of(items)))),
            },
        },
    }
}

/// Whether each version is written in a package entry of that name.
pub open spec fn versions_recorded(
    versions: Map<Seq<char>, VersionView>,
    entries: Seq<TomlView>,
) -> bool {
    forall|n: Seq<char>| #[trigger]
        versions.contains_key(n) ==> exists|i: int|
            0 <= i < entries.len() && is_entry(
                #[trigger] entries[i],
                n,
                version::version_text(versions[n]),
            )
}

/// The first entry with this name and version is the one at `i`.
pub proof fn lemma_find_entry(entries: Seq<TomlView>, name: Seq<char>, version: Seq<char>, i: int)
    requires
        0 <= i <= entries.len(),
        forall|j: int| 0 <= j < i ==> !is_entry(#[trigger] entries[j], name, version),
        i < entries.len() ==> is_entry(entries[i], name, version),
    ensures
        find_entry(entries, name, version) == if i < entries.len() {
            Some(entries[i])
        } else {
            None
        },
    decreases i,
{
    if i > 0 {
        let rest = entries.drop_first();
        assert(!is_entry(entries[0], name, version));
        assert forall|j: int| 0 <= j < i - 1 implies !is_entry(
            #[trigger] rest[j],
            name,
            version,
        ) by {
            assert(rest[j] == entries[j + 1]);
        }
        lemma_find_entry(rest, name, version, i - 1);
    }
}

/// The first package entry with this name and version.
pub(crate) fn current_entry<'a>(entries: &'a Vec<Toml>, name: &str, version: &str) -> (r: Option<&'a Toml>)
    ensures
        match r {
            Some(entry) => find_entry(document::trees(entries@), name@, version@) == Some(entry@),
            None => find_entry(document::trees(entries@), name@, version@) is None,
        },
{
    let ghost all = document::trees(entries@);
    let mut i: usize = 0;
    while i < entries.len()
        invariant
            i <= entries.len(),
            all == document::trees(entries@),
            forall|j: int| 0 <= j < i ==> !is_entry(#[trigger] all[j], name@, version@),
        decreases entries.len() - i,
    {
        let entry = &entries[i];
        assert(all[i as int] == entry@);
        if let (Some(n), Some(v)) = (entry.text_at("name"), entry.text_at("version")) {
            if text::same_text(n, name) && text::same_text(v, version) {
                proof {
                    lemma_find_entry(all, name@, version@, i as int);
                }
                return Some(entry);
            }
        }
        i += 1;
    }
    proof {
        lemma_find_entry(all, name@, version@, i as int);
    }
    None
}

/// The packages of all entries that have a name and a version.
pub(crate) fn read_packages(entries: &Vec<Toml>) -> (r: Vec<LockedPackage>)
    ensures
        package_views(r@) == packages_of(document::trees(entries@)),
        forall|k: int|
            0 <= k < r@.len() ==> exists|i: int|
                0 <= i < entries@.len() && is_entry(
                    #[trigger] document::trees(entries@)[i],
                    (#[trigger] r@[k]).name@,
                    version::version_text(r@[k].version@),
                ),
{
    let ghost all = document::trees(entries@);
    let mut packages: Vec<LockedPackage> = Vec::new();
    let mut i: usize = 0;
    while i < entries.len()
        invariant
            i <= entries.len(),
            all == document::trees(entries@),
            package_views(packages@) == packages_of(all.take(i as int)),
            forall|k: int|
                0 <= k < packages@.len() ==> exists|i: int|
                    0 <= i < entries@.len() && is_entry(
                        #[trigger] all[i],
                        (#[trigger] packages@[k]).name@,
                        version::version_text(packages@[k].version@),
                    ),
        decreases entries.len() - i,
    {
        let entry = &entries[i];
        let ghost before = packages@;
        assert(all[i as int] == entry@);
        assert(all.take(i + 1).drop_last() =~= all.take(i as int));
        if let (Some(name), Some(written)) = (entry.text_at("name"), entry.text_at("version")) {
            if let Some(version) = version::parse_version(written) {
                let package = LockedPackage { name: name.to_owned(), version };
                assert(is_entry(all[i as int], package.name@, version::version_text(package.version@)));
                packages.push(package);
                assert(package_views(packages@) =~= package_views(before).push(package@));
            }
        }
        i += 1;
    }
    assert(all.take(i as int) =~= all);
    packages
}

/// What an item of a dependency list means.
pub(crate) fn read_dependency(item: &Toml) -> (r: Option<LockedDependency>)
    ensures
        match r {
            Some(dependency) => dependency_of(item@) == Some(dependency@),
            None => dependency_of(item@) is None,
        },
{
    let line = match item.as_text() {
        Some(line) => line,
        None => {
            return None;
        },
    };
    let fields = text::split_words(line);
    assert(text::texts(fields@).len() == fields@.len());
    if fields.len() == 0 {
        return None;
    }
    assert(text::texts(fields@)[0] == fields@[0]@);
    let version = if fields.len() > 1 {
        assert(text::texts(fields@)[1] == fields@[1]@);
        version::parse_version(fields[1].as_str())
    } else {
        None
    };
    Some(LockedDependency { name: fields[0].as_str().to_owned(), version })
}

/// The dependencies that the items of a dependency list mean.
pub(crate) fn read_dependencies(items: &Vec<Toml>) -> (r: Vec<LockedDependency>)
    ensures
        dependency_views(r@) == dependencies_of(document::trees(items@)),
{
    let ghost all = document::trees(items@);
    let mut dependencies: Vec<LockedDependency> = Vec::new();
    let mut i: usize = 0;
    while i < items.len()
        invariant
            i <= items.len(),
            all == document::trees(items@),
            dependency_views(dependencies@) == dependencies_of(all.take(i as int)),
        decreases items.len() - i,
    {
        let item = &items[i];
        let ghost before = dependencies@;
        assert(all[i as int] == item@);
        assert(all.take(i + 1).drop_last() =~= all.take(i as int));
        if let Some(dependency) = read_dependency(item) {
            dependencies.push(dependency);
            assert(dependency_views(dependencies@) =~= dependency_views(before).push(dependency@));
        }
        i += 1;
    }
    assert(all.take(i as int) =~= all);
    dependencies
}

/// The versions that the lockfile `lock` selects for the direct dependencies
/// of one package.
pub fn locked_dependencies(lock: &Toml, package_name: &str, package_version: &str) -> (r: Result<
    Option<LockedVersions>,
    LockError,
>)
    ensures
        match r {
            Ok(Some(selected)) => locked_dependencies_of(lock@, package_name@, package_version@)
                == Ok::<_, LockErrorView>(Some(selected@)) && versions_recorded(
                selected@,
                lock@.array_at("package"@)->0,
            ),
            Ok(None) => locked_dependencies_of(lock@, package_name@, package_version@) == Ok::<
                _,
                LockErrorView,
            >(None::<Map<Seq<char>, VersionView>>),
            Err(e) => locked_dependencies_of(lock@, package_name@, package_version@) == Err::<
                Option<Map<Seq<char>, VersionView>>,
                _,
            >(e@),
        },
{
    let entries = match lock.array_at("package") {
        Some(entries) => entries,
        None => {
            return Err(LockError::NoPackageArray);
        },
    };
    let entry = match current_entry(entries, package_name, package_version) {
        Some(entry) => entry,
        None => {
            return Ok(None);
        },
    };
    let items = match entry.array_at("dependencies") {
        Some(items) => items,
        None => {
            return Ok(Some(LockedVersions::new()));
        },
    };
    let packages = read_packages(entries);
    let dependencies = read_dependencies(items);
    let selected = select_versions(&packages, &dependencies);
    proof {
        let ps = package_views(packages@);
        let ds = dependency_views(dependencies@);
        let all = document::trees(entries@);
        assert forall|n: Seq<char>| #[trigger] selected@.contains_key(n) implies exists|i: int|
            0 <= i < all.len() && is_entry(
                #[trigger] all[i],
                n,
                version::version_text(selected@[n]),
            ) by {
            let v = selected@[n];
            assert(selects(ps, ds, n, v));
            let d = choose|d: int|
                0 <= d < ds.len() && (#[trigger] ds[d]).0 == n && resolution(ps, ds[d]) == Some(v);
            let k = choose|k: int| sole_fit(ps, ds[d], k);
            assert(ps[k] == packages@[k]@);
            assert(packages@[k].name@ == n);
            let i = choose|i: int|
                0 <= i < entries@.len() && is_entry(
                    #[trigger] all[i],
                    packages@[k].name@,
                    version::version_text(packages@[k].version@),
                );
            assert(is_entry(all[i], n, version::version_text(v)));
        }
    }
    Ok(Some(selected))
}

/// The versions that a lockfile selects for the direct dependencies of one
/// package, from the lockfile's text. `None` means that the lockfile does not
/// have the package.
pub fn lockfile_dependencies_for_package(
    lockfile: &str,
    package_name: &str,
    package_version: &str,
) -> (r: Result<Option<LockedVersions>, LockError>)
    ensures
        match (document::toml_document(lockfile@), r) {
            (Err(fault), Err(e)) => e@ == LockErrorView::Syntax(fault),
            (Err(_), Ok(_)) => false,
            (Ok(lock), Ok(Some(selected))) => locked_dependencies_of(
                lock,
                package_name@,
                package_version@,
            ) == Ok::<_, LockErrorView>(Some(selected@)) && versions_recorded(
                selected@,
                lock.array_at("package"@)->0,
            ),
            (Ok(lock), Ok(None)) => locked_dependencies_of(
                lock,
                package_name@,
                package_version@,
            ) == Ok::<_, LockErrorView>(None::<Map<Seq<char>, VersionView>>),
            (Ok(lock), Err(e)) => locked_dependencies_of(lock, package_name@, package_version@)
                == Err::<Option<Map<Seq<char>, VersionView>>, _>(e@),
        },
{
    match document::parse_document(lockfile) {
        Ok(lock) => locked_dependencies(&lock, package_name, package_version),
        Err(e) => Err(LockError::Syntax(e)),
    }
}

/// Only dependencies are selected, each in a version that some package fits it
/// with.
pub proof fn law_selected_is_a_dependency(
    packages: Seq<(Seq<char>, VersionView)>,
    dependencies: Seq<(Seq<char>, Option<VersionView>)>,
    name: Seq<char>,
)
    requires
        selection(packages, dependencies).contains_key(name),
    ensures
        exists|d: int, i: int|
            {
                &&& 0 <= d < dependencies.len()
                &&& 0 <= i < packages.len()
                &&& #[trigger] fits(packages[i], dependencies[d])
                &&& packages[i] == (name, selection(packages, dependencies)[name])
            },
{
    let v = selection(packages, dependencies)[name];
    assert(selects(packages, dependencies, name, v));
    let d = choose|d: int|
        0 <= d < dependencies.len() && (#[trigger] dependencies[d]).0 == name && resolution(
            packages,
            dependencies[d],
        ) == Some(v);
    let i = choose|i: int| sole_fit(packages, dependencies[d], i);
    assert(sole_fit(packages, dependencies[d], i));
    assert(fits(packages[i], dependencies[d]));
}

/// Where two dependencies of one name resolve to different versions, neither
/// is selected.
pub proof fn law_conflict_is_not_selected(
    packages: Seq<(Seq<char>, VersionView)>,
    dependencies: Seq<(Seq<char>, Option<VersionView>)>,
    d: int,
    e: int,
)
    requires
        0 <= d < dependencies.len(),
        0 <= e < dependencies.len(),
        dependencies[d].0 == dependencies[e].0,
        resolution(packages, dependencies[d]) is Some,
        resolution(packages, dependencies[e]) is Some,
        resolution(packages, dependencies[d]) != resolution(packages, dependencies[e]),
    ensures
        !selection(packages, dependencies).contains_key(dependencies[d].0),
{
    let name = dependencies[d].0;
    if selection(packages, dependencies).contains_key(name) {
        let v = choose|v: VersionView| selects(packages, dependencies, name, v);
        assert(resolution(packages, dependencies[d]) == Some(v));
        assert(resolution(packages, dependencies[e]) == Some(v));
    }
}

/// A dependency that is written with the version of exactly one package of its
/// name is selected in that version, unless another of that name resolves
/// otherwise.
pub proof fn law_written_version_is_selected(
    packages: Seq<(Seq<char>, VersionView)>,
    dependencies: Seq<(Seq<char>, Option<VersionView>)>,
    d: int,
    i: int,
)
    requires
        0 <= d < dependencies.len(),
        0 <= i < packages.len(),
        dependencies[d] == (packages[i].0, Some(packages[i].1)),
        forall|j: int| 0 <= j < packages.len() && #[trigger] packages[j] == packages[i] ==> j == i,
        forall|e: int|
            0 <= e < dependencies.len() && (#[trigger] dependencies[e]).0 == dependencies[d].0
                ==> resolution(packages, dependencies[e]) is None || resolution(
                packages,
                dependencies[e],
            ) == Some(packages[i].1),
    ensures
        selection(packages, dependencies).contains_key(packages[i].0),
        selection(packages, dependencies)[packages[i].0] == packages[i].1,
{
    let name = packages[i].0;
    let v = packages[i].1;
    assert(sole_fit(packages, dependencies[d], i));
    let k = choose|k: int| sole_fit(packages, dependencies[d], k);
    assert(k == i);
    assert(resolution(packages, dependencies[d]) == Some(v));
    assert(selects(packages, dependencies, name, v));
    lemma_selects_one(
        packages,
        dependencies,
        name,
        v,
        choose|w: VersionView| selects(packages, dependencies, name, w),
    );
}

} // verus!
