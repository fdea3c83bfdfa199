//! Git sources as `Cargo.lock` records them, and the GitHub archives that
//! reproduce them.
use vstd::prelude::*;

use crate::text;

verus! {

/// What a locked Git source selects a commit by.
#[derive(Debug, Eq, PartialEq)]
pub enum LockedGitReference {
    Rev,
    Tag(String),
    Commit,
}

/// A GitHub repository at a resolved commit.
#[derive(Debug, Eq, PartialEq)]
pub struct LockedGitSource {
    /// The repository's URL, without `.git` and without a query.
    pub repository: String,
    pub repository_name: String,
    /// The resolved commit, in lower case.
    pub commit: String,
    pub reference: LockedGitReference,
}

/// Why a locked source cannot be turned into an archive.
#[derive(Debug, Eq, PartialEq)]
pub enum SourceError {
    /// The source does not start with `git+`.
    NotGit(String),
    /// The source names no resolved commit.
    NoCommit(String),
    /// The resolved commit is not a full hexadecimal commit id.
    InvalidCommit(String),
    /// The repository is not an HTTPS GitHub URL.
    UnsupportedHost(String),
    /// The URL does not name an owner and a repository.
    InvalidRepository(String),
    /// A selector of the query cannot be used in a spec file.
    UnsupportedSelector(String),
    /// The query selects both a revision and a tag.
    RevAndTag(String),
}

/// The texts of a [`LockedGitReference`].
pub enum ReferenceView {
    Rev,
    Tag(Seq<char>),
    Commit,
}

/// The texts of a [`LockedGitSource`].
pub struct SourceView {
    pub repository: Seq<char>,
    pub repository_name: Seq<char>,
    pub commit: Seq<char>,
    pub reference: ReferenceView,
}

/// The texts of a [`SourceError`].
pub enum SourceErrorView {
    NotGit(Seq<char>),
    NoCommit(Seq<char>),
    InvalidCommit(Seq<char>),
    UnsupportedHost(Seq<char>),
    InvalidRepository(Seq<char>),
    UnsupportedSelector(Seq<char>),
    RevAndTag(Seq<char>),
}

impl View for LockedGitReference {
    type V = ReferenceView;

    open spec fn view(&self) -> ReferenceView {
        match self {
            LockedGitReference::Rev => ReferenceView::Rev,
            LockedGitReference::Tag(tag) => ReferenceView::Tag(tag@),
            LockedGitReference::Commit => ReferenceView::Commit,
        }
    }
}

impl View for LockedGitSource {
    type V = SourceView;

    open spec fn view(&self) -> SourceView {
        SourceView {
            repository: self.repository@,
            repository_name: self.repository_name@,
            commit: self.commit@,
            reference: self.reference@,
        }
    }
}

impl View for SourceError {
    type V = SourceErrorView;

    open spec fn view(&self) -> SourceErrorView {
        match self {
            SourceError::NotGit(s) => SourceErrorView::NotGit(s@),
            SourceError::NoCommit(s) => SourceErrorView::NoCommit(s@),
            SourceError::InvalidCommit(s) => SourceErrorView::InvalidCommit(s@),
            SourceError::UnsupportedHost(s) => SourceErrorView::UnsupportedHost(s@),
            SourceError::InvalidRepository(s) => SourceErrorView::InvalidRepository(s@),
            SourceError::UnsupportedSelector(s) => SourceErrorView::UnsupportedSelector(s@),
            SourceError::RevAndTag(s) => SourceErrorView::RevAndTag(s@),
        }
    }
}

/// Whether `c` is a hexadecimal digit.
pub open spec fn is_hex(c: char) -> bool {
    '0' <= c <= '9' || 'a' <= c <= 'f' || 'A' <= c <= 'F'
}

/// Whether `s` is a full commit id: forty hexadecimal digits.
pub open spec fn is_commit(s: Seq<char>) -> bool {
    s.len() == 40 && forall|i: int| 0 <= i < s.len() ==> is_hex(#[trigger] s[i])
}

/// `c`, in lower case if it is an ASCII capital.
pub open spec fn lower_char(c: char) -> char {
    if 'A' <= c <= 'Z' {
        ((c as u8) + 32) as char
    } else {
        c
    }
}

/// `s` with its ASCII capitals in lower case.
pub open spec fn lower(s: Seq<char>) -> Seq<char> {
    s.map_values(|c: char| lower_char(c))
}

/// Whether a selector can stand in a spec file: it is not empty and holds no
/// white space, `%` or `#`.
pub open spec fn is_selector(s: Seq<char>) -> bool {
    s.len() > 0 && forall|i: int|
        0 <= i < s.len() ==> !text::is_space(#[trigger] s[i]) && s[i] != '%' && s[i] != '#'
}

/// The `key=value` pairs among the items of a query; other items are ignored.
pub open spec fn pairs(items: Seq<Seq<char>>) -> Seq<(Seq<char>, Seq<char>)>
    decreases items.len(),
{
    if items.len() == 0 {
        seq![]
    } else {
        let earlier = pairs(items.drop_last());
        let item = items.last();
        let i = text::first_index(item, '=');
        if i < item.len() {
            earlier.push((item.take(i), item.skip(i + 1)))
        } else {
            earlier
        }
    }
}

/// The first value among `found` that is no selector.
pub open spec fn first_bad(found: Seq<(Seq<char>, Seq<char>)>) -> Option<Seq<char>>
    decreases found.len(),
{
    if found.len() == 0 {
        None
    } else if first_bad(found.drop_last()) is Some {
        first_bad(found.drop_last())
    } else if !is_selector(found.last().1) {
        Some(found.last().1)
    } else {
        None
    }
}

/// The last value that `found` has for `key`.
pub open spec fn last_value(found: Seq<(Seq<char>, Seq<char>)>, key: Seq<char>) -> Option<
    Seq<char>,
>
    decreases found.len(),
{
    if found.len() == 0 {
        None
    } else if found.last().0 == key {
        Some(found.last().1)
    } else {
        last_value(found.drop_last(), key)
    }
}

/// The repository URL in front of the query, without trailing slashes and
/// `.git` endings.
pub open spec fn repository_of(located: Seq<char>) -> Seq<char> {
    text::trim_end_text(text::trim_end(located.take(text::first_index(located, '?')), '/'), ".git"@)
}

/// The query behind the first `?`, or nothing.
pub open spec fn query_of(located: Seq<char>) -> Seq<char> {
    let i = text::first_index(located, '?');
    if i < located.len() {
        located.skip(i + 1)
    } else {
        seq![]
    }
}

/// The reference that the pairs of a query select.
pub open spec fn reference_of(found: Seq<(Seq<char>, Seq<char>)>) -> ReferenceView {
    if last_value(found, "rev"@) is Some {
        ReferenceView::Rev
    } else {
        match last_value(found, "tag"@) {
            Some(tag) => ReferenceView::Tag(tag),
            None => ReferenceView::Commit,
        }
    }
}

/// What a source at `repository` with these `key=value` pairs stands for;
/// `stripped` is the whole source without `git+`.
pub open spec fn github_source(
    stripped: Seq<char>,
    repository: Seq<char>,
    found: Seq<(Seq<char>, Seq<char>)>,
    commit: Seq<char>,
) -> Result<SourceView, SourceErrorView> {
    let host = "https://github.com/"@;
    let parts = text::split(repository.skip(host.len() as int), '/');
    if !text::has_prefix(repository, host) {
        Err(SourceErrorView::UnsupportedHost(repository))
    } else if parts.len() != 2 || parts[0].len() == 0 || parts[1].len() == 0 {
        Err(SourceErrorView::InvalidRepository(repository))
    } else if first_bad(found) is Some {
        Err(SourceErrorView::UnsupportedSelector(first_bad(found)->0))
    } else if last_value(found, "rev"@) is Some && last_value(found, "tag"@) is Some {
        Err(SourceErrorView::RevAndTag(stripped))
    } else {
        Ok(
            SourceView {
                repository,
                repository_name: parts[1],
                commit: lower(commit),
                reference: reference_of(found),
            },
        )
    }
}

/// What a `source` entry of `Cargo.lock` stands for:
/// `git+` repository [`?` query] `#` commit.
pub open spec fn locked_source(source: Seq<char>) -> Result<SourceView, SourceErrorView> {
    let stripped = source.skip("git+"@.len() as int);
    let at = text::last_index(stripped, '#');
    let located = stripped.take(at);
    let commit = stripped.skip(at + 1);
    if !text::has_prefix(source, "git+"@) {
        Err(SourceErrorView::NotGit(source))
    } else if at < 0 {
        Err(SourceErrorView::NoCommit(stripped))
    } else if !is_commit(commit) {
        Err(SourceErrorView::InvalidCommit(commit))
    } else {
        github_source(
            stripped,
            repository_of(located),
            pairs(text::split(query_of(located), '&')),
            commit,
        )
    }
}

/// Whether a source that is accepted selects a branch, whose resolved commit
/// then stands for it.
pub open spec fn follows_branch(source: Seq<char>) -> bool {
    let stripped = source.skip("git+"@.len() as int);
    let located = stripped.take(text::last_index(stripped, '#'));
    &&& locked_source(source) matches Ok(found)
    &&& found.reference is Commit
    &&& last_value(pairs(text::split(query_of(located), '&')), "branch"@) is Some
}

/// A bad selector stays the first one whatever items follow.
proof fn lemma_first_bad_stays(items: Seq<Seq<char>>, n: int)
    requires
        0 <= n <= items.len(),
        first_bad(pairs(items.take(n))) is Some,
    ensures
        first_bad(pairs(items)) == first_bad(pairs(items.take(n))),
    decreases items.len() - n,
{
    if n == items.len() {
        assert(items.take(n) =~= items);
    } else {
        let next = items.take(n + 1);
        assert(next.drop_last() =~= items.take(n));
        let found = pairs(next);
        if found.len() > pairs(items.take(n)).len() {
            assert(found.drop_last() =~= pairs(items.take(n)));
        }
        lemma_first_bad_stays(items, n + 1);
    }
}

/// Checks that a selector can stand in a spec file.
pub fn validate_git_selector(selector: &str) -> (r: Result<(), SourceError>)
    ensures
        match r {
            Ok(_) => is_selector(selector@),
            Err(e) => !is_selector(selector@) && e@ == SourceErrorView::UnsupportedSelector(
                selector@,
            ),
        },
{
    let v = text::chars_of(selector);
    if v.len() == 0 {
        return Err(SourceError::UnsupportedSelector(selector.to_owned()));
    }
    let mut i: usize = 0;
    while i < v.len()
        invariant
            i <= v.len(),
            v@ == selector@,
            forall|j: int|
                0 <= j < i ==> !text::is_space(#[trigger] v@[j]) && v@[j] != '%' && v@[j] != '#',
        decreases v.len() - i,
    {
        if text::char_is_space(v[i]) || v[i] == '%' || v[i] == '#' {
            assert(!is_selector(selector@)) by {
                assert(selector@[i as int] == v@[i as int]);
            }
            return Err(SourceError::UnsupportedSelector(selector.to_owned()));
        }
        i += 1;
    }
    Ok(())
}

/// Whether `s` is a full commit id.
fn check_commit(s: &str) -> (r: bool)
    ensures
        r == is_commit(s@),
{
    let v = text::chars_of(s);
    if v.len() != 40 {
        return false;
    }
    let mut i: usize = 0;
    while i < v.len()
        invariant
            i <= v.len(),
            v@ == s@,
            forall|j: int| 0 <= j < i ==> is_hex(#[trigger] v@[j]),
        decreases v.len() - i,
    {
        let c = v[i];
        if !(('0' <= c && c <= '9') || ('a' <= c && c <= 'f') || ('A' <= c && c <= 'F')) {
            assert(!is_hex(s@[i as int]));
            return false;
        }
        i += 1;
    }
    true
}

/// `s` with its ASCII capitals in lower case.
fn to_lower(s: &str) -> (r: String)
    ensures
        r@ == lower(s@),
{
    let v = text::chars_of(s);
    let mut out = String::new();
    let mut i: usize = 0;
    while i < v.len()
        invariant
            i <= v.len(),
            v@ == s@,
            out@ == lower(s@.take(i as int)),
        decreases v.len() - i,
    {
        let c = v[i];
        if 'A' <= c && c <= 'Z' {
            out.push(((c as u8) + 32) as char);
        } else {
            out.push(c);
        }
        assert(out@ =~= lower(s@.take(i + 1)));
        i += 1;
    }
    assert(s@.take(i as int) =~= s@);
    out
}

/// Whether the `key=value` pairs of a query have a value for `key`.
fn query_has(query: &str, key: &str) -> (r: bool)
    ensures
        r == (last_value(pairs(text::split(query@, '&')), key@) is Some),
{
    let items = text::split_text(query, '&');
    let ghost all = text::split(query@, '&');
    assert(text::texts(items@).len() == items@.len());
    let mut found = false;
    let mut i: usize = 0;
    while i < items.len()
        invariant
            i <= items.len(),
            text::texts(items@) == all,
            all.len() == items@.len(),
            found == (last_value(pairs(all.take(i as int)), key@) is Some),
        decreases items.len() - i,
    {
        let item = items[i].as_str();
        let ghost seen = pairs(all.take(i as int));
        assert(all.take(i + 1).drop_last() =~= all.take(i as int));
        assert(item@ == all.take(i + 1).last());
        if let Some(eq) = text::find_char(item, '=') {
            assert(pairs(all.take(i + 1)).drop_last() =~= seen);
            if text::same_text(text::before(item, eq), key) {
                found = true;
            }
        }
        i += 1;
    }
    assert(all.take(i as int) =~= all);
    found
}

/// Whether a source that is accepted selects a branch.
pub fn source_follows_branch(source: &str) -> (r: bool)
    ensures
        r == follows_branch(source@),
{
    match parse_locked_github_source(source) {
        Ok(found) => match found.reference {
            LockedGitReference::Commit => {},
            _ => {
                return false;
            },
        },
        Err(_) => {
            return false;
        },
    }
    let stripped = match text::strip_prefix(source, "git+") {
        Some(rest) => rest,
        None => {
            return false;
        },
    };
    let at: usize = match text::find_last_char(stripped, '#') {
        Some(at) => at,
        None => {
            return false;
        },
    };
    let located = text::before(stripped, at);
    let len = located.unicode_len();
    let query = match text::find_char(located, '?') {
        Some(i) => {
            assert(i < len);
            text::after(located, i + 1)
        },
        None => "",
    };
    proof {
        reveal_strlit("");
        assert(query@ =~= query_of(located@));
    }
    query_has(query, "branch")
}

/// Reads a `source` entry of `Cargo.lock` that selects a GitHub repository.
pub fn parse_locked_github_source(source: &str) -> (r: Result<LockedGitSource, SourceError>)
    ensures
        match r {
            Ok(found) => locked_source(source@) == Ok::<SourceView, SourceErrorView>(found@),
            Err(e) => locked_source(source@) == Err::<SourceView, SourceErrorView>(e@),
        },
{
    let stripped = match text::strip_prefix(source, "git+") {
        Some(rest) => rest,
        None => {
            return Err(SourceError::NotGit(source.to_owned()));
        },
    };
    let len = stripped.unicode_len();
    let at: usize = match text::find_last_char(stripped, '#') {
        Some(at) => at,
        None => {
            return Err(SourceError::NoCommit(stripped.to_owned()));
        },
    };
    let located = text::before(stripped, at);
    let commit = text::after(stripped, at + 1);
    if !check_commit(commit) {
        return Err(SourceError::InvalidCommit(commit.to_owned()));
    }
    let located_len = located.unicode_len();
    let (front, query) = match text::find_char(located, '?') {
        Some(i) => (text::before(located, i), text::after(located, i + 1)),
        None => (located, ""),
    };
    proof {
        reveal_strlit("");
        reveal_strlit(".git");
        assert(located@.take(located@.len() as int) =~= located@);
        assert(query@ =~= query_of(located@));
    }
    let repository = text::trim_end_copies(text::trim_end_char(front, '/'), ".git");
    let path = match text::strip_prefix(repository, "https://github.com/") {
        Some(path) => path,
        None => {
            return Err(SourceError::UnsupportedHost(repository.to_owned()));
        },
    };
    let parts = text::split_text(path, '/');
    assert(text::texts(parts@).len() == parts@.len());
    assert(forall|i: int| 0 <= i < parts@.len() ==> text::texts(parts@)[i] == #[trigger] parts@[i]@);
    if parts.len() != 2 || parts[0].as_str().is_empty() || parts[1].as_str().is_empty() {
        return Err(SourceError::InvalidRepository(repository.to_owned()));
    }
    let items = text::split_text(query, '&');
    let ghost all = text::split(query@, '&');
    let mut rev: bool = false;
    let mut tag: Option<String> = None;
    let mut i: usize = 0;
    while i < items.len()
        invariant
            i <= items.len(),
            text::texts(items@) == all,
            all.len() == items@.len(),
            first_bad(pairs(all.take(i as int))) is None,
            rev == (last_value(pairs(all.take(i as int)), "rev"@) is Some),
            match tag {
                Some(t) => last_value(pairs(all.take(i as int)), "tag"@) == Some(t@),
                None => last_value(pairs(all.take(i as int)), "tag"@) is None,
            },
            locked_source(source@) == github_source(
                stripped@,
                repository@,
                pairs(all),
                commit@,
            ),
            text::has_prefix(repository@, "https://github.com/"@),
            text::split(repository@.skip("https://github.com/"@.len() as int), '/') == text::texts(parts@),
            parts@.len() == 2,
            text::texts(parts@)[0].len() > 0,
            text::texts(parts@)[1].len() > 0,
        decreases items.len() - i,
    {
        let item = items[i].as_str();
        let ghost seen = pairs(all.take(i as int));
        assert(all.take(i + 1).drop_last() =~= all.take(i as int));
        assert(item@ == all.take(i + 1).last());
        let item_len = item.unicode_len();
        if let Some(eq) = text::find_char(item, '=') {
            assert(eq < item_len);
            let key = text::before(item, eq);
            let value = text::after(item, eq + 1);
            let ghost found = pairs(all.take(i + 1));
            assert(found.drop_last() =~= seen);
            assert(found.last() == (key@, value@));
            if let Err(e) = validate_git_selector(value) {
                proof {
                    lemma_first_bad_stays(all, i + 1);
                }
                return Err(e);
            }
            proof {
                reveal_strlit("rev");
                reveal_strlit("tag");
                assert("rev"@[0] != "tag"@[0]);
            }
            if text::same_text(key, "rev") {
                rev = true;
            } else if text::same_text(key, "tag") {
                tag = Some(value.to_owned());
            }
        }
        i += 1;
    }
    assert(all.take(i as int) =~= all);
    if rev && tag.is_some() {
        return Err(SourceError::RevAndTag(stripped.to_owned()));
    }
    let reference = if rev {
        LockedGitReference::Rev
    } else {
        match tag {
            Some(tag) => LockedGitReference::Tag(tag),
            None => LockedGitReference::Commit,
        }
    };
    Ok(
        LockedGitSource {
            repository: repository.to_owned(),
            repository_name: parts[1].as_str().to_owned(),
            commit: to_lower(commit),
            reference,
        },
    )
}

/// A source that was read is pinned and can stand in a spec file: its
/// repository is on GitHub, its commit is a full lower-case id, and its tag,
/// if it has one, is a valid selector.
pub proof fn law_read_source_is_pinned(source: Seq<char>)
    requires
        locked_source(source) is Ok,
    ensures
        text::has_prefix(locked_source(source)->Ok_0.repository, "https://github.com/"@),
        locked_source(source)->Ok_0.repository_name.len() > 0,
        is_commit(locked_source(source)->Ok_0.commit),
        lower(locked_source(source)->Ok_0.commit) == locked_source(source)->Ok_0.commit,
        locked_source(source)->Ok_0.reference matches ReferenceView::Tag(tag) ==> is_selector(tag),
{
    let stripped = source.skip("git+"@.len() as int);
    let at = text::last_index(stripped, '#');
    let located = stripped.take(at);
    let commit = stripped.skip(at + 1);
    let found = pairs(text::split(query_of(located), '&'));
    let read = locked_source(source)->Ok_0;
    assert forall|i: int| 0 <= i < 40 implies is_hex(#[trigger] read.commit[i]) && lower_char(
        read.commit[i],
    ) == read.commit[i] by {
        assert(read.commit[i] == lower_char(commit[i]));
        assert(is_hex(commit[i]));
    }
    assert(lower(read.commit) =~= read.commit);
    if let ReferenceView::Tag(tag) = read.reference {
        lemma_value_is_selector(found, "tag"@);
    }
}

/// Where no value is bad, each is a selector.
proof fn lemma_value_is_selector(found: Seq<(Seq<char>, Seq<char>)>, key: Seq<char>)
    requires
        first_bad(found) is None,
        last_value(found, key) is Some,
    ensures
        is_selector(last_value(found, key)->0),
    decreases found.len(),
{
    if found.last().0 != key {
        lemma_value_is_selector(found.drop_last(), key);
    }
}

/// Whether `s` can be the owner or the name in a repository URL.
pub open spec fn is_url_part(s: Seq<char>) -> bool {
    s.len() > 0 && !s.contains('/') && !s.contains('?')
}

/// The URL of a GitHub repository.
pub open spec fn repository_url(owner: Seq<char>, name: Seq<char>) -> Seq<char> {
    "https://github.com/"@ + owner + "/"@ + name
}

/// The entry that Cargo writes for a commit of a Git repository.
pub open spec fn recorded_source(url: Seq<char>, query: Seq<char>, commit: Seq<char>) -> Seq<char> {
    "git+"@ + (url + query + "#"@ + commit)
}

/// An entry that selects a tag is read back: repository, tag and commit. The
/// URL may end in `.git` or a slash.
pub proof fn law_tag_is_read_back(
    owner: Seq<char>,
    name: Seq<char>,
    ending: Seq<char>,
    tag: Seq<char>,
    commit: Seq<char>,
)
    requires
        is_url_part(owner),
        is_url_part(name),
        !text::has_suffix(name, ".git"@),
        ending == ""@ || ending == ".git"@ || ending == "/"@,
        tag.len() > 0,
        forall|i: int|
            0 <= i < tag.len() ==> !text::is_space(#[trigger] tag[i]) && tag[i] != '%' && tag[i]
                != '#' && tag[i] != '&',
        commit.len() == 40,
        forall|i: int|
            0 <= i < 40 ==> '0' <= #[trigger] commit[i] <= '9' || 'a' <= commit[i] <= 'f' || 'A'
                <= commit[i] <= 'F',
    ensures
        locked_source(
            recorded_source(repository_url(owner, name) + ending, "?tag="@ + tag, commit),
        ) == Ok::<_, SourceErrorView>(
            SourceView {
                repository: repository_url(owner, name),
                repository_name: name,
                commit: lower(commit),
                reference: ReferenceView::Tag(tag),
            },
        ),
{
    assert(!tag.contains('&'));
    reveal_strlit("?tag=");
    reveal_strlit("tag");
    reveal_strlit("rev");
    let query = "tag="@ + tag;
    reveal_strlit("tag=");
    assert("?tag="@ + tag =~= seq!['?'] + query);
    lemma_recorded(owner, name, ending, Some(query), commit);
    lemma_one_pair("tag"@, tag);
    assert("tag"@ + seq!['='] + tag =~= query);
    let found = pairs(text::split(query, '&'));
    assert(found =~= seq![("tag"@, tag)]);
    assert("tag"@[0] != "rev"@[0]);
    lemma_single(found);
}

/// An entry that selects a revision is read back: repository and commit. The
/// URL may end in `.git` or a slash.
pub proof fn law_rev_is_read_back(
    owner: Seq<char>,
    name: Seq<char>,
    ending: Seq<char>,
    rev: Seq<char>,
    commit: Seq<char>,
)
    requires
        is_url_part(owner),
        is_url_part(name),
        !text::has_suffix(name, ".git"@),
        ending == ""@ || ending == ".git"@ || ending == "/"@,
        rev.len() > 0,
        forall|i: int|
            0 <= i < rev.len() ==> !text::is_space(#[trigger] rev[i]) && rev[i] != '%' && rev[i]
                != '#' && rev[i] != '&',
        commit.len() == 40,
        forall|i: int|
            0 <= i < 40 ==> '0' <= #[trigger] commit[i] <= '9' || 'a' <= commit[i] <= 'f' || 'A'
                <= commit[i] <= 'F',
    ensures
        locked_source(
            recorded_source(repository_url(owner, name) + ending, "?rev="@ + rev, commit),
        ) == Ok::<_, SourceErrorView>(
            SourceView {
                repository: repository_url(owner, name),
                repository_name: name,
                commit: lower(commit),
                reference: ReferenceView::Rev,
            },
        ),
{
    assert(!rev.contains('&'));
    reveal_strlit("?rev=");
    reveal_strlit("tag");
    reveal_strlit("rev");
    let query = "rev="@ + rev;
    reveal_strlit("rev=");
    assert("?rev="@ + rev =~= seq!['?'] + query);
    lemma_recorded(owner, name, ending, Some(query), commit);
    lemma_one_pair("rev"@, rev);
    assert("rev"@ + seq!['='] + rev =~= query);
    let found = pairs(text::split(query, '&'));
    assert(found =~= seq![("rev"@, rev)]);
    assert("tag"@[0] != "rev"@[0]);
    lemma_single(found);
}

/// An entry that selects a branch is read back as the commit that the branch
/// was resolved to, and so is an entry that selects nothing. The URL may end
/// in `.git` or a slash.
pub proof fn law_commit_is_read_back(
    owner: Seq<char>,
    name: Seq<char>,
    ending: Seq<char>,
    branch: Seq<char>,
    commit: Seq<char>,
)
    requires
        is_url_part(owner),
        is_url_part(name),
        !text::has_suffix(name, ".git"@),
        ending == ""@ || ending == ".git"@ || ending == "/"@,
        branch.len() > 0,
        forall|i: int|
            0 <= i < branch.len() ==> !text::is_space(#[trigger] branch[i]) && branch[i] != '%' && branch[i]
                != '#' && branch[i] != '&',
        commit.len() == 40,
        forall|i: int|
            0 <= i < 40 ==> '0' <= #[trigger] commit[i] <= '9' || 'a' <= commit[i] <= 'f' || 'A'
                <= commit[i] <= 'F',
    ensures
        locked_source(
            recorded_source(repository_url(owner, name) + ending, "?branch="@ + branch, commit),
        ) == Ok::<_, SourceErrorView>(
            SourceView {
                repository: repository_url(owner, name),
                repository_name: name,
                commit: lower(commit),
                reference: ReferenceView::Commit,
            },
        ),
        locked_source(recorded_source(repository_url(owner, name) + ending, ""@, commit)) == Ok::<
            _,
            SourceErrorView,
        >(
            SourceView {
                repository: repository_url(owner, name),
                repository_name: name,
                commit: lower(commit),
                reference: ReferenceView::Commit,
            },
        ),
{
    assert(!branch.contains('&'));
    reveal_strlit("?branch=");
    reveal_strlit("branch=");
    reveal_strlit("branch");
    reveal_strlit("tag");
    reveal_strlit("rev");
    reveal_strlit("");
    let query = "branch="@ + branch;
    assert("?branch="@ + branch =~= seq!['?'] + query);
    lemma_recorded(owner, name, ending, Some(query), commit);
    lemma_one_pair("branch"@, branch);
    assert("branch"@ + seq!['='] + branch =~= query);
    let found = pairs(text::split(query, '&'));
    assert(found =~= seq![("branch"@, branch)]);
    assert("branch"@[0] != "rev"@[0]);
    assert("branch"@[0] != "tag"@[0]);
    lemma_single(found);
    lemma_recorded(owner, name, ending, None, commit);
    assert(""@ =~= Seq::<char>::empty());
    let nothing = pairs(text::split(Seq::<char>::empty(), '&'));
    assert(text::split(Seq::<char>::empty(), '&') =~= seq![Seq::<char>::empty()]);
    assert(seq![Seq::<char>::empty()].drop_last() =~= Seq::<Seq<char>>::empty());
    assert(pairs(Seq::<Seq<char>>::empty()) =~= Seq::<(Seq<char>, Seq<char>)>::empty());
    assert(nothing =~= Seq::<(Seq<char>, Seq<char>)>::empty());
    assert(first_bad(nothing) is None);
    assert(last_value(nothing, "rev"@) is None);
    assert(last_value(nothing, "tag"@) is None);
}

/// What one valid pair makes of a query.
proof fn lemma_single(found: Seq<(Seq<char>, Seq<char>)>)
    requires
        found.len() == 1,
        is_selector(found[0].1),
    ensures
        first_bad(found) is None,
        forall|key: Seq<char>| #[trigger]
            last_value(found, key) == if found[0].0 == key {
                Some(found[0].1)
            } else {
                None
            },
{
    assert(found.drop_last() =~= Seq::<(Seq<char>, Seq<char>)>::empty());
    assert(first_bad(found.drop_last()) is None);
    assert forall|key: Seq<char>| #[trigger] last_value(found, key) == if found[0].0 == key {
        Some(found[0].1)
    } else {
        None
    } by {
        assert(last_value(found.drop_last(), key) is None);
    }
}

/// A query of one pair holds that pair.
proof fn lemma_one_pair(key: Seq<char>, value: Seq<char>)
    requires
        !key.contains('='),
        !key.contains('&'),
        !value.contains('&'),
    ensures
        pairs(text::split(key + seq!['='] + value, '&')) == seq![(key, value)],
{
    let query = key + seq!['='] + value;
    assert forall|j: int| 0 <= j < query.len() implies query[j] != '&' by {
        if j < key.len() {
            assert(key.contains(key[j]));
        } else if j > key.len() {
            assert(value.contains(value[j - key.len() - 1]));
        }
    }
    text::lemma_first_index(query, '&', query.len() as int);
    assert(text::split(query, '&') =~= seq![query]);
    assert(seq![query].drop_last() =~= Seq::<Seq<char>>::empty());
    assert forall|j: int| 0 <= j < key.len() implies query[j] != '=' by {
        assert(key.contains(key[j]));
    }
    text::lemma_first_index(query, '=', key.len() as int);
    assert(query.take(key.len() as int) =~= key);
    assert(query.skip(key.len() as int + 1) =~= value);
    assert(pairs(Seq::<Seq<char>>::empty()) =~= Seq::<(Seq<char>, Seq<char>)>::empty());
    assert(pairs(seq![query]) =~= seq![(key, value)]);
}

/// An entry is taken apart at its marks.
proof fn lemma_recorded(
    owner: Seq<char>,
    name: Seq<char>,
    ending: Seq<char>,
    query: Option<Seq<char>>,
    commit: Seq<char>,
)
    requires
        is_url_part(owner),
        is_url_part(name),
        !text::has_suffix(name, ".git"@),
        ending == ""@ || ending == ".git"@ || ending == "/"@,
        is_commit(commit),
    ensures
        ({
            let marked = match query {
                Some(q) => seq!['?'] + q,
                None => seq![],
            };
            let asked = match query {
                Some(q) => q,
                None => seq![],
            };
            let found = pairs(text::split(asked, '&'));
            let read = locked_source(
                recorded_source(repository_url(owner, name) + ending, marked, commit),
            );
            &&& first_bad(found) is None && !(last_value(found, "rev"@) is Some && last_value(
                found,
                "tag"@,
            ) is Some) ==> read == Ok::<_, SourceErrorView>(
                SourceView {
                    repository: repository_url(owner, name),
                    repository_name: name,
                    commit: lower(commit),
                    reference: reference_of(found),
                },
            )
        }),
{
    let url = repository_url(owner, name) + ending;
    let marked = match query {
        Some(q) => seq!['?'] + q,
        None => seq![],
    };
    let located = url + marked;
    lemma_marks(located, commit);
    assert(recorded_source(url, marked, commit) == "git+"@ + (located + "#"@ + commit));
    lemma_url_has_no_query(owner, name, ending);
    text::lemma_first_index(located, '?', url.len() as int);
    assert(located.take(url.len() as int) =~= url);
    match query {
        Some(q) => {
            assert(located.skip(url.len() as int + 1) =~= q);
        },
        None => {},
    }
    lemma_trimmed(owner, name, ending);
    lemma_url_parts(owner, name);
}

/// An entry falls apart at `git+` and at its last `#`.
proof fn lemma_marks(located: Seq<char>, commit: Seq<char>)
    requires
        is_commit(commit),
    ensures
        ({
            let source = "git+"@ + (located + "#"@ + commit);
            let stripped = source.skip("git+"@.len() as int);
            let at = text::last_index(stripped, '#');
            &&& text::has_prefix(source, "git+"@)
            &&& at == located.len()
            &&& stripped.take(at) == located
            &&& stripped.skip(at + 1) == commit
        }),
{
    reveal_strlit("git+");
    reveal_strlit("#");
    let source = "git+"@ + (located + "#"@ + commit);
    let stripped = located + "#"@ + commit;
    let at = located.len() as int;
    assert(source.take("git+"@.len() as int) =~= "git+"@);
    assert(source.skip("git+"@.len() as int) =~= stripped);
    assert forall|j: int| at < j < stripped.len() implies stripped[j] != '#' by {
        assert(is_hex(commit[j - at - 1]));
    }
    text::lemma_last_index(stripped, '#', at);
    assert(stripped.take(at) =~= located);
    assert(stripped.skip(at + 1) =~= commit);
}

/// There is no `?` in a repository URL.
proof fn lemma_url_has_no_query(owner: Seq<char>, name: Seq<char>, ending: Seq<char>)
    requires
        is_url_part(owner),
        is_url_part(name),
        ending == ""@ || ending == ".git"@ || ending == "/"@,
    ensures
        forall|j: int|
            0 <= j < (repository_url(owner, name) + ending).len() ==> (repository_url(owner, name)
                + ending)[j] != '?',
{
    reveal_strlit("/");
    reveal_strlit("");
    reveal_strlit(".git");
    reveal_strlit("https://github.com/");
    let url = repository_url(owner, name) + ending;
    let n = "https://github.com/"@.len() as int;
    let m = n + owner.len();
    assert forall|j: int| 0 <= j < url.len() implies url[j] != '?' by {
        if j < n {
            assert(url[j] == "https://github.com/"@[j]);
        } else if j < m {
            assert(url[j] == owner[j - n]);
            assert(owner.contains(owner[j - n]));
        } else if j == m {
            assert(url[j] == '/');
        } else if j < m + 1 + name.len() {
            assert(url[j] == name[j - m - 1]);
            assert(name.contains(name[j - m - 1]));
        } else {
            assert(url[j] == ending[j - m - 1 - name.len()]);
        }
    }
}

/// A repository URL names the host, the owner and the repository.
proof fn lemma_url_parts(owner: Seq<char>, name: Seq<char>)
    requires
        is_url_part(owner),
        is_url_part(name),
    ensures
        text::has_prefix(repository_url(owner, name), "https://github.com/"@),
        text::split(
            repository_url(owner, name).skip("https://github.com/"@.len() as int),
            '/',
        ) == seq![owner, name],
{
    reveal_strlit("/");
    let host = "https://github.com/"@;
    let repository = repository_url(owner, name);
    assert(repository.take(host.len() as int) =~= host);
    let path = owner + "/"@ + name;
    assert(repository.skip(host.len() as int) =~= path);
    assert forall|j: int| 0 <= j < owner.len() implies path[j] != '/' by {
        assert(owner.contains(owner[j]));
    }
    text::lemma_first_index(path, '/', owner.len() as int);
    assert(path.take(owner.len() as int) =~= owner);
    assert(path.skip(owner.len() as int + 1) =~= name);
    text::lemma_first_index_of(name, '/');
    assert(text::split(name, '/') =~= seq![name]);
    assert(text::split(path, '/') =~= seq![owner, name]);
}

/// A URL loses its ending and nothing else.
proof fn lemma_trimmed(owner: Seq<char>, name: Seq<char>, ending: Seq<char>)
    requires
        is_url_part(owner),
        is_url_part(name),
        !text::has_suffix(name, ".git"@),
        ending == ""@ || ending == ".git"@ || ending == "/"@,
    ensures
        text::trim_end_text(
            text::trim_end(repository_url(owner, name) + ending, '/'),
            ".git"@,
        ) == repository_url(owner, name),
{
    reveal_strlit("/");
    reveal_strlit("");
    reveal_strlit(".git");
    let base = repository_url(owner, name);
    let url = base + ending;
    assert(base.last() == name.last());
    assert(name.contains(name.last()));
    assert(text::trim_end(base, '/') == base);
    assert(!text::has_suffix(base, ".git"@)) by {
        if text::has_suffix(base, ".git"@) {
            let tail = base.skip(base.len() - 4);
            assert(tail =~= ".git"@);
            if name.len() >= 4 {
                assert(name.skip(name.len() - 4) =~= tail);
            } else {
                let k = 4 - 1 - name.len();
                assert(tail[k] == '/');
            }
        }
    }
    assert(text::trim_end_text(base, ".git"@) == base);
    if ending == ""@ {
        assert(url =~= base);
    } else if ending == "/"@ {
        assert(url.drop_last() =~= base);
        assert(url.last() == '/');
    } else {
        assert(url.last() == 't');
        assert(url.skip(url.len() - 4) =~= ".git"@);
        assert(url.take(url.len() - 4) =~= base);
    }
}

} // verus!
