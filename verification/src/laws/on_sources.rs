//! Laws of [`crate::source`].
use vstd::prelude::*;

use crate::laws::on_text;
use crate::source;
use crate::source::{
    LockedGitReference, LockedGitSource, ReferenceView, SourceError, SourceErrorView, SourceView,
};
use crate::text;

verus! {

/// A text can select exactly if it is not empty and none of its characters is
/// white space, a percent sign or a number sign.
pub proof fn law_selector(s: Seq<char>)
    ensures
        source::is_selector(s) <==> s.len() > 0 && forall|i: int|
            0 <= i < s.len() ==> !text::is_space(#[trigger] s[i]) && s[i] != '%' && s[i] != '#',
{
}

/// A commit id has forty digits, each a decimal one or a letter from a to f in
/// either case.
pub proof fn law_commit(s: Seq<char>)
    ensures
        source::is_commit(s) <==> s.len() == 40 && forall|i: int|
            0 <= i < s.len() ==> "0123456789abcdefABCDEF"@.contains(#[trigger] s[i]),
{
    reveal_strlit("0123456789abcdefABCDEF");
    let digits = "0123456789abcdefABCDEF"@;
    assert forall|c: char| source::is_hex(c) <==> #[trigger] digits.contains(c) by {
        if source::is_hex(c) {
            if c <= '9' {
                assert(digits[c as int - 48] == c);
            } else if c <= 'F' {
                assert(digits[c as int - 65 + 16] == c);
            } else {
                assert(digits[c as int - 97 + 10] == c);
            }
        }
    }
}

/// Capitals from A to Z become small letters, and nothing else changes.
pub proof fn law_lower(s: Seq<char>, i: int, k: int)
    requires
        0 <= i < s.len(),
        0 <= k < 26,
    ensures
        source::lower(s).len() == s.len(),
        s[i] == "ABCDEFGHIJKLMNOPQRSTUVWXYZ"@[k] ==> source::lower(s)[i]
            == "abcdefghijklmnopqrstuvwxyz"@[k],
        !("ABCDEFGHIJKLMNOPQRSTUVWXYZ"@.contains(s[i])) ==> source::lower(s)[i] == s[i],
{
    reveal_strlit("ABCDEFGHIJKLMNOPQRSTUVWXYZ");
    reveal_strlit("abcdefghijklmnopqrstuvwxyz");
    let capitals = "ABCDEFGHIJKLMNOPQRSTUVWXYZ"@;
    if 'A' <= s[i] <= 'Z' {
        assert(capitals[s[i] as int - 65] == s[i]);
    }
}

/// The URL and the query part at the first question mark; a URL without one
/// has no query.
pub proof fn law_url_and_query(url: Seq<char>, query: Seq<char>)
    requires
        forall|i: int| 0 <= i < url.len() ==> url[i] != '?',
    ensures
        source::repository_of(url + "?"@ + query) == source::repository_of(url),
        source::query_of(url + "?"@ + query) == query,
        source::query_of(url) == Seq::<char>::empty(),
        source::repository_of(url) == text::trim_end_text(text::trim_end(url, '/'), ".git"@),
{
    reveal_strlit("?");
    let located = url + "?"@ + query;
    assert("?"@ =~= seq!['?']);
    on_text::law_first_index(url, '?', query);
    assert(located.take(url.len() as int) =~= url);
    assert(url.take(url.len() as int) =~= url);
    assert(located.skip(url.len() as int + 1) =~= query);
}

/// Slashes behind a repository URL, then one `.git`, are no part of the
/// repository. A URL without either is the repository as it stands.
pub proof fn law_repository(base: Seq<char>, url: Seq<char>)
    requires
        forall|i: int| 0 <= i < base.len() ==> base[i] != '?',
        forall|i: int| 0 <= i < url.len() ==> url[i] != '?',
        base.len() > 0,
        base[base.len() - 1] != '/',
        forall|front: Seq<char>| base != #[trigger] (front + ".git"@),
    ensures
        source::repository_of(base) == base,
        source::repository_of(base + ".git"@) == base,
        source::repository_of(url.push('/')) == source::repository_of(url),
{
    reveal_strlit(".git");
    let ended = base + ".git"@;
    let slashed = url.push('/');
    assert(ended[ended.len() - 1] == 't');
    assert forall|i: int| 0 <= i < ended.len() implies ended[i] != '?' by {
        if i < base.len() {
            assert(ended[i] == base[i]);
        }
    }
    law_url_and_query(base, seq![]);
    law_url_and_query(ended, seq![]);
    law_url_and_query(url, seq![]);
    assert forall|i: int| 0 <= i < slashed.len() implies slashed[i] != '?' by {}
    law_url_and_query(slashed, seq![]);
    on_text::law_trim_end(base, '/');
    on_text::law_trim_end(ended, '/');
    on_text::law_trim_end(url, '/');
    on_text::law_trim_end_text(base, ".git"@);
}

/// An item of a query is a pair if it has an equals sign, parted at the first.
/// Other items count for nothing.
pub proof fn law_pairs(items: Seq<Seq<char>>, key: Seq<char>, value: Seq<char>)
    requires
        forall|i: int| 0 <= i < key.len() ==> key[i] != '=',
    ensures
        source::pairs(seq![]) == Seq::<(Seq<char>, Seq<char>)>::empty(),
        source::pairs(items.push(key + "="@ + value)) == source::pairs(items).push((key, value)),
        source::pairs(items.push(key)) == source::pairs(items),
{
    reveal_strlit("=");
    assert("="@ =~= seq!['=']);
    let item = key + "="@ + value;
    on_text::law_first_index(key, '=', value);
    assert(item.take(key.len() as int) =~= key);
    assert(item.skip(key.len() as int + 1) =~= value);
    assert(items.push(item).drop_last() =~= items);
    assert(items.push(key).drop_last() =~= items);
}

/// The first value that cannot select is the bad one.
pub proof fn law_first_bad(
    found: Seq<(Seq<char>, Seq<char>)>,
    key: Seq<char>,
    value: Seq<char>,
)
    ensures
        source::first_bad(seq![]) is None,
        source::first_bad(found) is Some ==> source::first_bad(found.push((key, value)))
            == source::first_bad(found),
        source::first_bad(found) is None && source::is_selector(value) ==> source::first_bad(
            found.push((key, value)),
        ) is None,
        source::first_bad(found) is None && !source::is_selector(value) ==> source::first_bad(
            found.push((key, value)),
        ) == Some(value),
{
    assert(found.push((key, value)).drop_last() =~= found);
}

/// The last value of a key counts.
pub proof fn law_last_value(
    found: Seq<(Seq<char>, Seq<char>)>,
    key: Seq<char>,
    value: Seq<char>,
    other: Seq<char>,
)
    requires
        other != key,
    ensures
        source::last_value(seq![], key) is None,
        source::last_value(found.push((key, value)), key) == Some(value),
        source::last_value(found.push((other, value)), key) == source::last_value(found, key),
{
    assert(found.push((other, value)).drop_last() =~= found);
}

/// A revision is taken before a tag, and a tag before the bare commit.
pub proof fn law_reference(found: Seq<(Seq<char>, Seq<char>)>)
    ensures
        source::last_value(found, "rev"@) is Some ==> source::reference_of(found)
            == ReferenceView::Rev,
        source::last_value(found, "rev"@) is None ==> match source::last_value(found, "tag"@) {
            Some(tag) => source::reference_of(found) == ReferenceView::Tag(tag),
            None => source::reference_of(found) == ReferenceView::Commit,
        },
{
}

/// An entry that does not begin with `git+` is no Git source.
pub proof fn law_other_sources_are_refused(entry: Seq<char>)
    requires
        forall|rest: Seq<char>| entry != #[trigger] ("git+"@ + rest),
    ensures
        source::locked_source(entry) == Err::<SourceView, _>(SourceErrorView::NotGit(entry)),
{
    if text::has_prefix(entry, "git+"@) {
        assert(entry =~= "git+"@ + entry.skip("git+"@.len() as int));
    }
}

/// A source without a number sign has no commit. What stands behind the last
/// one has to be a commit id.
pub proof fn law_commit_is_needed(located: Seq<char>, commit: Seq<char>)
    requires
        forall|i: int| 0 <= i < commit.len() ==> commit[i] != '#',
    ensures
        source::locked_source("git+"@ + commit) == Err::<SourceView, _>(
            SourceErrorView::NoCommit(commit),
        ),
        !source::is_commit(commit) ==> source::locked_source(
            "git+"@ + (located + "#"@ + commit),
        ) == Err::<SourceView, _>(SourceErrorView::InvalidCommit(commit)),
{
    reveal_strlit("git+");
    reveal_strlit("#");
    assert("#"@ =~= seq!['#']);
    let n = "git+"@.len() as int;
    let bare = "git+"@ + commit;
    on_text::law_prefix(bare, "git+"@, commit);
    assert(bare.skip(n) =~= commit);
    on_text::law_last_index(located, '#', commit);
    lemma_parted(located, commit);
}

/// How an entry with a commit falls apart.
proof fn lemma_parted(located: Seq<char>, commit: Seq<char>)
    requires
        forall|i: int| 0 <= i < commit.len() ==> commit[i] != '#',
    ensures
        ({
            let entry = "git+"@ + (located + "#"@ + commit);
            let stripped = entry.skip("git+"@.len() as int);
            &&& text::has_prefix(entry, "git+"@)
            &&& stripped == located + "#"@ + commit
            &&& text::last_index(stripped, '#') == located.len()
            &&& stripped.take(located.len() as int) == located
            &&& stripped.skip(located.len() as int + 1) == commit
        }),
{
    reveal_strlit("git+");
    reveal_strlit("#");
    assert("#"@ =~= seq!['#']);
    let stripped = located + "#"@ + commit;
    let entry = "git+"@ + stripped;
    on_text::law_prefix(entry, "git+"@, stripped);
    assert(entry.skip("git+"@.len() as int) =~= stripped);
    on_text::law_last_index(located, '#', commit);
    assert(stripped.take(located.len() as int) =~= located);
    assert(stripped.skip(located.len() as int + 1) =~= commit);
}

/// A commit has no number sign.
proof fn lemma_commit_has_no_mark(commit: Seq<char>)
    requires
        source::is_commit(commit),
    ensures
        forall|i: int| 0 <= i < commit.len() ==> commit[i] != '#',
{
    assert forall|i: int| 0 <= i < commit.len() implies commit[i] != '#' by {
        assert(source::is_hex(commit[i]));
    }
}

/// A source elsewhere than on GitHub over HTTPS is refused.
pub proof fn law_other_hosts_are_refused(located: Seq<char>, commit: Seq<char>)
    requires
        source::is_commit(commit),
        forall|path: Seq<char>|
            source::repository_of(located) != #[trigger] ("https://github.com/"@ + path),
    ensures
        source::locked_source("git+"@ + (located + "#"@ + commit)) == Err::<SourceView, _>(
            SourceErrorView::UnsupportedHost(source::repository_of(located)),
        ),
{
    lemma_commit_has_no_mark(commit);
    lemma_parted(located, commit);
    let r = source::repository_of(located);
    let host = "https://github.com/"@;
    if text::has_prefix(r, host) {
        assert(r =~= host + r.skip(host.len() as int));
    }
}

/// A GitHub URL that does not name an owner and a repository, and nothing
/// else, is refused.
pub proof fn law_other_urls_are_refused(located: Seq<char>, path: Seq<char>, commit: Seq<char>)
    requires
        source::is_commit(commit),
        source::repository_of(located) == "https://github.com/"@ + path,
        forall|owner: Seq<char>, name: Seq<char>|
            owner.len() > 0 && name.len() > 0 && !owner.contains('/') && !name.contains('/')
                ==> path != #[trigger] (owner + "/"@ + name),
    ensures
        source::locked_source("git+"@ + (located + "#"@ + commit)) == Err::<SourceView, _>(
            SourceErrorView::InvalidRepository(source::repository_of(located)),
        ),
{
    reveal_strlit("/");
    assert("/"@ =~= seq!['/']);
    lemma_commit_has_no_mark(commit);
    lemma_parted(located, commit);
    let host = "https://github.com/"@;
    let r = source::repository_of(located);
    on_text::law_prefix(r, host, path);
    assert(r.skip(host.len() as int) =~= path);
    let parts = text::split(path, '/');
    if parts.len() == 2 && parts[0].len() > 0 && parts[1].len() > 0 {
        text::lemma_first_index_of(path, '/');
        let i = text::first_index(path, '/');
        assert(i < path.len());
        let owner = path.take(i);
        let rest = path.skip(i + 1);
        assert(parts =~= seq![owner] + text::split(rest, '/'));
        assert(parts[0] == owner);
        assert(text::split(rest, '/').len() == 1);
        text::lemma_first_index_of(rest, '/');
        if text::first_index(rest, '/') < rest.len() {
            let j = text::first_index(rest, '/');
            text::lemma_first_index_of(rest.skip(j + 1), '/');
            assert(text::split(rest.skip(j + 1), '/').len() > 0);
        }
        assert(text::split(rest, '/') =~= seq![rest]);
        assert(parts[1] == rest);
        assert(!owner.contains('/'));
        assert(path =~= owner + "/"@ + rest);
    }
}

/// A source of a GitHub repository is refused for its first bad selector, then
/// for having both a revision and a tag. Else it is read: the repository, its
/// name, the commit in small letters and the reference.
pub proof fn law_source_is_read(
    located: Seq<char>,
    owner: Seq<char>,
    name: Seq<char>,
    commit: Seq<char>,
)
    requires
        source::is_commit(commit),
        owner.len() > 0,
        name.len() > 0,
        forall|i: int| 0 <= i < owner.len() ==> owner[i] != '/',
        forall|i: int| 0 <= i < name.len() ==> name[i] != '/',
        source::repository_of(located) == "https://github.com/"@ + owner + "/"@ + name,
    ensures
        ({
            let read = source::locked_source("git+"@ + (located + "#"@ + commit));
            let found = source::pairs(text::split(source::query_of(located), '&'));
            match source::first_bad(found) {
                Some(value) => read == Err::<SourceView, _>(
                    SourceErrorView::UnsupportedSelector(value),
                ),
                None => if source::last_value(found, "rev"@) is Some && source::last_value(
                    found,
                    "tag"@,
                ) is Some {
                    read == Err::<SourceView, _>(
                        SourceErrorView::RevAndTag(located + "#"@ + commit),
                    )
                } else {
                    read == Ok::<_, SourceErrorView>(
                        SourceView {
                            repository: "https://github.com/"@ + owner + "/"@ + name,
                            repository_name: name,
                            commit: source::lower(commit),
                            reference: source::reference_of(found),
                        },
                    )
                },
            }
        }),
        source::follows_branch("git+"@ + (located + "#"@ + commit)) <==> {
            let found = source::pairs(text::split(source::query_of(located), '&'));
            &&& source::first_bad(found) is None
            &&& source::last_value(found, "rev"@) is None
            &&& source::last_value(found, "tag"@) is None
            &&& source::last_value(found, "branch"@) is Some
        },
{
    reveal_strlit("/");
    assert("/"@ =~= seq!['/']);
    lemma_commit_has_no_mark(commit);
    lemma_parted(located, commit);
    let host = "https://github.com/"@;
    let path = owner + "/"@ + name;
    let r = source::repository_of(located);
    assert(r =~= host + path);
    on_text::law_prefix(r, host, path);
    assert(r.skip(host.len() as int) =~= path);
    on_text::law_split(name, '/', seq![]);
    on_text::law_split(owner, '/', name);
    assert(text::split(path, '/') =~= seq![owner, name]);
}

/// Only sources that are read follow a branch.
pub proof fn law_refused_sources_follow_no_branch(entry: Seq<char>)
    ensures
        source::locked_source(entry) is Err ==> !source::follows_branch(entry),
{
}

/// What stands for a source or an error keeps all of it.
pub proof fn law_source_views(
    read: LockedGitSource,
    reference: LockedGitReference,
    error: SourceError,
)
    ensures
        read@ == (SourceView {
            repository: read.repository@,
            repository_name: read.repository_name@,
            commit: read.commit@,
            reference: read.reference@,
        }),
        match reference {
            LockedGitReference::Rev => reference@ == ReferenceView::Rev,
            LockedGitReference::Tag(tag) => reference@ == ReferenceView::Tag(tag@),
            LockedGitReference::Commit => reference@ == ReferenceView::Commit,
        },
        match error {
            SourceError::NotGit(s) => error@ == SourceErrorView::NotGit(s@),
            SourceError::NoCommit(s) => error@ == SourceErrorView::NoCommit(s@),
            SourceError::InvalidCommit(s) => error@ == SourceErrorView::InvalidCommit(s@),
            SourceError::UnsupportedHost(s) => error@ == SourceErrorView::UnsupportedHost(s@),
            SourceError::InvalidRepository(s) => error@ == SourceErrorView::InvalidRepository(s@),
            SourceError::UnsupportedSelector(s) => error@ == SourceErrorView::UnsupportedSelector(
                s@,
            ),
            SourceError::RevAndTag(s) => error@ == SourceErrorView::RevAndTag(s@),
        },
{
}

} // verus!
