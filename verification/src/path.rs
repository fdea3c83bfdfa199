//! Slash-separated paths and their components.
use vstd::prelude::*;

use crate::text;

verus! {

/// Why a path of a manifest cannot be used below another directory.
#[derive(Debug, Eq, PartialEq)]
pub enum PathError {
    /// The path starts at the root.
    Absolute(String),
    /// The path goes to a parent directory.
    Escapes(String),
}

/// The texts of a [`PathError`].
pub enum PathErrorView {
    Absolute(Seq<char>),
    Escapes(Seq<char>),
}

impl View for PathError {
    type V = PathErrorView;

    open spec fn view(&self) -> PathErrorView {
        match self {
            PathError::Absolute(path) => PathErrorView::Absolute(path@),
            PathError::Escapes(path) => PathErrorView::Escapes(path@),
        }
    }
}

/// Whether a path starts at the root.
pub open spec fn is_absolute(path: Seq<char>) -> bool {
    path.len() > 0 && path[0] == '/'
}

/// Whether a piece between slashes is a component of its own: it is neither
/// empty nor `.`.
pub open spec fn is_step(piece: Seq<char>) -> bool {
    piece.len() > 0 && piece != seq!['.']
}

/// The pieces that are components of their own.
pub open spec fn steps_of(pieces: Seq<Seq<char>>) -> Seq<Seq<char>>
    decreases pieces.len(),
{
    if pieces.len() == 0 {
        seq![]
    } else if is_step(pieces.last()) {
        steps_of(pieces.drop_last()).push(pieces.last())
    } else {
        steps_of(pieces.drop_last())
    }
}

/// The components of a path: `/` for the root of an absolute path or `.` for a
/// leading current directory, then the pieces between slashes, without empty
/// ones and `.`.
pub open spec fn components(path: Seq<char>) -> Seq<Seq<char>> {
    let pieces = text::split(path, '/');
    let start = if is_absolute(path) {
        seq![seq!['/']]
    } else if pieces[0] == seq!['.'] {
        seq![seq!['.']]
    } else {
        seq![]
    };
    start + steps_of(pieces)
}

/// Whether `child` lies below `parent`.
pub open spec fn is_below(child: Seq<char>, parent: Seq<char>) -> bool {
    components(child) != components(parent) && text::has_prefix(
        components(child),
        components(parent),
    )
}

/// Whether a component names something in the directory that it is looked up
/// in.
pub open spec fn is_name(component: Seq<char>) -> bool {
    component.len() > 0 && component != seq!['.'] && component != seq!['.', '.']
        && !component.contains('/')
}

/// The name of the file that a path leads to.
pub open spec fn file_name(path: Seq<char>) -> Option<Seq<char>> {
    let steps = components(path);
    if steps.len() > 0 && is_name(steps.last()) {
        Some(steps.last())
    } else {
        None
    }
}

/// The part of the file name behind its last dot, unless that dot is its first
/// character.
pub open spec fn extension(path: Seq<char>) -> Option<Seq<char>> {
    match file_name(path) {
        Some(name) => {
            let dot = text::last_index(name, '.');
            if dot > 0 {
                Some(name.skip(dot + 1))
            } else {
                None
            }
        },
        None => None,
    }
}

/// The path unless it leaves the directory that it is used in.
pub open spec fn safe_path(path: Seq<char>) -> Result<Seq<char>, PathErrorView> {
    if is_absolute(path) {
        Err(PathErrorView::Absolute(path))
    } else if components(path).contains(seq!['.', '.']) {
        Err(PathErrorView::Escapes(path))
    } else {
        Ok(path)
    }
}

/// The pieces between separators hold no separator.
proof fn lemma_pieces(s: Seq<char>, separator: char)
    ensures
        text::split(s, separator).len() > 0,
        forall|i: int|
            0 <= i < text::split(s, separator).len() ==> !(#[trigger] text::split(
                s,
                separator,
            )[i]).contains(separator),
    decreases s.len(),
{
    text::lemma_first_index_of(s, separator);
    let at = text::first_index(s, separator);
    let pieces = text::split(s, separator);
    if at < s.len() {
        let rest = s.skip(at + 1);
        lemma_pieces(rest, separator);
        assert forall|i: int| 0 <= i < pieces.len() implies !(#[trigger] pieces[i]).contains(
            separator,
        ) by {
            if i == 0 {
                assert(pieces[0] =~= s.take(at));
            } else {
                assert(pieces[i] == text::split(rest, separator)[i - 1]);
            }
        }
    }
}

/// A component behind the start of a path is one of its pieces.
proof fn lemma_steps(pieces: Seq<Seq<char>>, i: int)
    requires
        0 <= i < steps_of(pieces).len(),
    ensures
        is_step(steps_of(pieces)[i]),
        pieces.contains(steps_of(pieces)[i]),
    decreases pieces.len(),
{
    let front = pieces.drop_last();
    if i < steps_of(front).len() {
        lemma_steps(front, i);
        let k = choose|k: int| 0 <= k < front.len() && front[k] == steps_of(front)[i];
        assert(pieces[k] == steps_of(pieces)[i]);
    } else {
        assert(pieces[pieces.len() - 1] == steps_of(pieces)[i]);
    }
}

/// A path that is found safe only walks down: each of its components is a
/// name, but for a `.` in front.
pub proof fn law_safe_path_walks_down(path: Seq<char>, i: int)
    requires
        safe_path(path) is Ok,
        0 <= i < components(path).len(),
    ensures
        is_name(components(path)[i]) || (i == 0 && components(path)[i] == seq!['.']),
{
    let pieces = text::split(path, '/');
    let kept = steps_of(pieces);
    lemma_pieces(path, '/');
    let c = components(path)[i];
    assert(components(path).contains(c));
    if i > 0 || pieces[0] != seq!['.'] {
        let k = i - (components(path).len() - kept.len());
        assert(kept[k] == c);
        lemma_steps(pieces, k);
    }
}

/// Whether a path starts at the root.
pub fn path_is_absolute(path: &str) -> (r: bool)
    ensures
        r == is_absolute(path@),
{
    path.unicode_len() > 0 && path.get_char(0) == '/'
}

/// The components of a path.
pub fn path_components(path: &str) -> (r: Vec<String>)
    ensures
        text::texts(r@) == components(path@),
{
    let pieces = text::split_text(path, '/');
    let ghost all = text::split(path@, '/');
    proof {
        lemma_pieces(path@, '/');
        reveal_strlit("/");
        reveal_strlit(".");
        assert("."@ =~= seq!['.']);
        assert("/"@ =~= seq!['/']);
        assert(all.len() == pieces@.len());
        assert(all[0] == pieces@[0]@);
    }
    let mut steps: Vec<String> = Vec::new();
    if path_is_absolute(path) {
        steps.push("/".to_owned());
    } else if text::same_text(pieces[0].as_str(), ".") {
        steps.push(".".to_owned());
    }
    let ghost start = text::texts(steps@);
    assert(start + steps_of(all) =~= components(path@));
    let mut i: usize = 0;
    while i < pieces.len()
        invariant
            i <= pieces.len(),
            text::texts(pieces@) == all,
            text::texts(steps@) == start + steps_of(all.take(i as int)),
            "."@ == seq!['.'],
        decreases pieces.len() - i,
    {
        let piece = pieces[i].as_str();
        let ghost before = steps@;
        assert(all[i as int] == piece@);
        assert(all.take(i + 1).drop_last() =~= all.take(i as int));
        if !piece.is_empty() && !text::same_text(piece, ".") {
            steps.push(piece.to_owned());
            assert(text::texts(steps@) =~= text::texts(before).push(piece@));
            assert(text::texts(steps@) =~= start + steps_of(all.take(i + 1)));
        }
        i += 1;
    }
    assert(all.take(i as int) =~= all);
    steps
}

/// Whether `child` lies below `parent`; both are lists of components.
pub fn components_below(child: &Vec<String>, parent: &Vec<String>) -> (r: bool)
    ensures
        r == (text::texts(child@) != text::texts(parent@) && text::has_prefix(
            text::texts(child@),
            text::texts(parent@),
        )),
{
    let ghost c = text::texts(child@);
    let ghost p = text::texts(parent@);
    if child.len() <= parent.len() {
        proof {
            if c.len() == p.len() {
                assert(c.take(p.len() as int) =~= c);
            }
        }
        return false;
    }
    let mut i: usize = 0;
    while i < parent.len()
        invariant
            i <= parent.len(),
            parent.len() < child.len(),
            c == text::texts(child@),
            p == text::texts(parent@),
            forall|j: int| 0 <= j < i ==> c[j] == p[j],
        decreases parent.len() - i,
    {
        assert(c[i as int] == child@[i as int]@);
        assert(p[i as int] == parent@[i as int]@);
        if !text::same_text(child[i].as_str(), parent[i].as_str()) {
            proof {
                assert(c.take(p.len() as int)[i as int] != p[i as int]);
            }
            return false;
        }
        i += 1;
    }
    assert(c.take(p.len() as int) =~= p);
    assert(c.len() != p.len());
    true
}

/// Whether any of `files` lies below `path`.
pub fn has_materialized_child_path(path: &str, files: &Vec<String>) -> (r: bool)
    ensures
        r == exists|i: int| 0 <= i < files@.len() && is_below((#[trigger] files@[i])@, path@),
{
    let parent = path_components(path);
    let mut i: usize = 0;
    while i < files.len()
        invariant
            i <= files.len(),
            text::texts(parent@) == components(path@),
            forall|j: int| 0 <= j < i ==> !is_below((#[trigger] files@[j])@, path@),
        decreases files.len() - i,
    {
        let child = path_components(files[i].as_str());
        if components_below(&child, &parent) {
            assert(is_below(files@[i as int]@, path@));
            return true;
        }
        i += 1;
    }
    false
}

/// Checks that a path of a manifest stays in the directory that it is used in.
pub fn safe_manifest_relative_path(path: &str) -> (r: Result<&str, PathError>)
    ensures
        match r {
            Ok(same) => safe_path(path@) == Ok::<_, PathErrorView>(same@),
            Err(e) => safe_path(path@) == Err::<Seq<char>, _>(e@),
        },
{
    if path_is_absolute(path) {
        return Err(PathError::Absolute(path.to_owned()));
    }
    let steps = path_components(path);
    let ghost all = components(path@);
    proof {
        reveal_strlit("..");
        assert(".."@ =~= seq!['.', '.']);
    }
    let mut i: usize = 0;
    while i < steps.len()
        invariant
            i <= steps.len(),
            text::texts(steps@) == all,
            all == components(path@),
            !is_absolute(path@),
            ".."@ == seq!['.', '.'],
            forall|j: int| 0 <= j < i ==> all[j] != seq!['.', '.'],
        decreases steps.len() - i,
    {
        assert(all[i as int] == steps@[i as int]@);
        if text::same_text(steps[i].as_str(), "..") {
            assert(all.contains(seq!['.', '.']));
            return Err(PathError::Escapes(path.to_owned()));
        }
        i += 1;
    }
    assert(!all.contains(seq!['.', '.']));
    Ok(path)
}

/// Whether a component is a name.
fn check_name(component: &str) -> (r: bool)
    ensures
        r == is_name(component@),
{
    proof {
        reveal_strlit(".");
        reveal_strlit("..");
        assert("."@ =~= seq!['.']);
        assert(".."@ =~= seq!['.', '.']);
    }
    !component.is_empty() && !text::same_text(component, ".") && !text::same_text(component, "..")
        && !text::contains_char(component, '/')
}

/// The part of the file name behind its last dot.
pub fn path_extension(path: &str) -> (r: Option<String>)
    ensures
        match r {
            Some(found) => extension(path@) == Some(found@),
            None => extension(path@) is None,
        },
{
    let steps = path_components(path);
    if steps.len() == 0 {
        return None;
    }
    let name = steps[steps.len() - 1].as_str();
    assert(text::texts(steps@).last() == name@);
    if !check_name(name) {
        return None;
    }
    let len = name.unicode_len();
    match text::find_last_char(name, '.') {
        Some(dot) => if dot > 0 {
            assert(dot < len);
            Some(text::after(name, dot + 1).to_owned())
        } else {
            None
        },
        None => None,
    }
}

} // verus!
