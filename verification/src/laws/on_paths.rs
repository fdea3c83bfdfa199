//! Laws of [`crate::path`].
use vstd::prelude::*;

use crate::laws::on_text;
use crate::path;
use crate::path::PathErrorView;
use crate::text;

verus! {

/// A path is absolute exactly if it begins with a slash.
pub proof fn law_absolute(path: Seq<char>)
    ensures
        path::is_absolute(path) <==> path.len() > 0 && path[0] == '/',
{
}

/// A text without slashes is one component, unless it is empty. Behind a slash
/// it is one component more, unless it is empty or a dot. A path that begins
/// with the slash has the root as its first component.
pub proof fn law_components(front: Seq<char>, piece: Seq<char>)
    requires
        forall|i: int| 0 <= i < piece.len() ==> piece[i] != '/',
    ensures
        path::components(piece) == if piece.len() == 0 {
            seq![]
        } else {
            seq![piece]
        },
        path::components("/"@ + piece) == if piece.len() == 0 || piece == "."@ {
            seq!["/"@]
        } else {
            seq!["/"@, piece]
        },
        front.len() > 0 ==> path::components(front + "/"@ + piece) == if piece.len() == 0 || piece
            == "."@ {
            path::components(front)
        } else {
            path::components(front).push(piece)
        },
{
    reveal_strlit("/");
    reveal_strlit(".");
    let empty = Seq::<char>::empty();
    assert("/"@ =~= seq!['/'] && "."@ =~= seq!['.']);
    reveal_with_fuel(path::steps_of, 3);
    on_text::law_split(piece, '/', empty);
    assert(seq![piece].drop_last() =~= Seq::<Seq<char>>::empty());
    assert(path::steps_of(seq![piece]) =~= if path::is_step(piece) {
        seq![piece]
    } else {
        seq![]
    });
    assert(path::components(piece) =~= if piece.len() == 0 {
        seq![]
    } else {
        seq![piece]
    });
    on_text::law_split(empty, '/', piece);
    assert(empty + seq!['/'] + piece =~= "/"@ + piece);
    let rooted = text::split("/"@ + piece, '/');
    assert(rooted =~= seq![empty, piece]);
    assert(rooted.drop_last() =~= seq![empty]);
    assert(path::steps_of(seq![empty]) =~= seq![]) by {
        assert(seq![empty].drop_last() =~= Seq::<Seq<char>>::empty());
    }
    assert(path::components("/"@ + piece) =~= if piece.len() == 0 || piece == "."@ {
        seq!["/"@]
    } else {
        seq!["/"@, piece]
    });
    if front.len() > 0 {
        let whole = front + "/"@ + piece;
        lemma_split_at_end(front, '/', piece);
        assert(whole =~= front + seq!['/'] + piece);
        let pieces = text::split(front, '/');
        assert(text::split(whole, '/') == pieces.push(piece));
        assert(pieces.push(piece).drop_last() =~= pieces);
        assert(pieces.len() > 0) by {
            text::lemma_first_index_of(front, '/');
        }
        assert(pieces.push(piece)[0] == pieces[0]);
        assert(whole[0] == front[0]);
        assert(path::components(whole) =~= if piece.len() == 0 || piece == "."@ {
            path::components(front)
        } else {
            path::components(front).push(piece)
        });
    }
}

/// A piece behind a separator at the end is one piece more.
proof fn lemma_split_at_end(front: Seq<char>, separator: char, piece: Seq<char>)
    requires
        forall|i: int| 0 <= i < piece.len() ==> piece[i] != separator,
    ensures
        text::split(front + seq![separator] + piece, separator) == text::split(
            front,
            separator,
        ).push(piece),
    decreases front.len(),
{
    text::lemma_first_index_of(front, separator);
    let i = text::first_index(front, separator);
    on_text::law_split(piece, separator, Seq::empty());
    if i < front.len() {
        let head = front.take(i);
        let tail = front.skip(i + 1);
        lemma_split_at_end(tail, separator, piece);
        on_text::law_split(head, separator, tail + seq![separator] + piece);
        assert(front + seq![separator] + piece =~= head + seq![separator] + (tail
            + seq![separator] + piece));
        assert(seq![head] + text::split(tail, separator).push(piece) =~= (seq![head] + text::split(
            tail,
            separator,
        )).push(piece));
    } else {
        on_text::law_split(front, separator, piece);
        assert(seq![front] + seq![piece] =~= seq![front].push(piece));
    }
}

/// A path lies below another exactly if it has the other's components and more
/// behind them.
pub proof fn law_below(child: Seq<char>, parent: Seq<char>)
    ensures
        path::is_below(child, parent) <==> exists|more: Seq<Seq<char>>|
            more.len() > 0 && path::components(child) == #[trigger] (path::components(parent)
                + more),
{
    let c = path::components(child);
    let p = path::components(parent);
    if path::is_below(child, parent) {
        let more = c.skip(p.len() as int);
        assert(c =~= p + more);
        if more.len() == 0 {
            assert(c =~= p);
        }
    }
    if exists|more: Seq<Seq<char>>| more.len() > 0 && c == #[trigger] (p + more) {
        let more = choose|more: Seq<Seq<char>>| more.len() > 0 && c == #[trigger] (p + more);
        assert(c.take(p.len() as int) =~= p);
        assert(c.len() > p.len());
    }
}

/// A component is a name unless it is empty, a dot, two dots or has a slash.
pub proof fn law_name(component: Seq<char>)
    ensures
        path::is_name(component) <==> {
            &&& component != ""@
            &&& component != "."@
            &&& component != ".."@
            &&& forall|i: int| 0 <= i < component.len() ==> component[i] != '/'
        },
{
    reveal_strlit("");
    reveal_strlit(".");
    reveal_strlit("..");
    assert(""@ =~= seq![] && "."@ =~= seq!['.'] && ".."@ =~= seq!['.', '.']);
    if component.len() == 0 {
        assert(component =~= ""@);
    }
    if component.contains('/') {
        let i = choose|i: int| 0 <= i < component.len() && component[i] == '/';
        assert(component[i] == '/');
    }
}

/// The extension is what stands behind the last dot of the last component, if
/// anything stands before that dot.
pub proof fn law_extension(path: Seq<char>, stem: Seq<char>, found: Seq<char>)
    requires
        path::components(path).len() > 0,
        path::components(path).last() == stem + "."@ + found,
        stem + "."@ + found != ".."@,
        stem.len() > 0,
        forall|i: int| 0 <= i < stem.len() ==> stem[i] != '/',
        forall|i: int| 0 <= i < found.len() ==> found[i] != '/' && found[i] != '.',
    ensures
        path::extension(path) == Some(found),
{
    reveal_strlit(".");
    reveal_strlit("..");
    assert("."@ =~= seq!['.'] && ".."@ =~= seq!['.', '.']);
    let name = stem + "."@ + found;
    assert forall|i: int| 0 <= i < name.len() implies name[i] != '/' by {
        if i < stem.len() {
            assert(name[i] == stem[i]);
        } else if i > stem.len() {
            assert(name[i] == found[i - stem.len() - 1]);
        }
    }
    law_name(name);
    assert(name.len() >= 2);
    assert(name != ""@ && name != "."@) by {
        reveal_strlit("");
    }
    on_text::law_last_index(stem, '.', found);
    assert(stem + seq!['.'] + found =~= name);
    assert(name.skip(stem.len() as int + 1) =~= found);
}

/// There is no extension without a last component that is a name, nor without
/// a dot behind the first character of that name.
pub proof fn law_no_extension(path: Seq<char>)
    requires
        path::components(path).len() == 0 || {
            let name = path::components(path).last();
            ||| name == "."@
            ||| name == ".."@
            ||| name == "/"@
            ||| forall|i: int| 0 < i < name.len() ==> name[i] != '.'
        },
    ensures
        path::extension(path) is None,
{
    reveal_strlit(".");
    reveal_strlit("..");
    reveal_strlit("/");
    if path::components(path).len() > 0 {
        let name = path::components(path).last();
        law_name(name);
        if name == "/"@ {
            assert(name[0] == '/');
        }
        if path::is_name(name) {
            if name.len() > 0 && name[0] == '.' {
                text::lemma_last_index(name, '.', 0);
            } else {
                text::lemma_last_index(name, '.', -1);
            }
        }
    }
}

/// A path is refused if it begins at the root, and else if one of its
/// components is two dots. Any other is accepted as it is.
pub proof fn law_safe_path(path: Seq<char>)
    ensures
        path.len() > 0 && path[0] == '/' ==> path::safe_path(path) == Err::<Seq<char>, _>(
            PathErrorView::Absolute(path),
        ),
        !(path.len() > 0 && path[0] == '/') && path::components(path).contains(".."@)
            ==> path::safe_path(path) == Err::<Seq<char>, _>(PathErrorView::Escapes(path)),
        !(path.len() > 0 && path[0] == '/') && !path::components(path).contains(".."@)
            ==> path::safe_path(path) == Ok::<_, PathErrorView>(path),
{
    reveal_strlit("..");
    assert(".."@ =~= seq!['.', '.']);
}

} // verus!
