//! Ordered sets of file names.
use vstd::prelude::*;

use crate::text;

verus! {

/// Whether `a` comes before `b` in the order of their characters.
pub open spec fn precedes(a: Seq<char>, b: Seq<char>) -> bool
    decreases b.len(),
{
    b.len() > 0 && (a.len() == 0 || a[0] < b[0] || (a[0] == b[0] && precedes(
        a.drop_first(),
        b.drop_first(),
    )))
}

/// Whether a list of names is in order and has no name twice.
pub open spec fn is_ordered(names: Seq<Seq<char>>) -> bool {
    forall|i: int, j: int|
        0 <= i < j < names.len() ==> precedes(#[trigger] names[i], #[trigger] names[j])
}

/// The names that a list of files holds.
pub open spec fn held(files: Seq<String>) -> Set<Seq<char>> {
    Set::new(|name: Seq<char>| text::texts(files).contains(name))
}

proof fn lemma_precedes_transitive(a: Seq<char>, b: Seq<char>, c: Seq<char>)
    requires
        precedes(a, b),
        precedes(b, c),
    ensures
        precedes(a, c),
    decreases c.len(),
{
    if a.len() > 0 && a[0] == b[0] && b[0] == c[0] {
        lemma_precedes_transitive(a.drop_first(), b.drop_first(), c.drop_first());
    }
}

proof fn lemma_precedes_total(a: Seq<char>, b: Seq<char>)
    ensures
        a == b || precedes(a, b) || precedes(b, a),
    decreases b.len(),
{
    if a.len() > 0 && b.len() > 0 && a[0] == b[0] {
        lemma_precedes_total(a.drop_first(), b.drop_first());
        if a.drop_first() == b.drop_first() {
            assert(a =~= seq![a[0]] + a.drop_first());
            assert(b =~= seq![b[0]] + b.drop_first());
        }
    } else if a.len() == 0 && b.len() == 0 {
        assert(a =~= b);
    }
}

/// Whether `a` comes before `b`.
fn check_precedes(a: &str, b: &str) -> (r: bool)
    ensures
        r == precedes(a@, b@),
{
    let x = text::chars_of(a);
    let y = text::chars_of(b);
    let mut i: usize = 0;
    assert(x@.skip(0) =~= x@);
    assert(y@.skip(0) =~= y@);
    while i < x.len() && i < y.len()
        invariant
            i <= x.len(),
            i <= y.len(),
            x@ == a@,
            y@ == b@,
            precedes(a@, b@) == precedes(x@.skip(i as int), y@.skip(i as int)),
        decreases x.len() - i,
    {
        let ghost s = x@.skip(i as int);
        let ghost t = y@.skip(i as int);
        assert(s[0] == x@[i as int] && t[0] == y@[i as int]);
        if x[i] < y[i] {
            return true;
        }
        if x[i] != y[i] {
            return false;
        }
        assert(s.drop_first() =~= x@.skip(i + 1));
        assert(t.drop_first() =~= y@.skip(i + 1));
        i += 1;
    }
    i < y.len()
}

/// Adds a file to an ordered list, unless the list holds it.
pub fn insert_file(files: &mut Vec<String>, name: String)
    requires
        is_ordered(text::texts(old(files)@)),
    ensures
        is_ordered(text::texts(final(files)@)),
        held(final(files)@) == held(old(files)@).insert(name@),
{
    let ghost before = text::texts(files@);
    let mut i: usize = 0;
    while i < files.len() && check_precedes(files[i].as_str(), name.as_str())
        invariant
            i <= files.len(),
            before == text::texts(files@),
            files@ == old(files)@,
            forall|j: int| 0 <= j < i ==> precedes(#[trigger] before[j], name@),
        decreases files.len() - i,
    {
        assert(before[i as int] == files@[i as int]@);
        i += 1;
    }
    if i < files.len() && text::same_text(files[i].as_str(), name.as_str()) {
        assert(before[i as int] == files@[i as int]@);
        assert(held(files@) =~= held(files@).insert(name@));
        return;
    }
    proof {
        if i < files.len() {
            assert(before[i as int] == files@[i as int]@);
            lemma_precedes_total(before[i as int], name@);
        }
    }
    files.insert(i, name);
    proof {
        let after = text::texts(files@);
        assert(after =~= before.insert(i as int, name@));
        assert forall|a: int, b: int| 0 <= a < b < after.len() implies precedes(
            #[trigger] after[a],
            #[trigger] after[b],
        ) by {
            if a == i {
                assert(after[b] == before[b - 1]);
                if b - 1 > i {
                    lemma_precedes_transitive(name@, before[i as int], before[b - 1]);
                }
            } else if b == i {
                assert(after[a] == before[a]);
            } else {
                let p = if a < i { a } else { a - 1 };
                let q = if b < i { b } else { b - 1 };
                assert(after[a] == before[p] && after[b] == before[q]);
            }
        }
        assert forall|n: Seq<char>| held(files@).contains(n) == held(old(files)@).insert(
            name@,
        ).contains(n) by {
            if before.contains(n) {
                let k = choose|k: int| 0 <= k < before.len() && before[k] == n;
                assert(after[if k < i { k } else { k + 1 }] == n);
            }
            assert(after[i as int] == name@);
            if after.contains(n) && n != name@ {
                let k = choose|k: int| 0 <= k < after.len() && after[k] == n;
                assert(before[if k < i { k } else { k - 1 }] == n);
            }
        }
        assert(held(files@) =~= held(old(files)@).insert(name@));
    }
}

/// Two lists in order that hold the same names are equal.
pub proof fn lemma_one_order(one: Seq<Seq<char>>, other: Seq<Seq<char>>)
    requires
        is_ordered(one),
        is_ordered(other),
        forall|name: Seq<char>| #[trigger] one.contains(name) <==> other.contains(name),
    ensures
        one == other,
    decreases one.len(),
{
    if one.len() == 0 {
        if other.len() > 0 {
            assert(other.contains(other[0]));
            assert(one.contains(other[0]));
        }
        assert(one =~= other);
    } else {
        assert(one.contains(one.last()));
        assert(other.contains(one.last()));
        assert(other.contains(other.last()));
        assert(one.contains(other.last()));
        lemma_last_is_greatest(one, other.last());
        lemma_last_is_greatest(other, one.last());
        if one.last() != other.last() {
            lemma_precedes_transitive(one.last(), other.last(), one.last());
            lemma_precedes_irreflexive(one.last());
        }
        let a = one.drop_last();
        let b = other.drop_last();
        assert forall|name: Seq<char>| #[trigger] a.contains(name) <==> b.contains(name) by {
            lemma_front(one, name);
            lemma_front(other, name);
            assert(one.contains(name) <==> other.contains(name));
        }
        lemma_one_order(a, b);
        assert(one =~= a.push(one.last()));
        assert(other =~= b.push(other.last()));
    }
}

/// No name in a list in order comes after its last.
proof fn lemma_last_is_greatest(names: Seq<Seq<char>>, name: Seq<char>)
    requires
        is_ordered(names),
        names.contains(name),
    ensures
        name == names.last() || precedes(name, names.last()),
{
    let i = choose|i: int| 0 <= i < names.len() && names[i] == name;
    if i < names.len() - 1 {
        assert(precedes(names[i], names[names.len() - 1]));
    }
}

/// A list in order without its last name holds the others.
proof fn lemma_front(names: Seq<Seq<char>>, name: Seq<char>)
    requires
        is_ordered(names),
        names.len() > 0,
    ensures
        names.drop_last().contains(name) <==> names.contains(name) && name != names.last(),
{
    let front = names.drop_last();
    if front.contains(name) {
        let i = choose|i: int| 0 <= i < front.len() && front[i] == name;
        assert(names[i] == name);
        assert(precedes(names[i], names[names.len() - 1]));
        lemma_precedes_irreflexive(name);
    }
    if names.contains(name) && name != names.last() {
        let i = choose|i: int| 0 <= i < names.len() && names[i] == name;
        assert(front[i] == name);
    }
}

/// No name comes before itself.
proof fn lemma_precedes_irreflexive(name: Seq<char>)
    ensures
        !precedes(name, name),
    decreases name.len(),
{
    if name.len() > 0 {
        lemma_precedes_irreflexive(name.drop_first());
    }
}

} // verus!
