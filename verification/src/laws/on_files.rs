//! Laws of [`crate::file_set`].
use vstd::prelude::*;

use crate::file_set;

verus! {

/// A name comes before its continuations, and before what has a later
/// character at the first place where they differ. Otherwise it does not.
pub proof fn law_precedes(a: Seq<char>, b: Seq<char>)
    ensures
        file_set::precedes(a, b) <==> exists|i: int|
            {
                &&& 0 <= i <= a.len()
                &&& i < b.len()
                &&& #[trigger] a.take(i) == b.take(i)
                &&& i == a.len() || a[i] < b[i]
            },
    decreases b.len(),
{
    if a.len() > 0 && b.len() > 0 && a[0] == b[0] {
        let x = a.drop_first();
        let y = b.drop_first();
        law_precedes(x, y);
        if file_set::precedes(a, b) {
            let i = choose|i: int|
                {
                    &&& 0 <= i <= x.len()
                    &&& i < y.len()
                    &&& #[trigger] x.take(i) == y.take(i)
                    &&& i == x.len() || x[i] < y[i]
                };
            assert(a.take(i + 1) =~= seq![a[0]] + x.take(i));
            assert(b.take(i + 1) =~= seq![b[0]] + y.take(i));
            assert(a.take(i + 1) == b.take(i + 1));
        }
        if exists|i: int|
            {
                &&& 0 <= i <= a.len()
                &&& i < b.len()
                &&& #[trigger] a.take(i) == b.take(i)
                &&& i == a.len() || a[i] < b[i]
            } {
            let i = choose|i: int|
                {
                    &&& 0 <= i <= a.len()
                    &&& i < b.len()
                    &&& #[trigger] a.take(i) == b.take(i)
                    &&& i == a.len() || a[i] < b[i]
                };
            assert(i > 0);
            assert(x.take(i - 1) =~= a.take(i).drop_first());
            assert(y.take(i - 1) =~= b.take(i).drop_first());
            assert(x.take(i - 1) == y.take(i - 1));
        }
    } else {
        if file_set::precedes(a, b) {
            assert(a.take(0) =~= b.take(0));
        }
        if exists|i: int|
            {
                &&& 0 <= i <= a.len()
                &&& i < b.len()
                &&& #[trigger] a.take(i) == b.take(i)
                &&& i == a.len() || a[i] < b[i]
            } {
            let i = choose|i: int|
                {
                    &&& 0 <= i <= a.len()
                    &&& i < b.len()
                    &&& #[trigger] a.take(i) == b.take(i)
                    &&& i == a.len() || a[i] < b[i]
                };
            if i > 0 {
                assert(a.take(i)[0] == b.take(i)[0]);
            }
        }
    }
}

/// Names are in order exactly if each comes before all that follow it.
pub proof fn law_ordered(names: Seq<Seq<char>>)
    ensures
        file_set::is_ordered(names) <==> forall|i: int, j: int|
            0 <= i < j < names.len() ==> file_set::precedes(#[trigger] names[i], #[trigger] names[j]),
{
}

/// A list holds the names of its files and no others.
pub proof fn law_held(files: Seq<String>, name: Seq<char>)
    ensures
        file_set::held(files).contains(name) <==> exists|i: int|
            0 <= i < files.len() && (#[trigger] files[i])@ == name,
{
    let names = crate::text::texts(files);
    if names.contains(name) {
        let i = choose|i: int| 0 <= i < names.len() && names[i] == name;
        assert(files[i]@ == name);
    }
    if exists|i: int| 0 <= i < files.len() && (#[trigger] files[i])@ == name {
        let i = choose|i: int| 0 <= i < files.len() && (#[trigger] files[i])@ == name;
        assert(names[i] == name);
    }
}

} // verus!
