//! Text operations on characters: searching, splitting, trimming and comparing.
use vstd::prelude::*;

verus! {

/// `String::push` appends one character.
pub assume_specification[ String::push ](s: &mut String, c: char)
    ensures
        final(s)@ == old(s)@.push(c),
;

/// Position of the first `item` in `s`, or the length of `s` if there is none.
pub open spec fn first_index<T>(s: Seq<T>, item: T) -> int
    decreases s.len(),
{
    if s.len() == 0 || s[0] == item {
        0
    } else {
        1 + first_index(s.drop_first(), item)
    }
}

/// A position with no `item` before it, and with `item` on it or at the end,
/// is the first one.
pub proof fn lemma_first_index<T>(s: Seq<T>, item: T, i: int)
    requires
        0 <= i <= s.len(),
        forall|j: int| 0 <= j < i ==> s[j] != item,
        i < s.len() ==> s[i] == item,
    ensures
        first_index(s, item) == i,
    decreases i,
{
    if i > 0 {
        let t = s.drop_first();
        assert(s[0] != item);
        assert forall|j: int| 0 <= j < i - 1 implies t[j] != item by {
            assert(t[j] == s[j + 1]);
        }
        lemma_first_index(t, item, i - 1);
    }
}

/// No `item` stands before the first position, and one on it unless it is the
/// end.
pub proof fn lemma_first_index_of<T>(s: Seq<T>, item: T)
    ensures
        0 <= first_index(s, item) <= s.len(),
        forall|j: int| 0 <= j < first_index(s, item) ==> s[j] != item,
        first_index(s, item) < s.len() ==> s[first_index(s, item)] == item,
        first_index(s, item) < s.len() <==> s.contains(item),
    decreases s.len(),
{
    if s.len() > 0 && s[0] != item {
        let t = s.drop_first();
        lemma_first_index_of(t, item);
        assert forall|j: int| 0 <= j < first_index(s, item) implies s[j] != item by {
            if j > 0 {
                assert(s[j] == t[j - 1]);
            }
        }
    }
    if s.contains(item) {
        let k = choose|k: int| 0 <= k < s.len() && s[k] == item;
        assert(s[k] == item);
    }
}

/// The characters of `s`.
pub fn chars_of(s: &str) -> (r: Vec<char>)
    ensures
        r@ == s@,
{
    let mut r: Vec<char> = Vec::new();
    for c in it: s.chars()
        invariant
            r@ == it.seq().take(it.index() as int),
            it.seq() == s@,
    {
        r.push(c);
    }
    r
}

/// Whether two texts are equal.
pub fn same_text(a: &str, b: &str) -> (r: bool)
    ensures
        r == (a@ == b@),
{
    let x = chars_of(a);
    let y = chars_of(b);
    if x.len() != y.len() {
        return false;
    }
    let mut i: usize = 0;
    while i < x.len()
        invariant
            i <= x.len(),
            x.len() == y.len(),
            x@ == a@,
            y@ == b@,
            forall|j: int| 0 <= j < i ==> x@[j] == y@[j],
        decreases x.len() - i,
    {
        if x[i] != y[i] {
            return false;
        }
        i += 1;
    }
    assert(x@ =~= y@);
    true
}

/// Position of the last `item` in `s`, or -1 if there is none.
pub open spec fn last_index<T>(s: Seq<T>, item: T) -> int
    decreases s.len(),
{
    if s.len() == 0 {
        -1
    } else if s.last() == item {
        s.len() - 1
    } else {
        last_index(s.drop_last(), item)
    }
}

/// A position with no `item` after it, and with `item` on it or before the
/// start, is the last one.
pub proof fn lemma_last_index<T>(s: Seq<T>, item: T, i: int)
    requires
        -1 <= i < s.len(),
        forall|j: int| i < j < s.len() ==> s[j] != item,
        i >= 0 ==> s[i] == item,
    ensures
        last_index(s, item) == i,
    decreases s.len(),
{
    if s.len() > 0 && i < s.len() - 1 {
        let t = s.drop_last();
        assert(s.last() != item);
        assert forall|j: int| i < j < t.len() implies t[j] != item by {
            assert(t[j] == s[j]);
        }
        lemma_last_index(t, item, i);
    }
}

/// Whether `s` begins with `prefix`.
pub open spec fn has_prefix<T>(s: Seq<T>, prefix: Seq<T>) -> bool {
    prefix.len() <= s.len() && s.take(prefix.len() as int) == prefix
}

/// Whether `s` ends with `suffix`.
pub open spec fn has_suffix(s: Seq<char>, suffix: Seq<char>) -> bool {
    suffix.len() <= s.len() && s.skip(s.len() - suffix.len()) == suffix
}

/// The pieces of `s` between occurrences of `separator`; there is always at
/// least one piece.
pub open spec fn split(s: Seq<char>, separator: char) -> Seq<Seq<char>>
    decreases s.len(),
{
    let i = first_index(s, separator);
    if 0 <= i < s.len() {
        seq![s.take(i)] + split(s.skip(i + 1), separator)
    } else {
        seq![s]
    }
}

/// `s` without the `c`s at its start.
pub open spec fn trim_start(s: Seq<char>, c: char) -> Seq<char>
    decreases s.len(),
{
    if s.len() > 0 && s[0] == c {
        trim_start(s.drop_first(), c)
    } else {
        s
    }
}

/// `s` without the `c`s at its end.
pub open spec fn trim_end(s: Seq<char>, c: char) -> Seq<char>
    decreases s.len(),
{
    if s.len() > 0 && s.last() == c {
        trim_end(s.drop_last(), c)
    } else {
        s
    }
}

/// `s` without the copies of `suffix` at its end.
pub open spec fn trim_end_text(s: Seq<char>, suffix: Seq<char>) -> Seq<char>
    decreases s.len(),
{
    if suffix.len() > 0 && has_suffix(s, suffix) {
        trim_end_text(s.take(s.len() - suffix.len()), suffix)
    } else {
        s
    }
}

/// Unicode's White_Space property.
pub open spec fn is_space(c: char) -> bool {
    ||| '\u{9}' <= c <= '\u{d}'
    ||| c == '\u{20}'
    ||| c == '\u{85}'
    ||| c == '\u{a0}'
    ||| c == '\u{1680}'
    ||| '\u{2000}' <= c <= '\u{200a}'
    ||| c == '\u{2028}'
    ||| c == '\u{2029}'
    ||| c == '\u{202f}'
    ||| c == '\u{205f}'
    ||| c == '\u{3000}'
}

/// Number of characters of `s` before its first white space.
pub open spec fn word_len(s: Seq<char>) -> nat
    decreases s.len(),
{
    if s.len() == 0 || is_space(s[0]) {
        0
    } else {
        1 + word_len(s.drop_first())
    }
}

/// The runs of characters of `s` between its white space.
pub open spec fn words(s: Seq<char>) -> Seq<Seq<char>>
    decreases s.len(),
{
    if s.len() == 0 {
        seq![]
    } else if is_space(s[0]) {
        words(s.drop_first())
    } else if word_len(s) <= s.len() {
        seq![s.take(word_len(s) as int)] + words(s.skip(word_len(s) as int))
    } else {
        seq![s]
    }
}

/// `s` with each `from` replaced by `to`.
pub open spec fn replaced(s: Seq<char>, from: char, to: char) -> Seq<char> {
    s.map_values(|c: char| if c == from { to } else { c })
}

/// The texts that a list of strings holds.
pub open spec fn texts(list: Seq<String>) -> Seq<Seq<char>> {
    list.map_values(|s: String| s@)
}

/// A run of characters without white space, followed by white space or the
/// end, is the whole first word.
pub proof fn lemma_word_len(s: Seq<char>, n: int)
    requires
        0 <= n <= s.len(),
        forall|j: int| 0 <= j < n ==> !is_space(s[j]),
        n < s.len() ==> is_space(s[n]),
    ensures
        word_len(s) == n,
    decreases n,
{
    if n > 0 {
        let t = s.drop_first();
        assert(!is_space(s[0]));
        assert forall|j: int| 0 <= j < n - 1 implies !is_space(t[j]) by {
            assert(t[j] == s[j + 1]);
        }
        lemma_word_len(t, n - 1);
    }
}

/// Whether `c` is white space.
pub fn char_is_space(c: char) -> (r: bool)
    ensures
        r == is_space(c),
{
    ('\u{9}' <= c && c <= '\u{d}') || c == '\u{20}' || c == '\u{85}' || c == '\u{a0}' || c
        == '\u{1680}' || ('\u{2000}' <= c && c <= '\u{200a}') || c == '\u{2028}' || c == '\u{2029}'
        || c == '\u{202f}' || c == '\u{205f}' || c == '\u{3000}'
}

/// Whether `c` occurs in `s`.
pub fn contains_char(s: &str, c: char) -> (r: bool)
    ensures
        r == s@.contains(c),
{
    find_char(s, c).is_some()
}

/// The first position of `c` in `s`.
pub fn find_char(s: &str, c: char) -> (r: Option<usize>)
    ensures
        match r {
            Some(i) => i < s@.len() && i == first_index(s@, c) && s@[i as int] == c,
            None => first_index(s@, c) == s@.len(),
        },
        r is Some <==> s@.contains(c),
{
    let v = chars_of(s);
    let mut i: usize = 0;
    while i < v.len()
        invariant
            i <= v.len(),
            v@ == s@,
            forall|j: int| 0 <= j < i ==> v@[j] != c,
        decreases v.len() - i,
    {
        if v[i] == c {
            proof {
                lemma_first_index(s@, c, i as int);
            }
            return Some(i);
        }
        i += 1;
    }
    proof {
        lemma_first_index(s@, c, i as int);
    }
    None
}

/// The last position of `c` in `s`.
pub fn find_last_char(s: &str, c: char) -> (r: Option<usize>)
    ensures
        match r {
            Some(i) => i < s@.len() && i == last_index(s@, c) && s@[i as int] == c,
            None => last_index(s@, c) == -1,
        },
{
    let v = chars_of(s);
    let mut i: usize = v.len();
    while i > 0
        invariant
            i <= v.len(),
            v@ == s@,
            forall|j: int| i <= j < v@.len() ==> v@[j] != c,
        decreases i,
    {
        if v[i - 1] == c {
            proof {
                lemma_last_index(s@, c, i - 1);
            }
            return Some(i - 1);
        }
        i -= 1;
    }
    proof {
        lemma_last_index(s@, c, -1);
    }
    None
}

/// `s` after its first `n` characters.
pub fn after(s: &str, n: usize) -> (r: &str)
    requires
        n <= s@.len(),
    ensures
        r@ == s@.skip(n as int),
{
    let len = s.unicode_len();
    let r = s.substring_char(n, len);
    assert(s@.subrange(n as int, len as int) =~= s@.skip(n as int));
    r
}

/// The first `n` characters of `s`.
pub fn before(s: &str, n: usize) -> (r: &str)
    requires
        n <= s@.len(),
    ensures
        r@ == s@.take(n as int),
{
    let r = s.substring_char(0, n);
    assert(s@.subrange(0, n as int) =~= s@.take(n as int));
    r
}

/// Whether `s` begins with `prefix`.
pub fn starts_with(s: &str, prefix: &str) -> (r: bool)
    ensures
        r == has_prefix(s@, prefix@),
{
    let n = prefix.unicode_len();
    n <= s.unicode_len() && same_text(before(s, n), prefix)
}

/// `s` without `prefix`, if `s` begins with it.
pub fn strip_prefix<'a>(s: &'a str, prefix: &str) -> (r: Option<&'a str>)
    ensures
        match r {
            Some(rest) => has_prefix(s@, prefix@) && rest@ == s@.skip(prefix@.len() as int),
            None => !has_prefix(s@, prefix@),
        },
{
    if starts_with(s, prefix) {
        Some(after(s, prefix.unicode_len()))
    } else {
        None
    }
}

/// The pieces of `s` between occurrences of `separator`.
pub fn split_text(s: &str, separator: char) -> (r: Vec<String>)
    ensures
        texts(r@) == split(s@, separator),
{
    let mut pieces: Vec<String> = Vec::new();
    let mut rest: &str = s;
    assert(texts(pieces@) + split(rest@, separator) =~= split(s@, separator));
    loop
        invariant
            texts(pieces@) + split(rest@, separator) == split(s@, separator),
        decreases rest@.len(),
    {
        let ghost done = texts(pieces@);
        let len = rest.unicode_len();
        match find_char(rest, separator) {
            Some(i) => {
                let piece = before(rest, i).to_owned();
                pieces.push(piece);
                assert(texts(pieces@) =~= done.push(piece@));
                assert(i < len);
                let next = after(rest, i + 1);
                assert(done.push(piece@) + split(next@, separator) =~= done + (seq![piece@]
                    + split(next@, separator)));
                rest = next;
            },
            None => {
                let piece = rest.to_owned();
                pieces.push(piece);
                assert(texts(pieces@) =~= done + seq![piece@]);
                return pieces;
            },
        }
    }
}

/// `s` without the `c`s at its start.
pub fn trim_start_char(s: &str, c: char) -> (r: &str)
    ensures
        r@ == trim_start(s@, c),
{
    let v = chars_of(s);
    let mut i: usize = 0;
    assert(s@.skip(0) =~= s@);
    while i < v.len() && v[i] == c
        invariant
            i <= v.len(),
            v@ == s@,
            trim_start(s@.skip(i as int), c) == trim_start(s@, c),
        decreases v.len() - i,
    {
        assert(s@.skip(i as int).drop_first() =~= s@.skip(i + 1));
        i += 1;
    }
    after(s, i)
}

/// `s` without the `c`s at its end.
pub fn trim_end_char(s: &str, c: char) -> (r: &str)
    ensures
        r@ == trim_end(s@, c),
{
    let v = chars_of(s);
    let mut i: usize = v.len();
    assert(s@.take(i as int) =~= s@);
    while i > 0 && v[i - 1] == c
        invariant
            i <= v.len(),
            v@ == s@,
            trim_end(s@.take(i as int), c) == trim_end(s@, c),
        decreases i,
    {
        assert(s@.take(i as int).drop_last() =~= s@.take(i - 1));
        i -= 1;
    }
    before(s, i)
}

/// `s` without the copies of `suffix` at its end.
pub fn trim_end_copies<'a>(s: &'a str, suffix: &str) -> (r: &'a str)
    requires
        suffix@.len() > 0,
    ensures
        r@ == trim_end_text(s@, suffix@),
{
    let n = suffix.unicode_len();
    let mut rest: &'a str = s;
    loop
        invariant
            n == suffix@.len(),
            n > 0,
            trim_end_text(rest@, suffix@) == trim_end_text(s@, suffix@),
        decreases rest@.len(),
    {
        let len = rest.unicode_len();
        if len < n || !same_text(after(rest, len - n), suffix) {
            return rest;
        }
        rest = before(rest, len - n);
    }
}

/// The words of `s`.
pub fn split_words(s: &str) -> (r: Vec<String>)
    ensures
        texts(r@) == words(s@),
{
    let v = chars_of(s);
    let mut found: Vec<String> = Vec::new();
    let mut i: usize = 0;
    assert(s@.skip(0) =~= s@);
    assert(texts(found@) + words(s@) =~= words(s@));
    while i < v.len()
        invariant
            i <= v.len(),
            v@ == s@,
            texts(found@) + words(s@.skip(i as int)) == words(s@),
        decreases v.len() - i,
    {
        if char_is_space(v[i]) {
            assert(s@.skip(i as int).drop_first() =~= s@.skip(i + 1));
            i += 1;
        } else {
            let mut end: usize = i;
            while end < v.len() && !char_is_space(v[end])
                invariant
                    i <= end <= v.len(),
                    forall|j: int| i <= j < end ==> !is_space(v@[j]),
                decreases v.len() - end,
            {
                end += 1;
            }
            let ghost rest = s@.skip(i as int);
            let ghost done = texts(found@);
            proof {
                assert forall|j: int| 0 <= j < end - i implies !is_space(rest[j]) by {
                    assert(rest[j] == v@[i + j]);
                }
                lemma_word_len(rest, end - i);
                assert(!is_space(rest[0]));
            }
            let word = s.substring_char(i, end).to_owned();
            assert(word@ =~= rest.take(end - i));
            assert(rest.skip(end - i) =~= s@.skip(end as int));
            found.push(word);
            assert(texts(found@) =~= done.push(word@));
            assert(done.push(word@) + words(s@.skip(end as int)) =~= done + (seq![word@] + words(
                s@.skip(end as int),
            )));
            i = end;
        }
    }
    assert(s@.skip(i as int) =~= Seq::<char>::empty());
    assert(texts(found@) + words(s@.skip(i as int)) =~= texts(found@));
    found
}

/// `s` with each `from` replaced by `to`.
pub fn replace_char(s: &str, from: char, to: char) -> (r: String)
    ensures
        r@ == replaced(s@, from, to),
{
    let v = chars_of(s);
    let mut out = String::new();
    let mut i: usize = 0;
    while i < v.len()
        invariant
            i <= v.len(),
            v@ == s@,
            out@ == replaced(s@.take(i as int), from, to),
        decreases v.len() - i,
    {
        if v[i] == from {
            out.push(to);
        } else {
            out.push(v[i]);
        }
        assert(out@ =~= replaced(s@.take(i + 1), from, to));
        i += 1;
    }
    assert(s@.take(i as int) =~= s@);
    out
}

} // verus!
