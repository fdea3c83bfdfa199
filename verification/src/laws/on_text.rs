//! Laws of [`crate::text`].
use vstd::prelude::*;

use crate::text;

verus! {

/// The first position has the item on it, or is the end, and no item stands
/// before it.
pub proof fn law_first_index<T>(before: Seq<T>, item: T, after: Seq<T>)
    requires
        forall|i: int| 0 <= i < before.len() ==> before[i] != item,
    ensures
        text::first_index(before + seq![item] + after, item) == before.len(),
        text::first_index(before, item) == before.len(),
{
    let s = before + seq![item] + after;
    assert(s[before.len() as int] == item);
    text::lemma_first_index(s, item, before.len() as int);
    text::lemma_first_index(before, item, before.len() as int);
}

/// The last position has the item on it, or is -1, and no item stands behind
/// it.
pub proof fn law_last_index<T>(before: Seq<T>, item: T, after: Seq<T>)
    requires
        forall|i: int| 0 <= i < after.len() ==> after[i] != item,
    ensures
        text::last_index(before + seq![item] + after, item) == before.len(),
        text::last_index(after, item) == -1,
{
    let s = before + seq![item] + after;
    assert(s[before.len() as int] == item);
    assert forall|j: int| before.len() < j < s.len() implies s[j] != item by {
        assert(s[j] == after[j - before.len() - 1]);
    }
    text::lemma_last_index(s, item, before.len() as int);
    text::lemma_last_index(after, item, -1);
}

/// A text begins with what stands in front of anything, and with nothing that
/// differs from it somewhere.
pub proof fn law_prefix<T>(s: Seq<T>, prefix: Seq<T>, rest: Seq<T>)
    ensures
        text::has_prefix(prefix + rest, prefix),
        text::has_prefix(s, prefix) <==> prefix.len() <= s.len() && forall|i: int|
            0 <= i < prefix.len() ==> #[trigger] s[i] == prefix[i],
{
    assert((prefix + rest).take(prefix.len() as int) =~= prefix);
    if prefix.len() <= s.len() {
        if text::has_prefix(s, prefix) {
            assert forall|i: int| 0 <= i < prefix.len() implies #[trigger] s[i] == prefix[i] by {
                assert(s.take(prefix.len() as int)[i] == s[i]);
            }
        }
        if forall|i: int| 0 <= i < prefix.len() ==> #[trigger] s[i] == prefix[i] {
            assert(s.take(prefix.len() as int) =~= prefix);
        }
    }
}

/// A text ends with what stands behind anything, and with nothing that differs
/// from it somewhere.
pub proof fn law_suffix(s: Seq<char>, front: Seq<char>, suffix: Seq<char>)
    ensures
        text::has_suffix(front + suffix, suffix),
        text::has_suffix(s, suffix) <==> suffix.len() <= s.len() && forall|i: int|
            0 <= i < suffix.len() ==> s[s.len() - suffix.len() + i] == #[trigger] suffix[i],
{
    let whole = front + suffix;
    assert(whole.skip(whole.len() - suffix.len()) =~= suffix);
    if suffix.len() <= s.len() {
        let tail = s.skip(s.len() - suffix.len());
        if text::has_suffix(s, suffix) {
            assert forall|i: int| 0 <= i < suffix.len() implies s[s.len() - suffix.len() + i]
                == #[trigger] suffix[i] by {
                assert(tail[i] == suffix[i]);
            }
        }
        if forall|i: int|
            0 <= i < suffix.len() ==> s[s.len() - suffix.len() + i] == #[trigger] suffix[i] {
            assert(tail =~= suffix);
        }
    }
}

/// A text falls apart at each separator, and a text without one stays whole.
pub proof fn law_split(piece: Seq<char>, separator: char, rest: Seq<char>)
    requires
        forall|i: int| 0 <= i < piece.len() ==> piece[i] != separator,
    ensures
        text::split(piece + seq![separator] + rest, separator) == seq![piece] + text::split(
            rest,
            separator,
        ),
        text::split(piece, separator) == seq![piece],
{
    law_first_index(piece, separator, rest);
    let s = piece + seq![separator] + rest;
    assert(s.take(piece.len() as int) =~= piece);
    assert(s.skip(piece.len() as int + 1) =~= rest);
}

/// Trimming at the start takes each leading `c`, and nothing else.
pub proof fn law_trim_start(s: Seq<char>, c: char)
    ensures
        text::trim_start(seq![c] + s, c) == text::trim_start(s, c),
        s.len() == 0 || s[0] != c ==> text::trim_start(s, c) == s,
{
    assert((seq![c] + s).drop_first() =~= s);
}

/// Trimming at the end takes each `c` at the end, and nothing else.
pub proof fn law_trim_end(s: Seq<char>, c: char)
    ensures
        text::trim_end(s.push(c), c) == text::trim_end(s, c),
        s.len() == 0 || s[s.len() - 1] != c ==> text::trim_end(s, c) == s,
{
    assert(s.push(c).drop_last() =~= s);
}

/// Trimming a text takes each copy of it at the end, and nothing else.
pub proof fn law_trim_end_text(s: Seq<char>, suffix: Seq<char>)
    requires
        suffix.len() > 0,
    ensures
        text::trim_end_text(s + suffix, suffix) == text::trim_end_text(s, suffix),
        (forall|front: Seq<char>| s != #[trigger] (front + suffix)) ==> text::trim_end_text(
            s,
            suffix,
        ) == s,
{
    let whole = s + suffix;
    assert(whole.skip(whole.len() - suffix.len()) =~= suffix);
    assert(whole.take(whole.len() - suffix.len()) =~= s);
    if text::has_suffix(s, suffix) {
        let front = s.take(s.len() - suffix.len());
        assert(s =~= front + suffix);
    }
}

/// The white space of Unicode.
pub proof fn law_is_space(c: char)
    ensures
        text::is_space(c) <==> {
            let n = c as u32;
            ||| 9 <= n <= 13
            ||| n == 32
            ||| n == 133
            ||| n == 160
            ||| n == 5760
            ||| 8192 <= n <= 8202
            ||| n == 8232
            ||| n == 8233
            ||| n == 8239
            ||| n == 8287
            ||| n == 12288
        },
{
}

/// White space in front changes no word. A run without white space, up to
/// white space or the end, is a word as it stands.
pub proof fn law_words(word: Seq<char>, space: char, rest: Seq<char>)
    requires
        text::is_space(space),
        forall|i: int| 0 <= i < word.len() ==> !text::is_space(#[trigger] word[i]),
    ensures
        text::words(seq![space] + rest) == text::words(rest),
        word.len() > 0 ==> text::words(word + seq![space] + rest) == seq![word] + text::words(rest),
        word.len() > 0 ==> text::words(word) == seq![word],
        text::words(seq![]) == Seq::<Seq<char>>::empty(),
{
    assert((seq![space] + rest).drop_first() =~= rest);
    if word.len() > 0 {
        let s = word + seq![space] + rest;
        assert forall|j: int| 0 <= j < word.len() implies !text::is_space(s[j]) by {
            assert(s[j] == word[j]);
        }
        assert(s[word.len() as int] == space);
        text::lemma_word_len(s, word.len() as int);
        assert(s.take(word.len() as int) =~= word);
        assert(s.skip(word.len() as int) =~= seq![space] + rest);
        assert(!text::is_space(s[0])) by {
            assert(s[0] == word[0]);
        }
        assert(text::words(s) == seq![word] + text::words(seq![space] + rest));
        text::lemma_word_len(word, word.len() as int);
        assert(word.take(word.len() as int) =~= word);
        assert(word.skip(word.len() as int) =~= Seq::<char>::empty());
        assert(!text::is_space(word[0]));
        assert(text::words(Seq::<char>::empty()) =~= Seq::<Seq<char>>::empty());
        assert(text::words(word) =~= seq![word]);
    }
}

/// Replacing changes each `from` to `to`, and no other character.
pub proof fn law_replaced(s: Seq<char>, from: char, to: char, i: int)
    requires
        0 <= i < s.len(),
    ensures
        text::replaced(s, from, to).len() == s.len(),
        s[i] == from ==> text::replaced(s, from, to)[i] == to,
        s[i] != from ==> text::replaced(s, from, to)[i] == s[i],
{
}

/// A list of strings holds their texts, in their order.
pub proof fn law_texts(list: Seq<String>)
    ensures
        text::texts(list).len() == list.len(),
        forall|i: int| 0 <= i < list.len() ==> #[trigger] text::texts(list)[i] == list[i]@,
{
}

} // verus!
