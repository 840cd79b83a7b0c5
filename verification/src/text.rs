//! The words of a line of text.

use vstd::prelude::*;

verus! {

/// `c` is white space: a character with Unicode's `White_Space` property.
pub open spec fn is_space(c: char) -> bool {
    ||| '\u{0009}' <= c && c <= '\u{000D}'
    ||| c == '\u{0020}'
    ||| c == '\u{0085}'
    ||| c == '\u{00A0}'
    ||| c == '\u{1680}'
    ||| '\u{2000}' <= c && c <= '\u{200A}'
    ||| c == '\u{2028}'
    ||| c == '\u{2029}'
    ||| c == '\u{202F}'
    ||| c == '\u{205F}'
    ||| c == '\u{3000}'
}

/// The index of the first character of `s` at or after `from` that is not
/// white space, or the length of `s` where there is none.
pub open spec fn skip_spaces(s: Seq<char>, from: int) -> int
    decreases s.len() - from,
{
    if 0 <= from < s.len() && is_space(s[from]) {
        skip_spaces(s, from + 1)
    } else {
        from
    }
}

/// The index of the first character of `s` at or after `from` that is white
/// space, or the length of `s` where there is none.
pub open spec fn skip_word(s: Seq<char>, from: int) -> int
    decreases s.len() - from,
{
    if 0 <= from < s.len() && !is_space(s[from]) {
        skip_word(s, from + 1)
    } else {
        from
    }
}

/// The words of `s` that begin at or after `from`, in order. A word is a run
/// of characters other than white space that no such character adjoins.
pub open spec fn words_from(s: Seq<char>, from: int) -> Seq<Seq<char>>
    decreases s.len() - from,
{
    let start = skip_spaces(s, from);
    let end = skip_word(s, start);
    if from <= start < end <= s.len() {
        seq![s.subrange(start, end)] + words_from(s, end)
    } else {
        Seq::empty()
    }
}

/// The words of `s`, in order.
pub open spec fn words(s: Seq<char>) -> Seq<Seq<char>> {
    words_from(s, 0)
}

/// Skipping white space stops within the text, on a character that is none.
pub proof fn lemma_skip_spaces(s: Seq<char>, from: int)
    requires
        0 <= from <= s.len(),
    ensures
        from <= skip_spaces(s, from) <= s.len(),
        skip_spaces(s, from) < s.len() ==> !is_space(s[skip_spaces(s, from)]),
        forall|k: int| from <= k < skip_spaces(s, from) ==> is_space(s[k]),
    decreases s.len() - from,
{
    if from < s.len() && is_space(s[from]) {
        lemma_skip_spaces(s, from + 1);
    }
}

/// Skipping a word stops within the text, on white space.
pub proof fn lemma_skip_word(s: Seq<char>, from: int)
    requires
        0 <= from <= s.len(),
    ensures
        from <= skip_word(s, from) <= s.len(),
        skip_word(s, from) < s.len() ==> is_space(s[skip_word(s, from)]),
        forall|k: int| from <= k < skip_word(s, from) ==> !is_space(s[k]),
        from < s.len() && !is_space(s[from]) ==> from < skip_word(s, from),
    decreases s.len() - from,
{
    if from < s.len() && !is_space(s[from]) {
        lemma_skip_word(s, from + 1);
    }
}

/// Every word holds a character, and none that is white space.
pub proof fn lemma_words_hold_no_space(s: Seq<char>, from: int, n: int)
    requires
        0 <= from <= s.len(),
        0 <= n < words_from(s, from).len(),
    ensures
        words_from(s, from)[n].len() > 0,
        forall|k: int|
            0 <= k < words_from(s, from)[n].len() ==> !is_space(words_from(s, from)[n][k]),
    decreases s.len() - from,
{
    let start = skip_spaces(s, from);
    let end = skip_word(s, start);
    lemma_skip_spaces(s, from);
    lemma_skip_word(s, start);
    if n > 0 {
        lemma_words_hold_no_space(s, end, n - 1);
    }
}

/// The words from `from` on are the first word after `from`, if there is one,
/// and then the words from its end on.
pub proof fn lemma_words_unfold(s: Seq<char>, from: int)
    requires
        0 <= from <= s.len(),
    ensures
        skip_spaces(s, from) == s.len() ==> words_from(s, from).len() == 0,
        skip_spaces(s, from) < s.len() ==> words_from(s, from) == seq![
            s.subrange(skip_spaces(s, from), skip_word(s, skip_spaces(s, from))),
        ] + words_from(s, skip_word(s, skip_spaces(s, from))),
{
    lemma_skip_spaces(s, from);
    lemma_skip_word(s, skip_spaces(s, from));
}

/// `c` is white space.
pub fn is_white_space(c: char) -> (space: bool)
    ensures
        space == is_space(c),
{
    ('\u{0009}' <= c && c <= '\u{000D}') || c == '\u{0020}' || c == '\u{0085}' || c == '\u{00A0}'
        || c == '\u{1680}' || ('\u{2000}' <= c && c <= '\u{200A}') || c == '\u{2028}' || c
        == '\u{2029}' || c == '\u{202F}' || c == '\u{205F}' || c == '\u{3000}'
}

/// The characters of `s`.
pub fn chars_of(s: &str) -> (chars: Vec<char>)
    ensures
        chars@ == s@,
{
    let mut chars: Vec<char> = Vec::new();
    for c in it: s.chars()
        invariant
            chars@ == it.seq().take(it.index()),
            it.seq() == s@,
    {
        chars.push(c);
    }
    chars
}

/// The bounds of the first word of `s` at or after `from`: where it starts and
/// where it ends. Both are the length of `s` where no word is left.
pub fn next_word(s: &Vec<char>, from: usize) -> (bounds: (usize, usize))
    requires
        from <= s.len(),
    ensures
        bounds.0 == skip_spaces(s@, from as int),
        bounds.1 == skip_word(s@, bounds.0 as int),
        from <= bounds.0 <= bounds.1 <= s.len(),
        bounds.0 < s.len() <==> bounds.0 < bounds.1,
{
    let mut start: usize = from;
    while start < s.len() && is_white_space(s[start])
        invariant
            from <= start <= s.len(),
            skip_spaces(s@, from as int) == skip_spaces(s@, start as int),
        decreases s.len() - start,
    {
        start = start + 1;
    }
    let mut end: usize = start;
    while end < s.len() && !is_white_space(s[end])
        invariant
            start <= end <= s.len(),
            skip_word(s@, start as int) == skip_word(s@, end as int),
            start < end || (start < s.len() ==> !is_space(s@[start as int])),
        decreases s.len() - end,
    {
        end = end + 1;
    }
    (start, end)
}

/// Whether `s[from..to]` spells `word`.
pub fn word_is(s: &Vec<char>, from: usize, to: usize, word: &str) -> (same: bool)
    requires
        from <= to <= s.len(),
    ensures
        same == (s@.subrange(from as int, to as int) == word@),
{
    let expected = chars_of(word);
    if expected.len() != to - from {
        return false;
    }
    let mut i: usize = 0;
    while i < expected.len()
        invariant
            from <= to <= s.len(),
            expected.len() == to - from,
            expected@ == word@,
            i <= expected.len(),
            forall|k: int| 0 <= k < i ==> s@[from + k] == expected@[k],
        decreases expected.len() - i,
    {
        if s[from + i] != expected[i] {
            assert(s@.subrange(from as int, to as int)[i as int] != word@[i as int]);
            return false;
        }
        i = i + 1;
    }
    assert(s@.subrange(from as int, to as int) =~= word@);
    true
}

} // verus!
