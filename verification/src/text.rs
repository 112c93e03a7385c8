//! Text as sequences of characters: reading a string's characters, comparing
//! against a fixed spelling, and cutting a line into blank-separated words.

use vstd::prelude::*;

verus! {

/// `String::push` of std: the string afterwards is the string before with
/// `c` added at its end.
pub assume_specification[ String::push ](s: &mut String, c: char)
    ensures
        final(s)@ == old(s)@.push(c),
;

/// Whether `v` is a Unicode scalar value: a code point up to `0x10FFFF` that
/// is no surrogate.
pub open spec fn is_scalar(v: int) -> bool {
    0 <= v <= 0xD7FF || 0xE000 <= v <= 0x10FFFF
}

/// `char::from_u32` of std: the character with the code point `i` where `i`
/// is a Unicode scalar value, and nothing otherwise.
pub assume_specification[ char::from_u32 ](i: u32) -> (r: Option<char>)
    ensures
        r == (if is_scalar(i as int) {
            Some(i as char)
        } else {
            None
        }),
;

/// Whether `c` separates words: space, tab, line feed, form feed or
/// carriage return.
pub open spec fn is_blank(c: char) -> bool {
    c == ' ' || c == '\t' || c == '\n' || c == '\x0C' || c == '\r'
}

/// The length of the longest prefix of `text` that holds no blank.
pub open spec fn word_len(text: Seq<char>) -> nat
    decreases text.len(),
{
    if text.len() == 0 || is_blank(text[0]) {
        0
    } else {
        1 + word_len(text.drop_first())
    }
}

/// The words of `text`: its maximal runs of characters that are not blank,
/// from left to right.
pub open spec fn words(text: Seq<char>) -> Seq<Seq<char>>
    decreases text.len(),
    via words_decreases
{
    if text.len() == 0 {
        Seq::empty()
    } else if is_blank(text[0]) {
        words(text.drop_first())
    } else {
        seq![text.take(word_len(text) as int)] + words(text.skip(word_len(text) as int))
    }
}

#[via_fn]
proof fn words_decreases(text: Seq<char>) {
    lemma_word_len_bounds(text);
}

/// A word's length is at most the text's, and at least one where the text
/// begins with a character that is not blank.
pub proof fn lemma_word_len_bounds(text: Seq<char>)
    ensures
        word_len(text) <= text.len(),
        text.len() > 0 && !is_blank(text[0]) ==> word_len(text) >= 1,
    decreases text.len(),
{
    if text.len() > 0 && !is_blank(text[0]) {
        lemma_word_len_bounds(text.drop_first());
    }
}

/// Whether `s` holds no blank.
pub open spec fn blank_free(s: Seq<char>) -> bool {
    forall|i: int| 0 <= i < s.len() ==> !is_blank(#[trigger] s[i])
}

/// The first `word_len` characters of a text hold no blank.
pub proof fn lemma_first_word_is_blank_free(text: Seq<char>)
    ensures
        blank_free(text.take(word_len(text) as int)),
    decreases text.len(),
{
    lemma_word_len_bounds(text);
    if text.len() > 0 && !is_blank(text[0]) {
        let rest = text.drop_first();
        lemma_first_word_is_blank_free(rest);
        lemma_word_len_bounds(rest);
        let word = text.take(word_len(text) as int);
        assert forall|i: int| 0 <= i < word.len() implies !is_blank(#[trigger] word[i]) by {
            if i > 0 {
                assert(word[i] == rest.take(word_len(rest) as int)[i - 1]);
            }
        }
    }
}

/// Whether `word` holds at least one character, and no blank.
pub open spec fn is_word(word: Seq<char>) -> bool {
    word.len() > 0 && blank_free(word)
}

/// Every word of a text holds at least one character, and no blank.
pub proof fn law_words_hold_no_blank(text: Seq<char>)
    ensures
        forall|i: int| 0 <= i < words(text).len() ==> is_word(#[trigger] words(text)[i]),
    decreases text.len(),
{
    if text.len() == 0 {
        assert(words(text).len() == 0);
    } else if is_blank(text[0]) {
        law_words_hold_no_blank(text.drop_first());
        assert(words(text) == words(text.drop_first()));
    } else {
        lemma_word_len_bounds(text);
        lemma_first_word_is_blank_free(text);
        let first = text.take(word_len(text) as int);
        let others = words(text.skip(word_len(text) as int));
        law_words_hold_no_blank(text.skip(word_len(text) as int));
        assert forall|i: int| 0 <= i < words(text).len() implies is_word(
            #[trigger] words(text)[i],
        ) by {
            if i > 0 {
                assert(words(text)[i] == others[i - 1]);
            } else {
                assert(words(text)[i] == first);
            }
        }
    }
}

/// Text without a blank, followed by nothing or by a blank, is one word as
/// long as itself.
pub proof fn lemma_word_len_of_word(word: Seq<char>, rest: Seq<char>)
    requires
        blank_free(word),
        rest.len() == 0 || is_blank(rest[0]),
    ensures
        word_len(word + rest) == word.len(),
    decreases word.len(),
{
    if word.len() == 0 {
        assert(word + rest =~= rest);
    } else {
        assert((word + rest)[0] == word[0]);
        assert((word + rest).drop_first() =~= word.drop_first() + rest);
        assert(blank_free(word.drop_first())) by {
            assert forall|i: int| 0 <= i < word.drop_first().len() implies !is_blank(
                #[trigger] word.drop_first()[i],
            ) by {
                assert(word.drop_first()[i] == word[i + 1]);
            }
        }
        lemma_word_len_of_word(word.drop_first(), rest);
    }
}

/// Text that begins with a word, followed by nothing or by a blank, has
/// that word first and then the words of what follows it.
pub proof fn lemma_words_after_word(word: Seq<char>, rest: Seq<char>)
    requires
        word.len() > 0,
        blank_free(word),
        rest.len() == 0 || is_blank(rest[0]),
    ensures
        words(word + rest) == seq![word] + words(rest),
{
    lemma_word_len_of_word(word, rest);
    assert((word + rest)[0] == word[0]);
    assert((word + rest).take(word.len() as int) =~= word);
    assert((word + rest).skip(word.len() as int) =~= rest);
}

/// A blank before a text adds no word.
pub proof fn lemma_words_after_blank(c: char, rest: Seq<char>)
    requires
        is_blank(c),
    ensures
        words(seq![c] + rest) == words(rest),
{
    assert((seq![c] + rest).drop_first() =~= rest);
}

/// The texts of a list of strings.
pub open spec fn texts(strings: Seq<&str>) -> Seq<Seq<char>> {
    Seq::new(strings.len(), |i: int| strings[i]@)
}

/// Whether `c` separates words.
pub fn blank(c: char) -> (r: bool)
    ensures
        r == is_blank(c),
{
    c == ' ' || c == '\t' || c == '\n' || c == '\x0C' || c == '\r'
}

/// The characters of `s`, in order.
pub fn chars_of(s: &str) -> (r: Vec<char>)
    ensures
        r@ == s@,
{
    let mut chars: Vec<char> = Vec::new();
    for c in it: s.chars()
        invariant
            it.seq() == s@,
            chars@ == it.seq().take(it.index() as int),
    {
        chars.push(c);
    }
    chars
}

/// Adds the characters of `chars` at the end of `out`.
pub fn push_chars(out: &mut String, chars: &Vec<char>)
    ensures
        final(out)@ == old(out)@ + chars@,
{
    let mut i: usize = 0;
    assert(out@ =~= old(out)@ + chars@.take(0));
    while i < chars.len()
        invariant
            i <= chars.len(),
            out@ == old(out)@ + chars@.take(i as int),
        decreases chars.len() - i,
    {
        out.push(chars[i]);
        assert(chars@.take(i + 1) =~= chars@.take(i as int).push(chars@[i as int]));
        assert(out@ =~= old(out)@ + chars@.take(i + 1));
        i += 1;
    }
    assert(chars@.take(i as int) =~= chars@);
}

/// Whether `text` is exactly the characters of `name`.
pub fn spells(text: &[char], name: &str) -> (r: bool)
    ensures
        r == (text@ == name@),
{
    let n = name.unicode_len();
    if text.len() != n {
        return false;
    }
    let mut i: usize = 0;
    while i < n
        invariant
            i <= n,
            n == text@.len(),
            n == name@.len(),
            forall|k: int| 0 <= k < i ==> text@[k] == name@[k],
        decreases n - i,
    {
        if text[i] != name.get_char(i) {
            return false;
        }
        i += 1;
    }
    assert(text@ =~= name@);
    true
}

/// Cuts `phrase` at its blanks and returns the words between them.
pub fn split<'a>(phrase: &'a str) -> (r: Vec<&'a str>)
    ensures
        texts(r@) == words(phrase@),
{
    let chars = chars_of(phrase);
    let n = chars.len();
    let mut found: Vec<&'a str> = Vec::new();
    let mut i: usize = 0;
    assert(chars@.skip(0) =~= chars@);
    assert(texts(found@) + words(chars@) =~= words(chars@));
    while i < n
        invariant
            i <= n,
            n == chars@.len(),
            chars@ == phrase@,
            texts(found@) + words(chars@.skip(i as int)) == words(chars@),
        decreases n - i,
    {
        let ghost rest = chars@.skip(i as int);
        if blank(chars[i]) {
            assert(rest.drop_first() =~= chars@.skip(i + 1));
            i += 1;
        } else {
            let start = i;
            while i < n && !blank(chars[i])
                invariant
                    start <= i <= n,
                    n == chars@.len(),
                    word_len(rest) == (i - start) + word_len(chars@.skip(i as int)),
                    rest == chars@.skip(start as int),
                decreases n - i,
            {
                assert(chars@.skip(i as int).drop_first() =~= chars@.skip(i + 1));
                i += 1;
            }
            let word = phrase.substring_char(start, i);
            proof {
                assert(word_len(rest) == i - start);
                assert(rest.take(i - start) =~= word@);
                assert(rest.skip(i - start) =~= chars@.skip(i as int));
                assert(texts(found@.push(word)) =~= texts(found@) + seq![word@]);
            }
            found.push(word);
        }
    }
    assert(chars@.skip(n as int) =~= Seq::<char>::empty());
    assert(texts(found@) + Seq::<Seq<char>>::empty() =~= texts(found@));
    found
}

} // verus!
