//! Splitting a line into words.
//!
//! A word is a maximal run of characters that are not white space. White space
//! only separates words: a line of nothing else has no word at all.

use vstd::prelude::*;

verus! {

/// Whether `c` has the Unicode property `White_Space`.
pub open spec fn is_space(c: char) -> bool {
    ||| '\u{9}' <= c <= '\u{d}'
    ||| c == ' '
    ||| c == '\u{85}'
    ||| c == '\u{a0}'
    ||| c == '\u{1680}'
    ||| '\u{2000}' <= c <= '\u{200a}'
    ||| c == '\u{2028}'
    ||| c == '\u{2029}'
    ||| c == '\u{202f}'
    ||| c == '\u{205f}'
    ||| c == '\u{3000}'
}

/// Whether no character of `s` is white space.
pub open spec fn no_space(s: Seq<char>) -> bool {
    forall|i: int| 0 <= i < s.len() ==> !is_space(#[trigger] s[i])
}

/// The length of the longest prefix of `s` that holds no white space.
pub open spec fn word_len(s: Seq<char>) -> nat
    decreases s.len(),
{
    if s.len() == 0 || is_space(s[0]) {
        0
    } else {
        1 + word_len(s.skip(1))
    }
}

/// The words of `s`, in the order in which they stand in it.
pub open spec fn split_words(s: Seq<char>) -> Seq<Seq<char>>
    decreases s.len(),
    via split_words_terminates
{
    if s.len() == 0 {
        Seq::empty()
    } else if is_space(s[0]) {
        split_words(s.skip(1))
    } else {
        let n = word_len(s) as int;
        seq![s.take(n)] + split_words(s.skip(n))
    }
}

#[via_fn]
proof fn split_words_terminates(s: Seq<char>) {
    lemma_word_len(s);
}

/// The contents of the words in `words`.
pub open spec fn texts(words: Seq<Vec<char>>) -> Seq<Seq<char>> {
    Seq::new(words.len(), |i: int| words[i]@)
}

/// `word_len(s)` is the place of the first white space in `s`, or the length
/// of `s` where it has none.
pub proof fn lemma_word_len(s: Seq<char>)
    ensures
        word_len(s) <= s.len(),
        no_space(s.take(word_len(s) as int)),
        word_len(s) < s.len() ==> is_space(s[word_len(s) as int]),
        s.len() > 0 && !is_space(s[0]) ==> word_len(s) > 0,
    decreases s.len(),
{
    if s.len() > 0 && !is_space(s[0]) {
        let rest = s.skip(1);
        lemma_word_len(rest);
        let n = word_len(s) as int;
        assert forall|i: int| 0 <= i < n implies !is_space(#[trigger] s.take(n)[i]) by {
            if i > 0 {
                assert(s.take(n)[i] == rest.take(n - 1)[i - 1]);
            }
        }
    }
}

/// A run without white space that ends the line, or is followed by white
/// space, is a word of its own, and the words after it are those of the rest.
pub proof fn lemma_split_first_word(word: Seq<char>, rest: Seq<char>)
    requires
        word.len() > 0,
        no_space(word),
        rest.len() == 0 || is_space(rest[0]),
    ensures
        split_words(word + rest) == seq![word] + split_words(rest),
{
    lemma_word_len_of_run(word, rest);
    let s = word + rest;
    assert(!is_space(s[0])) by {
        assert(s[0] == word[0]);
    }
    assert(s.take(word.len() as int) =~= word);
    assert(s.skip(word.len() as int) =~= rest);
}

/// The first word of a line that begins with a run without white space, cut
/// off by white space or by the end of the line, is as long as that run.
proof fn lemma_word_len_of_run(word: Seq<char>, rest: Seq<char>)
    requires
        no_space(word),
        rest.len() == 0 || is_space(rest[0]),
    ensures
        word_len(word + rest) == word.len(),
    decreases word.len(),
{
    let s = word + rest;
    if word.len() == 0 {
        assert(s =~= rest);
    } else {
        assert(s[0] == word[0]);
        assert(s.skip(1) =~= word.skip(1) + rest);
        assert forall|i: int| 0 <= i < word.skip(1).len() implies !is_space(
            #[trigger] word.skip(1)[i],
        ) by {
            assert(word.skip(1)[i] == word[i + 1]);
        }
        lemma_word_len_of_run(word.skip(1), rest);
    }
}

/// White space at the head of a line adds no word.
pub proof fn lemma_split_leading_space(s: Seq<char>)
    requires
        s.len() > 0,
        is_space(s[0]),
    ensures
        split_words(s) == split_words(s.skip(1)),
{
}

/// White space between two parts of a line parts their words: the words of
/// the whole are those of what stands before it, then those of what stands
/// after it.
pub proof fn lemma_split_at_space(before: Seq<char>, space: char, after: Seq<char>)
    requires
        is_space(space),
    ensures
        split_words(before + seq![space] + after) == split_words(before) + split_words(after),
    decreases before.len(),
{
    let tail = seq![space] + after;
    let line = before + tail;
    assert(line =~= before + seq![space] + after);
    if before.len() == 0 {
        assert(line =~= tail);
        assert(tail.skip(1) =~= after);
        assert(split_words(before) + split_words(after) =~= split_words(after));
    } else if is_space(before[0]) {
        assert(line.skip(1) =~= before.skip(1) + seq![space] + after);
        lemma_split_at_space(before.skip(1), space, after);
    } else {
        lemma_word_len(before);
        let n = word_len(before) as int;
        let word = before.take(n);
        let rest = before.skip(n);
        assert(before =~= word + rest);
        assert(line =~= word + (rest + tail));
        assert((rest + tail)[0] == if rest.len() > 0 {
            rest[0]
        } else {
            space
        });
        lemma_split_first_word(word, rest + tail);
        assert(rest + tail =~= rest + seq![space] + after);
        lemma_split_at_space(rest, space, after);
        assert(split_words(before) == seq![word] + split_words(rest));
        assert(seq![word] + (split_words(rest) + split_words(after)) =~= (seq![word] + split_words(
            rest,
        )) + split_words(after));
    }
}

/// Every word of a line is non-empty and free of white space.
pub proof fn lemma_words_are_words(s: Seq<char>)
    ensures
        forall|k: int|
            #![trigger split_words(s)[k]]
            0 <= k < split_words(s).len() ==> split_words(s)[k].len() > 0 && no_space(
                split_words(s)[k],
            ),
    decreases s.len(),
{
    let words = split_words(s);
    if s.len() == 0 {
        assert(words.len() == 0);
    } else if is_space(s[0]) {
        lemma_words_are_words(s.skip(1));
        assert(words == split_words(s.skip(1)));
        assert(forall|k: int|
            #![trigger words[k]]
            0 <= k < words.len() ==> words[k].len() > 0 && no_space(words[k]));
    } else {
        lemma_word_len(s);
        let n = word_len(s) as int;
        let tail = split_words(s.skip(n));
        lemma_words_are_words(s.skip(n));
        assert(words == seq![s.take(n)] + tail);
        assert forall|k: int| 0 <= k < words.len() implies words[k].len() > 0 && no_space(
            words[k],
        ) by {
            if k == 0 {
                assert(words[0] == s.take(n));
            } else {
                assert(words[k] == tail[k - 1]);
            }
        }
    }
}

/// Whether `c` is white space.
pub fn is_whitespace(c: char) -> (b: bool)
    ensures
        b == is_space(c),
{
    ('\u{9}' <= c && c <= '\u{d}') || c == ' ' || c == '\u{85}' || c == '\u{a0}' || c == '\u{1680}'
        || ('\u{2000}' <= c && c <= '\u{200a}') || c == '\u{2028}' || c == '\u{2029}' || c
        == '\u{202f}' || c == '\u{205f}' || c == '\u{3000}'
}

/// Splits `line` into its words.
pub fn split_whitespace(line: &str) -> (words: Vec<Vec<char>>)
    ensures
        texts(words@) == split_words(line@),
{
    let mut words: Vec<Vec<char>> = Vec::new();
    let mut current: Vec<char> = Vec::new();
    assert(current@ + line@.skip(0) =~= line@);
    assert(texts(words@) + split_words(line@) =~= split_words(line@));
    for c in it: line.chars()
        invariant
            it.seq() == line@,
            no_space(current@),
            split_words(line@) == texts(words@) + split_words(current@ + line@.skip(it.index())),
    {
        let ghost rest = line@.skip(it.index());
        let ghost after = line@.skip(it.index() + 1);
        assert(rest[0] == c && rest.skip(1) =~= after);
        if is_whitespace(c) {
            if current.len() > 0 {
                proof {
                    lemma_split_first_word(current@, rest);
                    assert(texts(words@.push(current)) =~= texts(words@) + seq![current@]);
                    assert(Seq::<char>::empty() + after =~= after);
                }
                words.push(current);
                current = Vec::new();
            } else {
                assert(current@ + rest =~= rest);
                assert(current@ + after =~= after);
            }
        } else {
            assert(current@.push(c) + after =~= current@ + rest);
            current.push(c);
        }
    }
    if current.len() > 0 {
        proof {
            let end = line@.skip(line@.len() as int);
            lemma_split_first_word(current@, end);
            assert(split_words(end) =~= Seq::<Seq<char>>::empty());
            assert(texts(words@.push(current)) =~= texts(words@) + seq![current@]);
        }
        words.push(current);
    } else {
        assert(current@ + line@.skip(line@.len() as int) =~= Seq::<char>::empty());
    }
    words
}

} // verus!
