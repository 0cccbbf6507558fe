//! Text primitives shared by the wire protocol and the client protocol:
//! white space, words, splitting a line into tokens and joining them again.

use vstd::prelude::*;
use vstd::std_specs::iter::IteratorSpec;
use vstd::string::*;

verus! {

/// White space as Unicode defines it (the code points with the `White_Space` property).
pub open spec fn is_space(c: char) -> bool {
    ||| ('\u{9}' <= c && c <= '\u{d}')
    ||| c == ' '
    ||| c == '\u{85}'
    ||| c == '\u{a0}'
    ||| c == '\u{1680}'
    ||| ('\u{2000}' <= c && c <= '\u{200a}')
    ||| c == '\u{2028}'
    ||| c == '\u{2029}'
    ||| c == '\u{202f}'
    ||| c == '\u{205f}'
    ||| c == '\u{3000}'
}

/// A word is a non-empty run of characters none of which is white space.
pub open spec fn is_word(s: Seq<char>) -> bool {
    s.len() > 0 && forall|i: int| 0 <= i < s.len() ==> !is_space(#[trigger] s[i])
}

/// Length of the longest prefix of `s` that holds no white space.
pub open spec fn word_run(s: Seq<char>) -> nat
    decreases s.len(),
{
    if s.len() > 0 && !is_space(s[0]) {
        1 + word_run(s.drop_first())
    } else {
        0
    }
}

/// The words of `s` in order: the maximal runs of characters that are not white space.
pub open spec fn tokens(s: Seq<char>) -> Seq<Seq<char>>
    decreases s.len(),
{
    if s.len() == 0 {
        Seq::empty()
    } else if is_space(s[0]) {
        tokens(s.drop_first())
    } else {
        proof {
            lemma_word_run_bounds(s);
        }
        let w = word_run(s) as int;
        seq![s.take(w)] + tokens(s.skip(w))
    }
}

/// The words joined by single spaces.
pub open spec fn join(words: Seq<Seq<char>>) -> Seq<char>
    decreases words.len(),
{
    if words.len() == 0 {
        Seq::empty()
    } else if words.len() == 1 {
        words[0]
    } else {
        join(words.drop_last()) + seq![' '] + words.last()
    }
}

/// A phrase is a non-empty text that splitting and joining give back unchanged:
/// words separated by exactly one space, with nothing before the first or after the last.
pub open spec fn is_phrase(s: Seq<char>) -> bool {
    s.len() > 0 && join(tokens(s)) == s
}

/// The texts held by a sequence of strings.
pub open spec fn texts(v: Seq<String>) -> Seq<Seq<char>> {
    v.map_values(|s: String| s@)
}

/// The first run ends within the text, holds no white space, and is followed by white
/// space or by the end of the text.
pub proof fn lemma_word_run_bounds(s: Seq<char>)
    ensures
        word_run(s) <= s.len(),
        s.len() > 0 && !is_space(s[0]) ==> word_run(s) >= 1,
        forall|i: int| 0 <= i < word_run(s) ==> !is_space(#[trigger] s[i]),
        word_run(s) < s.len() ==> is_space(s[word_run(s) as int]),
    decreases s.len(),
{
    if s.len() > 0 && !is_space(s[0]) {
        let t = s.drop_first();
        lemma_word_run_bounds(t);
        assert forall|i: int| 0 <= i < word_run(s) implies !is_space(#[trigger] s[i]) by {
            if i > 0 {
                assert(s[i] == t[i - 1]);
            }
        }
    }
}

/// A prefix without white space that ends the text, or is followed by white space, is
/// the whole first run.
pub proof fn lemma_word_run_is(s: Seq<char>, w: int)
    requires
        0 <= w <= s.len(),
        forall|i: int| 0 <= i < w ==> !is_space(#[trigger] s[i]),
        w < s.len() ==> is_space(s[w]),
    ensures
        word_run(s) == w,
    decreases w,
{
    if w > 0 {
        let t = s.drop_first();
        lemma_word_run_is(t, w - 1);
    }
}

/// Every token is a word.
pub proof fn lemma_tokens_are_words(s: Seq<char>)
    ensures
        forall|i: int| 0 <= i < tokens(s).len() ==> is_word(#[trigger] tokens(s)[i]),
    decreases s.len(),
{
    if s.len() > 0 && is_space(s[0]) {
        lemma_tokens_are_words(s.drop_first());
        assert(tokens(s) == tokens(s.drop_first()));
    } else if s.len() > 0 {
        lemma_word_run_bounds(s);
        let w = word_run(s) as int;
        lemma_tokens_are_words(s.skip(w));
        assert(tokens(s) == seq![s.take(w)] + tokens(s.skip(w)));
    }
}

/// A word in front of a text that is empty or begins with white space is that text's
/// first token, and the other tokens are those of the rest.
pub proof fn lemma_tokens_word_then(word: Seq<char>, rest: Seq<char>)
    requires
        is_word(word),
        rest.len() > 0 ==> is_space(rest[0]),
    ensures
        tokens(word + rest) == seq![word] + tokens(rest),
{
    let s = word + rest;
    let w = word.len() as int;
    lemma_word_run_is(s, w);
    assert(s.take(w) =~= word);
    assert(s.skip(w) =~= rest);
}

/// White space in front of a text adds no token.
pub proof fn lemma_tokens_space_then(rest: Seq<char>)
    ensures
        tokens(seq![' '] + rest) == tokens(rest),
{
    let s = seq![' '] + rest;
    assert(s.drop_first() =~= rest);
}

/// Splitting `word`, one space, `rest` gives `word` and then the tokens of `rest`.
pub proof fn lemma_tokens_cons(word: Seq<char>, rest: Seq<char>)
    requires
        is_word(word),
    ensures
        tokens(word + seq![' '] + rest) == seq![word] + tokens(rest),
{
    let tail = seq![' '] + rest;
    lemma_tokens_word_then(word, tail);
    lemma_tokens_space_then(rest);
    assert(word + seq![' '] + rest =~= word + tail);
}

/// A word standing alone is its own single token.
pub proof fn lemma_tokens_single(word: Seq<char>)
    requires
        is_word(word),
    ensures
        tokens(word) == seq![word],
{
    lemma_tokens_word_then(word, Seq::empty());
}

/// Joining a word in front of further words puts one space between them.
pub proof fn lemma_join_cons(word: Seq<char>, words: Seq<Seq<char>>)
    requires
        words.len() > 0,
    ensures
        join(seq![word] + words) == word + seq![' '] + join(words),
    decreases words.len(),
{
    let all = seq![word] + words;
    if words.len() == 1 {
        assert(all.drop_last() =~= seq![word]);
        assert(join(seq![word]) == word);
    } else {
        assert(all.drop_last() =~= seq![word] + words.drop_last());
        lemma_join_cons(word, words.drop_last());
    }
}

/// A word alone is a phrase.
pub proof fn lemma_word_is_phrase(word: Seq<char>)
    requires
        is_word(word),
    ensures
        is_phrase(word),
{
    lemma_tokens_single(word);
}

/// A word, one space and a phrase make a phrase again.
pub proof fn lemma_phrase_cons(word: Seq<char>, phrase: Seq<char>)
    requires
        is_word(word),
        is_phrase(phrase),
    ensures
        is_phrase(word + seq![' '] + phrase),
{
    lemma_tokens_cons(word, phrase);
    lemma_join_cons(word, tokens(phrase));
}

/// Whether `c` is white space.
pub fn is_whitespace(c: char) -> (r: bool)
    ensures
        r == is_space(c),
{
    ('\u{9}' <= c && c <= '\u{d}') || c == ' ' || c == '\u{85}' || c == '\u{a0}' || c == '\u{1680}'
        || ('\u{2000}' <= c && c <= '\u{200a}') || c == '\u{2028}' || c == '\u{2029}' || c
        == '\u{202f}' || c == '\u{205f}' || c == '\u{3000}'
}

/// Whether two string slices hold the same text.
pub fn same_text(a: &str, b: &str) -> (r: bool)
    ensures
        r == (a@ == b@),
{
    let mut others = b.chars();
    for c in it: a.chars()
        invariant
            it.seq() == a@,
            it.index() <= b@.len(),
            others.remaining() == b@.skip(it.index() as int),
            forall|k: int| 0 <= k < it.index() ==> a@[k] == b@[k],
    {
        match others.next() {
            Some(d) => {
                if c != d {
                    return false;
                }
            },
            None => {
                return false;
            },
        }
    }
    match others.next() {
        Some(_) => false,
        None => {
            assert(a@ =~= b@);
            true
        },
    }
}

/// Splits a line into its tokens.
pub fn split_whitespace(text: &str) -> (out: Vec<String>)
    ensures
        texts(out@) == tokens(text@),
{
    let n = text.unicode_len();
    let mut out: Vec<String> = Vec::new();
    let mut start: usize = 0;
    let mut in_word = false;
    let mut i: usize = 0;
    assert(text@.skip(0) =~= text@);
    for c in it: text.chars()
        invariant
            it.seq() == text@,
            n == text@.len(),
            i == it.index(),
            start <= i <= n,
            in_word ==> start < i,
            in_word ==> forall|k: int| start <= k < i ==> !is_space(#[trigger] text@[k]),
            tokens(text@) == texts(out@) + tokens(
                text@.skip(
                    if in_word {
                        start as int
                    } else {
                        i as int
                    },
                ),
            ),
    {
        if is_whitespace(c) {
            if in_word {
                let word = String::from_str(text.substring_char(start, i));
                proof {
                    lemma_tokens_at(text@, start as int, i as int);
                }
                out.push(word);
                in_word = false;
            }
            assert(text@.skip(i as int).drop_first() =~= text@.skip(i + 1));
        } else if !in_word {
            start = i;
            in_word = true;
        }
        i += 1;
    }
    if in_word {
        let word = String::from_str(text.substring_char(start, n));
        proof {
            lemma_tokens_at(text@, start as int, n as int);
        }
        out.push(word);
    }
    out
}

/// A run without white space from `from` up to `to`, where the text ends or white
/// space follows, is the first token of what starts at `from`.
proof fn lemma_tokens_at(s: Seq<char>, from: int, to: int)
    requires
        0 <= from < to <= s.len(),
        forall|k: int| from <= k < to ==> !is_space(#[trigger] s[k]),
        to < s.len() ==> is_space(s[to]),
    ensures
        tokens(s.skip(from)) == seq![s.subrange(from, to)] + tokens(s.skip(to)),
{
    let t = s.skip(from);
    let w = to - from;
    lemma_word_run_is(t, w);
    assert(t.take(w) =~= s.subrange(from, to));
    assert(t.skip(w) =~= s.skip(to));
}

/// Joins the strings from index `from` on with single spaces.
pub(crate) fn join_from(words: &Vec<String>, from: usize) -> (out: String)
    requires
        from <= words.len(),
    ensures
        out@ == join(texts(words@).skip(from as int)),
{
    let mut out = String::new();
    let mut i: usize = from;
    let ghost all = texts(words@);
    while i < words.len()
        invariant
            from <= i <= words.len(),
            all == texts(words@),
            out@ == join(all.subrange(from as int, i as int)),
        decreases words.len() - i,
    {
        assert(all.subrange(from as int, i + 1).drop_last() =~= all.subrange(
            from as int,
            i as int,
        ));
        if i > from {
            proof {
                reveal_strlit(" ");
            }
            out.append(" ");
        }
        out.append(words[i].as_str());
        i += 1;
    }
    out
}

/// Joins strings with single spaces.
pub fn join_words(words: &Vec<String>) -> (out: String)
    ensures
        out@ == join(texts(words@)),
{
    assert(texts(words@).skip(0) =~= texts(words@));
    join_from(words, 0)
}

} // verus!
