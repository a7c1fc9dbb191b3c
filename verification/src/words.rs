//! The words of a line: runs of characters between white space.

use crate::text::{is_white_space, is_whitespace};
use vstd::prelude::*;

verus! {

/// The length of the longest prefix of `s` that holds no white space.
pub open spec fn word_len(s: Seq<char>) -> nat
    decreases s.len(),
{
    if s.len() == 0 || is_white_space(s[0]) {
        0
    } else {
        1 + word_len(s.drop_first())
    }
}

/// `word_len(s)` stays within `s`, covers no white space, and stops at white
/// space or at the end.
pub proof fn lemma_word_len(s: Seq<char>)
    ensures
        word_len(s) <= s.len(),
        forall|i: int| 0 <= i < word_len(s) ==> !is_white_space(#[trigger] s[i]),
        word_len(s) < s.len() ==> is_white_space(s[word_len(s) as int]),
        s.len() > 0 && !is_white_space(s[0]) ==> word_len(s) >= 1,
    decreases s.len(),
{
    if s.len() == 0 || is_white_space(s[0]) {
    } else {
        let t = s.drop_first();
        lemma_word_len(t);
        assert forall|i: int| 0 <= i < word_len(s) implies !is_white_space(#[trigger] s[i]) by {
            if i > 0 {
                assert(s[i] == t[i - 1]);
            }
        }
        if word_len(s) < s.len() {
            assert(s[word_len(s) as int] == t[word_len(t) as int]);
        }
    }
}

/// A prefix of `n` characters without white space, which ends `s` or is
/// followed by white space, is the first word of `s`.
proof fn lemma_word_len_is(s: Seq<char>, n: int)
    requires
        0 <= n <= s.len(),
        forall|i: int| 0 <= i < n ==> !is_white_space(#[trigger] s[i]),
        n < s.len() ==> is_white_space(s[n]),
    ensures
        word_len(s) == n,
    decreases n,
{
    if n > 0 {
        let t = s.drop_first();
        assert forall|i: int| 0 <= i < n - 1 implies !is_white_space(#[trigger] t[i]) by {
            assert(t[i] == s[i + 1]);
        }
        if n - 1 < t.len() {
            assert(t[n - 1] == s[n]);
        }
        assert(!is_white_space(s[0]));
        lemma_word_len_is(t, n - 1);
    }
}

/// Whether `w` can be a word: it is not empty and holds no white space.
pub open spec fn is_word(w: Seq<char>) -> bool {
    w.len() > 0 && forall|i: int| 0 <= i < w.len() ==> !is_white_space(#[trigger] w[i])
}

/// The words of `s`: its maximal runs of characters that are not white space,
/// in order.
pub open spec fn words(s: Seq<char>) -> Seq<Seq<char>>
    decreases s.len(),
{
    if s.len() == 0 {
        Seq::empty()
    } else if is_white_space(s[0]) {
        words(s.drop_first())
    } else {
        proof {
            lemma_word_len(s);
        }
        let n: int = word_len(s) as int;
        seq![s.take(n)] + words(s.skip(n))
    }
}

/// The views of a vector of words.
pub open spec fn word_views(v: Seq<Vec<char>>) -> Seq<Seq<char>> {
    v.map_values(|w: Vec<char>| w@)
}

/// Splits `s` into its words.
pub fn split_words(s: &Vec<char>) -> (out: Vec<Vec<char>>)
    ensures
        word_views(out@) == words(s@),
{
    let mut out: Vec<Vec<char>> = Vec::new();
    let mut i: usize = 0;
    proof {
        assert(s@.skip(0) =~= s@);
        assert(word_views(out@) + words(s@) =~= words(s@));
    }
    while i < s.len()
        invariant
            i <= s.len(),
            words(s@) == word_views(out@) + words(s@.skip(i as int)),
        decreases s.len() - i,
    {
        let ghost rest = s@.skip(i as int);
        if is_whitespace(s[i]) {
            proof {
                assert(rest.drop_first() =~= s@.skip(i + 1));
            }
            i += 1;
        } else {
            let mut word: Vec<char> = Vec::new();
            let mut j: usize = i;
            while j < s.len() && !is_whitespace(s[j])
                invariant
                    i <= j <= s.len(),
                    word@ == s@.subrange(i as int, j as int),
                    forall|k: int| i <= k < j ==> !is_white_space(#[trigger] s@[k]),
                decreases s.len() - j,
            {
                word.push(s[j]);
                j += 1;
            }
            proof {
                assert forall|k: int| 0 <= k < j - i implies !is_white_space(#[trigger] rest[k]) by {
                    assert(rest[k] == s@[i + k]);
                }
                lemma_word_len_is(rest, j - i);
                assert(rest.take(j - i) =~= word@);
                assert(rest.skip(j - i) =~= s@.skip(j as int));
                assert(word_views(out@.push(word)) =~= word_views(out@) + seq![word@]);
            }
            out.push(word);
            i = j;
        }
    }
    proof {
        assert(s@.skip(i as int) =~= Seq::<char>::empty());
    }
    out
}

/// The words of `ws` in one line, with a single space between neighbours.
pub open spec fn join_words(ws: Seq<Seq<char>>) -> Seq<char>
    decreases ws.len(),
{
    if ws.len() == 0 {
        Seq::empty()
    } else if ws.len() == 1 {
        ws[0]
    } else {
        join_words(ws.drop_last()) + seq![' '] + ws.last()
    }
}

/// Joins the words of `ws` from index `from` on with single spaces.
pub fn join_from(ws: &Vec<Vec<char>>, from: usize) -> (line: Vec<char>)
    requires
        from <= ws.len(),
    ensures
        line@ == join_words(word_views(ws@).skip(from as int)),
{
    let mut line: Vec<char> = Vec::new();
    let mut i: usize = from;
    let ghost all = word_views(ws@).skip(from as int);
    while i < ws.len()
        invariant
            from <= i <= ws.len(),
            all == word_views(ws@).skip(from as int),
            line@ == join_words(all.take(i - from)),
        decreases ws.len() - i,
    {
        if i > from {
            line.push(' ');
        }
        let word = &ws[i];
        let mut j: usize = 0;
        let ghost before = line@;
        while j < word.len()
            invariant
                j <= word.len(),
                line@ == before + word@.take(j as int),
            decreases word.len() - j,
        {
            line.push(word[j]);
            j += 1;
        }
        proof {
            let taken = all.take(i - from + 1);
            assert(taken.drop_last() =~= all.take(i - from));
            assert(taken.last() == word@);
            assert(word@.take(word.len() as int) =~= word@);
            if i == from {
                assert(all.take(0) =~= Seq::<Seq<char>>::empty());
                assert(line@ =~= word@);
            }
        }
        i += 1;
    }
    proof {
        assert(all.take(ws.len() - from) =~= all);
    }
    line
}

/// A text has no words exactly if it holds white space only.
pub proof fn lemma_words_of_blank(s: Seq<char>)
    ensures
        words(s).len() == 0 <==> forall|i: int| 0 <= i < s.len() ==> is_white_space(#[trigger] s[i]),
    decreases s.len(),
{
    if s.len() == 0 {
    } else if is_white_space(s[0]) {
        let t = s.drop_first();
        lemma_words_of_blank(t);
        if words(s).len() == 0 {
            assert forall|i: int| 0 <= i < s.len() implies is_white_space(#[trigger] s[i]) by {
                if i > 0 {
                    assert(s[i] == t[i - 1]);
                }
            }
        } else {
            let i = choose|i: int| 0 <= i < t.len() && !is_white_space(#[trigger] t[i]);
            assert(s[i + 1] == t[i]);
        }
    } else {
        assert(!is_white_space(s[0]));
    }
}

/// Each word of a text is not empty and holds no white space.
pub proof fn lemma_words_are_words(s: Seq<char>)
    ensures
        forall|i: int| 0 <= i < words(s).len() ==> is_word(#[trigger] words(s)[i]),
    decreases s.len(),
{
    if s.len() == 0 {
        assert(words(s).len() == 0);
    } else if is_white_space(s[0]) {
        lemma_words_are_words(s.drop_first());
        assert(words(s) == words(s.drop_first()));
    } else {
        lemma_word_len(s);
        let n = word_len(s) as int;
        lemma_words_are_words(s.skip(n));
        let first = s.take(n);
        assert(words(s) == seq![first] + words(s.skip(n)));
        assert forall|k: int| 0 <= k < first.len() implies !is_white_space(#[trigger] first[k]) by {
            assert(first[k] == s[k]);
        }
        assert(is_word(first));
        assert forall|i: int| 0 <= i < words(s).len() implies is_word(#[trigger] words(s)[i]) by {
            if i > 0 {
                assert(words(s)[i] == words(s.skip(n))[i - 1]);
            }
        }
    }
}

/// A word is the one word of itself.
proof fn lemma_words_single(w: Seq<char>)
    requires
        is_word(w),
    ensures
        words(w) == seq![w],
{
    lemma_word_len_is(w, w.len() as int);
    let n = word_len(w) as int;
    assert(w.take(n) =~= w);
    assert(w.skip(n) =~= Seq::<char>::empty());
    assert(!is_white_space(w[0]));
    assert(words(w.skip(n)) =~= Seq::<Seq<char>>::empty());
    assert(words(w) == seq![w.take(n)] + words(w.skip(n)));
    assert(words(w) =~= seq![w]);
}

/// A word put after a text and a space is the last word of the whole.
proof fn lemma_words_append(a: Seq<char>, w: Seq<char>)
    requires
        is_word(w),
    ensures
        words(a + seq![' '] + w) == words(a).push(w),
    decreases a.len(),
{
    let full = a + seq![' '] + w;
    if a.len() == 0 {
        assert(full.drop_first() =~= w);
        lemma_words_single(w);
        assert(words(a).push(w) =~= seq![w]);
    } else if is_white_space(a[0]) {
        assert(full.drop_first() =~= a.drop_first() + seq![' '] + w);
        lemma_words_append(a.drop_first(), w);
    } else {
        lemma_word_len(a);
        let n = word_len(a) as int;
        assert forall|i: int| 0 <= i < n implies !is_white_space(#[trigger] full[i]) by {
            assert(full[i] == a[i]);
        }
        if n < a.len() {
            assert(full[n] == a[n]);
        } else {
            assert(full[n] == ' ');
        }
        lemma_word_len_is(full, n);
        assert(full.take(n) =~= a.take(n));
        assert(full.skip(n) =~= a.skip(n) + seq![' '] + w);
        lemma_words_append(a.skip(n), w);
        assert(words(full) =~= words(a).push(w));
    }
}

/// Words that are joined with single spaces are the words of the line.
pub proof fn lemma_words_of_join(ws: Seq<Seq<char>>)
    requires
        forall|i: int| 0 <= i < ws.len() ==> is_word(#[trigger] ws[i]),
    ensures
        words(join_words(ws)) == ws,
    decreases ws.len(),
{
    if ws.len() == 0 {
        assert(words(join_words(ws)) =~= ws);
    } else if ws.len() == 1 {
        lemma_words_single(ws[0]);
        assert(seq![ws[0]] =~= ws);
    } else {
        let init = ws.drop_last();
        assert forall|i: int| 0 <= i < init.len() implies is_word(#[trigger] init[i]) by {
            assert(init[i] == ws[i]);
        }
        lemma_words_of_join(init);
        lemma_words_append(join_words(init), ws.last());
        assert(init.push(ws.last()) =~= ws);
    }
}

/// A line of joined words starts with its first word; where more words
/// follow, a space and the rest come after it.
pub(crate) proof fn lemma_join_first(first: Seq<char>, rest: Seq<Seq<char>>)
    ensures
        join_words(seq![first] + rest) == if rest.len() == 0 {
            first
        } else {
            first + seq![' '] + join_words(rest)
        },
    decreases rest.len(),
{
    let all = seq![first] + rest;
    if rest.len() == 0 {
        assert(all =~= seq![first]);
    } else {
        assert(all.drop_last() =~= seq![first] + rest.drop_last());
        assert(all.last() == rest.last());
        lemma_join_first(first, rest.drop_last());
        if rest.len() == 1 {
            assert(join_words(rest) == rest[0]);
            assert(join_words(all) =~= first + seq![' '] + join_words(rest));
        } else {
            assert(join_words(all) =~= first + seq![' '] + join_words(rest));
        }
    }
}

/// A line of joined words holds white space only between the words, and
/// there a single space: no character of it is a line feed.
pub proof fn lemma_join_has_no_line_feed(ws: Seq<Seq<char>>)
    requires
        forall|i: int| 0 <= i < ws.len() ==> is_word(#[trigger] ws[i]),
    ensures
        forall|i: int| 0 <= i < join_words(ws).len() ==> #[trigger] join_words(ws)[i] != '\n',
    decreases ws.len(),
{
    if ws.len() >= 2 {
        let init = ws.drop_last();
        assert forall|i: int| 0 <= i < init.len() implies is_word(#[trigger] init[i]) by {
            assert(init[i] == ws[i]);
        }
        lemma_join_has_no_line_feed(init);
        let head = join_words(init);
        let last = ws.last();
        let line = join_words(ws);
        assert forall|i: int| 0 <= i < line.len() implies #[trigger] line[i] != '\n' by {
            if i < head.len() {
                assert(line[i] == head[i]);
            } else if i == head.len() {
                assert(line[i] == ' ');
            } else {
                assert(line[i] == last[i - head.len() - 1]);
                assert(!is_white_space(last[i - head.len() - 1]));
            }
        }
    } else if ws.len() == 1 {
        assert forall|i: int| 0 <= i < ws[0].len() implies #[trigger] ws[0][i] != '\n' by {
            assert(!is_white_space(ws[0][i]));
        }
    }
}

} // verus!
