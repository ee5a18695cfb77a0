//! Token sequences: splitting text on white space, joining tokens back into
//! text, and the placeholder tokens that stand for recognised entities.

use crate::chars::{is_whitespace, string_of_range, to_chars, whitespace};
use vstd::prelude::*;
use vstd::string::StringExecFns;

verus! {

/// The number of characters before the first white space of `s`, or all of
/// `s` where it holds none.
pub open spec fn word_len(s: Seq<char>) -> nat
    decreases s.len(),
{
    if s.len() == 0 || is_whitespace(s[0]) {
        0
    } else {
        1 + word_len(s.skip(1))
    }
}

/// The tokens of `s`: its maximal runs of characters that are not white
/// space, from left to right.
pub open spec fn tokens_of(s: Seq<char>) -> Seq<Seq<char>>
    decreases s.len(),
    via tokens_of_decreases
{
    if s.len() == 0 {
        Seq::empty()
    } else if is_whitespace(s[0]) {
        tokens_of(s.skip(1))
    } else {
        let n = word_len(s) as int;
        seq![s.take(n)] + tokens_of(s.skip(n))
    }
}

#[via_fn]
proof fn tokens_of_decreases(s: Seq<char>) {
    lemma_word_len_bounds(s);
}

/// A token: not empty, and free of white space.
pub open spec fn is_token(t: Seq<char>) -> bool {
    t.len() > 0 && forall|i: int| 0 <= i < t.len() ==> !is_whitespace(#[trigger] t[i])
}

/// Every element of `ts` is a token.
pub open spec fn all_tokens(ts: Seq<Seq<char>>) -> bool {
    forall|i: int| 0 <= i < ts.len() ==> is_token(#[trigger] ts[i])
}

/// The elements of `ts` with `sep` between each two neighbours.
pub open spec fn joined(ts: Seq<Seq<char>>, sep: Seq<char>) -> Seq<char>
    decreases ts.len(),
{
    if ts.len() == 0 {
        Seq::empty()
    } else if ts.len() == 1 {
        ts[0]
    } else {
        joined(ts.drop_last(), sep) + sep + ts.last()
    }
}

/// A token bounded by angle brackets. Such a token stands for an entity and
/// passes every later stage as it is.
pub open spec fn is_placeholder(t: Seq<char>) -> bool {
    t.len() > 0 && t[0] == '<' && t[t.len() - 1] == '>'
}

/// `word_len(s)` is the one `n` up to which `s` is free of white space and
/// at which it ends or holds white space.
pub proof fn lemma_word_len(s: Seq<char>, n: int)
    requires
        0 <= n <= s.len(),
        forall|i: int| 0 <= i < n ==> !is_whitespace(#[trigger] s[i]),
        n == s.len() || is_whitespace(s[n]),
    ensures
        word_len(s) == n,
    decreases n,
{
    if n > 0 {
        let rest = s.skip(1);
        assert forall|i: int| 0 <= i < n - 1 implies !is_whitespace(#[trigger] rest[i]) by {
            assert(rest[i] == s[i + 1]);
        }
        lemma_word_len(rest, n - 1);
    }
}

/// What `word_len` delimits: a white-space-free prefix that ends `s` or is
/// followed by white space.
pub proof fn lemma_word_len_bounds(s: Seq<char>)
    ensures
        word_len(s) <= s.len(),
        forall|i: int| 0 <= i < word_len(s) ==> !is_whitespace(#[trigger] s[i]),
        word_len(s) == s.len() || is_whitespace(s[word_len(s) as int]),
    decreases s.len(),
{
    if s.len() == 0 || is_whitespace(s[0]) {
    } else {
        let rest = s.skip(1);
        lemma_word_len_bounds(rest);
        assert forall|i: int| 0 <= i < word_len(s) implies !is_whitespace(#[trigger] s[i]) by {
            if i > 0 {
                assert(s[i] == rest[i - 1]);
            }
        }
        if word_len(s) != s.len() {
            assert(s[word_len(s) as int] == rest[word_len(rest) as int]);
        }
    }
}

/// Splitting yields tokens only: none is empty, none holds white space.
pub proof fn lemma_tokens_are_tokens(s: Seq<char>)
    ensures
        all_tokens(tokens_of(s)),
    decreases s.len(),
{
    if s.len() == 0 {
    } else if is_whitespace(s[0]) {
        lemma_tokens_are_tokens(s.skip(1));
    } else {
        let n = word_len(s) as int;
        lemma_word_len_bounds(s);
        lemma_tokens_are_tokens(s.skip(n));
        let head = seq![s.take(n)];
        let tail = tokens_of(s.skip(n));
        assert(is_token(s.take(n)));
        assert forall|i: int| 0 <= i < (head + tail).len() implies is_token(
            #[trigger] (head + tail)[i],
        ) by {
            if i >= 1 {
                assert((head + tail)[i] == tail[i - 1]);
            }
        }
    }
}

/// What holds of every character of a text holds of every character of
/// each of its tokens.
pub proof fn lemma_tokens_chars(s: Seq<char>, ok: spec_fn(char) -> bool)
    requires
        forall|i: int| 0 <= i < s.len() ==> ok(#[trigger] s[i]),
    ensures
        forall|i: int, j: int|
            0 <= i < tokens_of(s).len() && 0 <= j < tokens_of(s)[i].len() ==> ok(
                #[trigger] tokens_of(s)[i][j],
            ),
    decreases s.len(),
{
    if s.len() == 0 {
    } else if is_whitespace(s[0]) {
        let rest = s.skip(1);
        assert forall|k: int| 0 <= k < rest.len() implies ok(#[trigger] rest[k]) by {
            assert(rest[k] == s[k + 1]);
        }
        lemma_tokens_chars(rest, ok);
        assert(tokens_of(s) == tokens_of(rest));
    } else {
        let n = word_len(s) as int;
        lemma_word_len_bounds(s);
        let head = s.take(n);
        let rest = s.skip(n);
        assert forall|k: int| 0 <= k < rest.len() implies ok(#[trigger] rest[k]) by {
            assert(rest[k] == s[k + n]);
        }
        lemma_tokens_chars(rest, ok);
        let all = seq![head] + tokens_of(rest);
        assert(tokens_of(s) == all);
        assert forall|i: int, j: int| 0 <= i < all.len() && 0 <= j < all[i].len() implies ok(
            #[trigger] all[i][j],
        ) by {
            if i > 0 {
                assert(all[i] == tokens_of(rest)[i - 1]);
            } else {
                assert(all[i] == head);
                assert(head[j] == s[j]);
            }
        }
    }
}

/// Text that is one token splits into that token.
pub proof fn lemma_tokens_of_token(t: Seq<char>)
    requires
        is_token(t),
    ensures
        tokens_of(t) == seq![t],
{
    lemma_word_len(t, t.len() as int);
    assert(t.take(t.len() as int) == t);
    assert(t.skip(t.len() as int).len() == 0);
    assert(tokens_of(t.skip(t.len() as int)) == Seq::<Seq<char>>::empty());
    assert(seq![t] + Seq::<Seq<char>>::empty() == seq![t]);
}

/// Two texts with white space between them: splitting the whole is
/// splitting both parts.
pub proof fn lemma_tokens_of_concat(a: Seq<char>, c: char, b: Seq<char>)
    requires
        is_whitespace(c),
    ensures
        tokens_of(a + seq![c] + b) == tokens_of(a) + tokens_of(b),
    decreases a.len(),
{
    let s = a + seq![c] + b;
    if a.len() == 0 {
        assert(s.skip(1) == b);
        assert(s[0] == c);
        assert(Seq::<Seq<char>>::empty() + tokens_of(b) == tokens_of(b));
    } else if is_whitespace(a[0]) {
        assert(s[0] == a[0]);
        assert(s.skip(1) == a.skip(1) + seq![c] + b);
        lemma_tokens_of_concat(a.skip(1), c, b);
    } else {
        let n = word_len(a) as int;
        lemma_word_len_bounds(a);
        assert forall|i: int| 0 <= i < n implies !is_whitespace(#[trigger] s[i]) by {
            assert(s[i] == a[i]);
        }
        if n == a.len() {
            assert(s[n] == c);
        } else {
            assert(s[n] == a[n]);
        }
        lemma_word_len(s, n);
        assert(s.take(n) == a.take(n));
        assert(s.skip(n) == a.skip(n) + seq![c] + b);
        lemma_tokens_of_concat(a.skip(n), c, b);
        assert(seq![a.take(n)] + (tokens_of(a.skip(n)) + tokens_of(b)) == (seq![a.take(n)]
            + tokens_of(a.skip(n))) + tokens_of(b));
    }
}

/// Joining tokens with one space and splitting the result gives the tokens
/// back.
pub proof fn lemma_tokens_of_joined(ts: Seq<Seq<char>>)
    requires
        all_tokens(ts),
    ensures
        tokens_of(joined(ts, seq![' '])) == ts,
    decreases ts.len(),
{
    if ts.len() == 0 {
    } else if ts.len() == 1 {
        lemma_tokens_of_token(ts[0]);
        assert(seq![ts[0]] == ts);
    } else {
        let front = ts.drop_last();
        assert(all_tokens(front)) by {
            assert forall|i: int| 0 <= i < front.len() implies is_token(#[trigger] front[i]) by {
                assert(front[i] == ts[i]);
            }
        }
        lemma_tokens_of_joined(front);
        assert(is_token(ts.last()));
        lemma_tokens_of_token(ts.last());
        lemma_tokens_of_concat(joined(front, seq![' ']), ' ', ts.last());
        assert(joined(ts, seq![' ']) == joined(front, seq![' ']) + seq![' '] + ts.last());
        assert(front + seq![ts.last()] == ts);
    }
}

/// Split `content` on white space into its tokens, in order.
pub fn tokenize(content: &str) -> (tokens: Vec<String>)
    ensures
        tokens.deep_view() == tokens_of(content@),
        all_tokens(tokens.deep_view()),
{
    let chars = to_chars(content);
    let tokens = tokenize_chars(&chars);
    proof {
        lemma_tokens_are_tokens(content@);
    }
    tokens
}

/// The tokens of the text held in `chars`.
pub fn tokenize_chars(chars: &Vec<char>) -> (tokens: Vec<String>)
    ensures
        tokens.deep_view() == tokens_of(chars@),
{
    let mut tokens: Vec<String> = Vec::new();
    let n = chars.len();
    let mut i: usize = 0;
    assert(chars@.skip(0) == chars@);
    assert(tokens.deep_view() == Seq::<Seq<char>>::empty());
    assert(Seq::<Seq<char>>::empty() + tokens_of(chars@) == tokens_of(chars@));
    while i < n
        invariant
            n == chars.len(),
            i <= n,
            tokens_of(chars@) == tokens.deep_view() + tokens_of(chars@.skip(i as int)),
        decreases n - i,
    {
        let ghost rest = chars@.skip(i as int);
        assert(rest[0] == chars@[i as int]);
        if whitespace(chars[i]) {
            assert(rest.skip(1) == chars@.skip(i + 1));
            i += 1;
        } else {
            let start = i;
            while i < n && !whitespace(chars[i])
                invariant
                    n == chars.len(),
                    start <= i <= n,
                    forall|k: int| start <= k < i ==> !is_whitespace(#[trigger] chars@[k]),
                decreases n - i,
            {
                i += 1;
            }
            let token = string_of_range(chars, start, i);
            proof {
                let len = i - start;
                assert forall|k: int| 0 <= k < len implies !is_whitespace(#[trigger] rest[k]) by {
                    assert(rest[k] == chars@[start + k]);
                }
                if len != rest.len() {
                    assert(rest[len] == chars@[i as int]);
                }
                lemma_word_len(rest, len);
                assert(rest.take(len) == chars@.subrange(start as int, i as int));
                assert(rest.skip(len) == chars@.skip(i as int));
                let old_view = tokens.deep_view();
                assert(old_view.push(token@) + tokens_of(chars@.skip(i as int)) == old_view + (
                seq![token@] + tokens_of(chars@.skip(i as int))));
            }
            let ghost before = tokens.deep_view();
            tokens.push(token);
            assert(tokens.deep_view() == before.push(token@));
        }
    }
    assert(chars@.skip(n as int).len() == 0);
    assert(tokens.deep_view() + Seq::<Seq<char>>::empty() == tokens.deep_view());
    tokens
}

/// Whether `token` is bounded by angle brackets.
pub fn placeholder(token: &str) -> (b: bool)
    ensures
        b == is_placeholder(token@),
{
    let chars = to_chars(token);
    let n = chars.len();
    n > 0 && chars[0] == '<' && chars[n - 1] == '>'
}

/// The elements of `tokens` in one string, with `sep` between each two
/// neighbours.
pub fn join(tokens: &Vec<String>, sep: &str) -> (text: String)
    ensures
        text@ == joined(tokens.deep_view(), sep@),
{
    let mut text = String::new();
    let mut i: usize = 0;
    let ghost all = tokens.deep_view();
    while i < tokens.len()
        invariant
            i <= tokens.len(),
            all == tokens.deep_view(),
            text@ == joined(all.take(i as int), sep@),
        decreases tokens.len() - i,
    {
        proof {
            let upto = all.take(i + 1);
            assert(upto.drop_last() == all.take(i as int));
            assert(upto.last() == tokens@[i as int]@);
            if i == 0 {
                assert(text@ + tokens@[i as int]@ == tokens@[i as int]@);
            }
        }
        if i > 0 {
            text.append(sep);
        }
        text.append(tokens[i].as_str());
        i += 1;
    }
    assert(all.take(tokens.len() as int) == all);
    text
}

} // verus!
