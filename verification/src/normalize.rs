//! Normalisation of text in which entities have been replaced: hyphens
//! become spaces, every word is stripped to the permitted alphabet, what
//! becomes empty is dropped, and the rest is joined with single spaces.
//!
//! The permitted alphabet is the one of `chars::is_permitted`: the letters
//! `a` to `z` and `A` to `Z`, and `/`. A token bounded by angle brackets is a
//! placeholder and is kept as it is.

use crate::chars::{is_permitted, is_whitespace, permitted, string_of, to_chars};
use crate::tokens::{
    all_tokens, is_placeholder, is_token, join, joined, lemma_tokens_are_tokens,
    lemma_tokens_of_joined, tokenize_chars, tokens_of,
};
use vstd::prelude::*;

verus! {

/// A hyphen separates words as a space does.
pub open spec fn spaced(c: char) -> char {
    if c == '-' {
        ' '
    } else {
        c
    }
}

/// `s` with a space in place of each hyphen.
pub open spec fn unhyphenated(s: Seq<char>) -> Seq<char> {
    s.map_values(|c: char| spaced(c))
}

/// A token as it is kept: a placeholder unchanged, another token without
/// the characters outside the permitted alphabet.
pub open spec fn stripped(token: Seq<char>) -> Seq<char> {
    if is_placeholder(token) {
        token
    } else {
        token.filter(|c: char| is_permitted(c))
    }
}

/// The tokens of the normalised text: those of `s`, hyphens taken as
/// spaces, each stripped, without the ones that stripping left empty.
pub open spec fn clean_tokens(s: Seq<char>) -> Seq<Seq<char>> {
    tokens_of(unhyphenated(s)).map_values(|t: Seq<char>| stripped(t)).filter(
        |t: Seq<char>| t.len() > 0,
    )
}

/// The normalised text: the clean tokens with one space between each two.
/// It holds no white space but these single spaces, none at its start and
/// none at its end.
pub open spec fn normalized(s: Seq<char>) -> Seq<char> {
    joined(clean_tokens(s), seq![' '])
}

/// A stripped token holds no white space.
pub proof fn lemma_stripped_no_whitespace(token: Seq<char>)
    requires
        is_token(token),
    ensures
        forall|i: int| 0 <= i < stripped(token).len() ==> !is_whitespace(#[trigger] stripped(token)[i]),
{
    if !is_placeholder(token) {
        let keep = |c: char| is_permitted(c);
        assert forall|i: int| 0 <= i < stripped(token).len() implies !is_whitespace(
            #[trigger] stripped(token)[i],
        ) by {
            token.lemma_filter_pred(keep, i);
        }
    }
}

/// The clean tokens are tokens: none is empty, none holds white space.
pub proof fn lemma_clean_tokens_are_tokens(s: Seq<char>)
    ensures
        all_tokens(clean_tokens(s)),
{
    let raw = tokens_of(unhyphenated(s));
    let strip = |t: Seq<char>| stripped(t);
    let full = |t: Seq<char>| t.len() > 0;
    let mapped = raw.map_values(strip);
    let clean = clean_tokens(s);
    lemma_tokens_are_tokens(unhyphenated(s));
    assert forall|i: int| 0 <= i < clean.len() implies is_token(#[trigger] clean[i]) by {
        mapped.lemma_filter_pred(full, i);
        mapped.lemma_filter_contains_rev(full, clean[i]);
        let j = choose|j: int| 0 <= j < mapped.len() && mapped[j] == clean[i];
        assert(mapped[j] == stripped(raw[j]));
        assert(is_token(raw[j]));
        lemma_stripped_no_whitespace(raw[j]);
    }
}

/// Splitting the normalised text gives exactly the clean tokens.
pub proof fn lemma_tokens_of_normalized(s: Seq<char>)
    ensures
        tokens_of(normalized(s)) == clean_tokens(s),
{
    lemma_clean_tokens_are_tokens(s);
    lemma_tokens_of_joined(clean_tokens(s));
}

/// `s` holds no hyphen.
pub open spec fn hyphen_free(s: Seq<char>) -> bool {
    forall|i: int| 0 <= i < s.len() ==> #[trigger] s[i] != '-'
}

/// A filter keeps a sequence whole where every element passes.
pub proof fn lemma_filter_keeps_all<A>(s: Seq<A>, pred: spec_fn(A) -> bool)
    requires
        forall|i: int| 0 <= i < s.len() ==> pred(#[trigger] s[i]),
    ensures
        s.filter(pred) == s,
    decreases s.len(),
{
    reveal(Seq::filter);
    if s.len() > 0 {
        let front = s.drop_last();
        assert forall|i: int| 0 <= i < front.len() implies pred(#[trigger] front[i]) by {
            assert(front[i] == s[i]);
        }
        lemma_filter_keeps_all(front, pred);
        assert(pred(s[s.len() - 1]));
        assert(front.push(s.last()) == s);
    }
}

/// A filter leaves nothing of a sequence where no element passes.
pub proof fn lemma_filter_drops_all<A>(s: Seq<A>, pred: spec_fn(A) -> bool)
    requires
        forall|i: int| 0 <= i < s.len() ==> !pred(#[trigger] s[i]),
    ensures
        s.filter(pred) == Seq::<A>::empty(),
    decreases s.len(),
{
    reveal(Seq::filter);
    if s.len() > 0 {
        let front = s.drop_last();
        assert forall|i: int| 0 <= i < front.len() implies !pred(#[trigger] front[i]) by {
            assert(front[i] == s[i]);
        }
        lemma_filter_drops_all(front, pred);
        assert(!pred(s[s.len() - 1]));
    }
}

/// The placeholders among the clean tokens are the placeholders among the
/// tokens before stripping: stripping neither makes nor unmakes one.
pub proof fn lemma_placeholders_survive(raw: Seq<Seq<char>>)
    ensures
        raw.map_values(|t: Seq<char>| stripped(t)).filter(|t: Seq<char>| t.len() > 0).filter(
            |t: Seq<char>| is_placeholder(t),
        ) == raw.filter(|t: Seq<char>| is_placeholder(t)),
    decreases raw.len(),
{
    let strip = |t: Seq<char>| stripped(t);
    let full = |t: Seq<char>| t.len() > 0;
    let marked = |t: Seq<char>| is_placeholder(t);
    let mapped = raw.map_values(strip);
    if raw.len() == 0 {
        mapped.lemma_filter_len(full);
        mapped.filter(full).lemma_filter_len(marked);
        raw.lemma_filter_len(marked);
    } else {
        let front = raw.drop_last();
        let last = raw.last();
        lemma_placeholders_survive(front);
        assert(front.push(last) == raw);
        assert(mapped =~= front.map_values(strip).push(stripped(last)));
        front.map_values(strip).lemma_filter_push(stripped(last), full);
        front.map_values(strip).filter(full).lemma_filter_push(stripped(last), marked);
        front.lemma_filter_push(last, marked);
        if !is_placeholder(last) {
            let keep = |c: char| is_permitted(c);
            let kept = last.filter(keep);
            if kept.len() > 0 {
                last.lemma_filter_pred(keep, 0);
                assert(keep(kept[0]));
            }
            assert(!is_placeholder(stripped(last)));
        }
    }
}

/// The tokens of text without hyphens hold no hyphen.
pub proof fn lemma_tokens_hyphen_free(s: Seq<char>)
    requires
        hyphen_free(s),
    ensures
        forall|i: int| 0 <= i < tokens_of(s).len() ==> hyphen_free(#[trigger] tokens_of(s)[i]),
    decreases s.len(),
{
    if s.len() == 0 {
    } else if is_whitespace(s[0]) {
        let rest = s.skip(1);
        assert forall|k: int| 0 <= k < rest.len() implies #[trigger] rest[k] != '-' by {
            assert(rest[k] == s[k + 1]);
        }
        assert(hyphen_free(rest));
        lemma_tokens_hyphen_free(rest);
        assert(tokens_of(s) == tokens_of(rest));
    } else {
        let n = crate::tokens::word_len(s) as int;
        crate::tokens::lemma_word_len_bounds(s);
        let head = s.take(n);
        let rest = s.skip(n);
        assert forall|k: int| 0 <= k < rest.len() implies #[trigger] rest[k] != '-' by {
            assert(rest[k] == s[k + n]);
        }
        assert forall|k: int| 0 <= k < head.len() implies #[trigger] head[k] != '-' by {
            assert(head[k] == s[k]);
        }
        assert(hyphen_free(head));
        assert(hyphen_free(rest));
        lemma_tokens_hyphen_free(rest);
        let all = seq![head] + tokens_of(rest);
        assert(tokens_of(s) == all);
        assert forall|i: int| 0 <= i < all.len() implies hyphen_free(#[trigger] all[i]) by {
            if i > 0 {
                assert(all[i] == tokens_of(rest)[i - 1]);
            } else {
                assert(all[i] == head);
            }
        }
    }
}

/// Stripping a token again changes nothing, and it brings in no hyphen.
pub proof fn lemma_stripped_is_fixed(token: Seq<char>)
    ensures
        stripped(stripped(token)) == stripped(token),
        hyphen_free(token) ==> hyphen_free(stripped(token)),
{
    if !is_placeholder(token) {
        let keep = |c: char| is_permitted(c);
        let kept = token.filter(keep);
        assert forall|i: int| 0 <= i < kept.len() implies keep(#[trigger] kept[i]) by {
            token.lemma_filter_pred(keep, i);
        }
        if kept.len() > 0 {
            assert(keep(kept[0]));
        }
        assert(!is_placeholder(kept));
        lemma_filter_keeps_all(kept, keep);
        assert forall|i: int| 0 <= i < kept.len() implies #[trigger] kept[i] != '-' by {
            assert(keep(kept[i]));
        }
    }
}

/// Tokens without hyphens, joined with a space, make text without hyphens.
pub proof fn lemma_joined_hyphen_free(tokens: Seq<Seq<char>>)
    requires
        forall|i: int| 0 <= i < tokens.len() ==> hyphen_free(#[trigger] tokens[i]),
    ensures
        hyphen_free(joined(tokens, seq![' '])),
    decreases tokens.len(),
{
    if tokens.len() == 1 {
        assert(hyphen_free(tokens[0]));
    } else if tokens.len() > 1 {
        let front = tokens.drop_last();
        assert forall|i: int| 0 <= i < front.len() implies hyphen_free(#[trigger] front[i]) by {
            assert(front[i] == tokens[i]);
        }
        lemma_joined_hyphen_free(front);
        assert(hyphen_free(tokens[tokens.len() - 1]));
    }
}

/// Normalised text is normalised: to normalise it again changes nothing.
pub proof fn lemma_normalized_is_fixed(s: Seq<char>)
    ensures
        normalized(normalized(s)) == normalized(s),
{
    let strip = |t: Seq<char>| stripped(t);
    let full = |t: Seq<char>| t.len() > 0;
    let plain = unhyphenated(s);
    let raw = tokens_of(plain);
    let mapped = raw.map_values(strip);
    let clean = clean_tokens(s);
    assert(hyphen_free(plain));
    lemma_tokens_hyphen_free(plain);
    lemma_clean_tokens_are_tokens(s);
    assert forall|i: int| 0 <= i < clean.len() implies hyphen_free(#[trigger] clean[i])
        && stripped(clean[i]) == clean[i] && full(clean[i]) by {
        mapped.lemma_filter_pred(full, i);
        mapped.lemma_filter_contains_rev(full, clean[i]);
        let j = choose|j: int| 0 <= j < mapped.len() && mapped[j] == clean[i];
        assert(mapped[j] == stripped(raw[j]));
        assert(hyphen_free(raw[j]));
        lemma_stripped_is_fixed(raw[j]);
    }
    lemma_joined_hyphen_free(clean);
    let text = normalized(s);
    assert(unhyphenated(text) =~= text);
    lemma_tokens_of_normalized(s);
    assert(clean.map_values(strip) =~= clean);
    lemma_filter_keeps_all(clean, full);
    assert(clean_tokens(text) == clean);
}

/// `token` as it is kept.
pub fn strip_token(token: &str) -> (kept: String)
    ensures
        kept@ == stripped(token@),
{
    let chars = to_chars(token);
    let n = chars.len();
    if n > 0 && chars[0] == '<' && chars[n - 1] == '>' {
        return string_of(&chars);
    }
    let ghost keep = |c: char| is_permitted(c);
    let mut out: Vec<char> = Vec::new();
    let mut i: usize = 0;
    proof {
        assert(chars@.take(0).len() == 0);
        chars@.take(0).lemma_filter_len(keep);
        assert(out@ == chars@.take(0).filter(keep));
    }
    while i < n
        invariant
            n == chars.len(),
            i <= n,
            keep == |c: char| is_permitted(c),
            out@ == chars@.take(i as int).filter(keep),
        decreases n - i,
    {
        proof {
            assert(chars@.take(i + 1) == chars@.take(i as int).push(chars@[i as int]));
            chars@.take(i as int).lemma_filter_push(chars@[i as int], keep);
        }
        if permitted(chars[i]) {
            out.push(chars[i]);
        }
        i += 1;
    }
    assert(chars@.take(n as int) == chars@);
    string_of(&out)
}

/// The clean tokens of `text`.
pub fn clean_token_list(text: &str) -> (tokens: Vec<String>)
    ensures
        tokens.deep_view() == clean_tokens(text@),
        all_tokens(tokens.deep_view()),
{
    let mut chars = to_chars(text);
    let n = chars.len();
    let mut i: usize = 0;
    while i < n
        invariant
            n == chars.len(),
            i <= n,
            chars@.len() == text@.len(),
            forall|k: int| 0 <= k < i ==> #[trigger] chars@[k] == spaced(text@[k]),
            forall|k: int| i <= k < n ==> #[trigger] chars@[k] == text@[k],
        decreases n - i,
    {
        if chars[i] == '-' {
            chars.set(i, ' ');
        }
        i += 1;
    }
    assert(chars@ == unhyphenated(text@));
    let raw = tokenize_chars(&chars);
    let ghost strip = |t: Seq<char>| stripped(t);
    let ghost full = |t: Seq<char>| t.len() > 0;
    let ghost mapped = raw.deep_view().map_values(strip);
    let mut tokens: Vec<String> = Vec::new();
    let mut j: usize = 0;
    proof {
        assert(mapped.take(0).len() == 0);
        mapped.take(0).lemma_filter_len(full);
        assert(tokens.deep_view() == mapped.take(0).filter(full));
    }
    while j < raw.len()
        invariant
            j <= raw.len(),
            strip == |t: Seq<char>| stripped(t),
            full == |t: Seq<char>| t.len() > 0,
            mapped == raw.deep_view().map_values(strip),
            tokens.deep_view() == mapped.take(j as int).filter(full),
        decreases raw.len() - j,
    {
        let kept = strip_token(raw[j].as_str());
        proof {
            assert(raw.deep_view()[j as int] == raw@[j as int]@);
            assert(mapped[j as int] == kept@);
            assert(mapped.take(j + 1) == mapped.take(j as int).push(kept@));
            mapped.take(j as int).lemma_filter_push(kept@, full);
        }
        if !kept.as_str().is_empty() {
            let ghost before = tokens.deep_view();
            tokens.push(kept);
            assert(tokens.deep_view() == before.push(kept@));
        }
        j += 1;
    }
    proof {
        assert(mapped.take(raw.len() as int) == mapped);
        lemma_clean_tokens_are_tokens(text@);
    }
    tokens
}

/// Normalise `text`: hyphens become spaces, placeholders stay, every other
/// token keeps its permitted characters only, empty tokens go, and single
/// spaces join what is left.
pub fn normalize(text: &str) -> (out: String)
    ensures
        out@ == normalized(text@),
{
    let tokens = clean_token_list(text);
    proof {
        reveal_strlit(" ");
        assert(" "@ == seq![' ']);
    }
    join(&tokens, " ")
}

} // verus!
