//! Stemming: every word of a token sequence is reduced to its stem by the
//! English Snowball stemmer of the `rust_stemmers` crate.
//!
//! Placeholders are exempt: a token bounded by angle brackets passes
//! unchanged. So does a token that holds a character outside ASCII, or one
//! longer than `MAX_STEM_LEN`: the stemmer is only handed what it was made
//! for. The words of normalised text are all ASCII.

use crate::tokens::{is_placeholder, placeholder};
use vstd::prelude::*;
use vstd::string::StrSliceExecFns;
use vstd::utf8::is_ascii_chars;

verus! {

/// The longest word, in characters, that is handed to the stemmer. The
/// stemmer keeps its offsets in 32-bit signed integers.
pub const MAX_STEM_LEN: usize = 0x7fff_ffff;

/// The stem of a word, as the English stemmer of `rust_stemmers` gives it.
/// The algorithm has no short definition; the stem is a function of the
/// word alone.
pub uninterp spec fn english_stem(word: Seq<char>) -> Seq<char>;

/// A token that is stemmed: no placeholder, ASCII only, and not longer than
/// `MAX_STEM_LEN`.
pub open spec fn is_stemmable(token: Seq<char>) -> bool {
    !is_placeholder(token) && is_ascii_chars(token) && token.len() <= MAX_STEM_LEN
}

/// A token after stemming.
pub open spec fn stemmed(token: Seq<char>) -> Seq<char> {
    if is_stemmable(token) {
        english_stem(token)
    } else {
        token
    }
}

/// A token sequence after stemming: token by token, in the same order.
pub open spec fn stemmed_tokens(tokens: Seq<Seq<char>>) -> Seq<Seq<char>> {
    tokens.map_values(|t: Seq<char>| stemmed(t))
}

/// `Stemmer::stem` of the `rust_stemmers` crate, on the stemmer that
/// `Stemmer::create` makes for `Algorithm::English`: the result is the stem
/// of `word`, the same for the same word.
#[verifier::external_body]
fn stem_word(word: &str) -> (stem: String)
    requires
        is_ascii_chars(word@),
        word@.len() <= MAX_STEM_LEN,
    ensures
        stem@ == english_stem(word@),
{
    rust_stemmers::Stemmer::create(rust_stemmers::Algorithm::English).stem(word).into_owned()
}

/// Stem one token.
pub fn stem_token(token: &str) -> (stem: String)
    ensures
        stem@ == stemmed(token@),
{
    if placeholder(token) || !token.is_ascii() {
        return token.to_owned();
    }
    if token.unicode_len() > MAX_STEM_LEN {
        return token.to_owned();
    }
    stem_word(token)
}

/// Stem every token of a sequence.
pub fn stem_tokens(tokens: &Vec<String>) -> (stems: Vec<String>)
    ensures
        stems.deep_view() == stemmed_tokens(tokens.deep_view()),
        stems.len() == tokens.len(),
{
    let ghost all = tokens.deep_view();
    let mut stems: Vec<String> = Vec::new();
    let mut i: usize = 0;
    while i < tokens.len()
        invariant
            i <= tokens.len(),
            all == tokens.deep_view(),
            stems.deep_view() == stemmed_tokens(all.take(i as int)),
        decreases tokens.len() - i,
    {
        let stem = stem_token(tokens[i].as_str());
        let ghost before = stems.deep_view();
        stems.push(stem);
        proof {
            assert(stems.deep_view() == before.push(stem@));
            assert(all[i as int] == tokens@[i as int]@);
            assert(all.take(i + 1) == all.take(i as int).push(all[i as int]));
            assert(stemmed_tokens(all.take(i + 1)) == stemmed_tokens(all.take(i as int)).push(
                stemmed(all[i as int]),
            ));
        }
        i += 1;
    }
    assert(all.take(tokens.len() as int) == all);
    stems
}

} // verus!
