//! The stopword set and the filter that drops stopwords from a token
//! sequence.

use crate::chars::{string_of_range, to_chars};
use crate::text::{
    lemma_line_len, lines_of, lowercase, lowercase_of, trim_bounds, trimmed,
};
use crate::tokens::{is_placeholder, placeholder};
use fxhash::FxHashSet;
use std::hash::BuildHasherDefault;
use vstd::prelude::*;

verus! {

/// `fxhash::FxHasher`, the hasher of an `FxHashSet`. Nothing of its inside
/// is known here.
#[verifier::external_type_specification]
#[verifier::external_body]
pub struct ExFxHasher(fxhash::FxHasher);

/// `std::hash::BuildHasherDefault`, which makes the hashers of an
/// `FxHashSet`. Nothing of its inside is known here.
#[verifier::external_type_specification]
#[verifier::external_body]
#[verifier::reject_recursive_types(H)]
pub struct ExBuildHasherDefault<H>(BuildHasherDefault<H>);

/// The strings that a hash set of words holds, each as its characters.
pub uninterp spec fn members_of(words: FxHashSet<String>) -> Set<Seq<char>>;

/// `FxHashSet::default`: a set that holds nothing.
#[verifier::external_body]
fn empty_words() -> (words: FxHashSet<String>)
    ensures
        members_of(words) == Set::<Seq<char>>::empty(),
{
    FxHashSet::default()
}

/// `HashSet::insert` on an `FxHashSet<String>`: afterwards the set holds
/// `word` beside what it held before.
#[verifier::external_body]
fn insert_word(words: &mut FxHashSet<String>, word: String)
    ensures
        members_of(*final(words)) == members_of(*old(words)).insert(word@),
{
    words.insert(word);
}

/// `HashSet::contains` on an `FxHashSet<String>`: whether the set holds a
/// string equal to `word`.
#[verifier::external_body]
fn holds_word(words: &FxHashSet<String>, word: &str) -> (found: bool)
    ensures
        found == members_of(*words).contains(word@),
{
    words.contains(word)
}

/// The form in which a stopword is kept: without the white space around it,
/// in lower case.
pub open spec fn normal_form(word: Seq<char>) -> Seq<char> {
    lowercase_of(trimmed(word))
}

/// The normal forms of the elements of `lines`.
pub open spec fn normal_forms(lines: Seq<Seq<char>>) -> Set<Seq<char>> {
    Set::new(
        |w: Seq<char>|
            exists|i: int| 0 <= i < lines.len() && w == normal_form(#[trigger] lines[i]),
    )
}

/// A token that the filter drops: one whose lower-case form is in `set`,
/// unless the token is a placeholder.
pub open spec fn is_stopword(token: Seq<char>, set: Set<Seq<char>>) -> bool {
    !is_placeholder(token) && set.contains(lowercase_of(token))
}

/// The test by which the filter keeps a token.
pub open spec fn keeps(set: Set<Seq<char>>) -> spec_fn(Seq<char>) -> bool {
    |token: Seq<char>| !is_stopword(token, set)
}

/// The tokens that are left of `tokens` once the stopwords of `set` are
/// dropped: order and repetitions stay.
pub open spec fn kept_tokens(tokens: Seq<Seq<char>>, set: Set<Seq<char>>) -> Seq<Seq<char>> {
    tokens.filter(keeps(set))
}

/// A set of stopwords. It is filled when it is built and only read
/// afterwards. Its view is the set of the words it holds.
pub struct StopwordSet {
    words: FxHashSet<String>,
}

impl View for StopwordSet {
    type V = Set<Seq<char>>;

    closed spec fn view(&self) -> Set<Seq<char>> {
        members_of(self.words)
    }
}

impl StopwordSet {
    /// The set without any word.
    pub fn new() -> (set: StopwordSet)
        ensures
            set@ == Set::<Seq<char>>::empty(),
    {
        StopwordSet { words: empty_words() }
    }

    /// Add `word` in its normal form.
    pub fn insert(&mut self, word: &str)
        ensures
            final(self)@ == old(self)@.insert(normal_form(word@)),
    {
        let chars = to_chars(word);
        assert(chars@.subrange(0, chars@.len() as int) == chars@);
        let (a, b) = trim_bounds(&chars, 0, chars.len());
        let bare = string_of_range(&chars, a, b);
        let lower = lowercase(bare.as_str());
        insert_word(&mut self.words, lower);
    }

    /// Whether the set holds exactly `word`.
    pub fn contains(&self, word: &str) -> (found: bool)
        ensures
            found == self@.contains(word@),
    {
        holds_word(&self.words, word)
    }

    /// The set of the lines of `text`, each in its normal form.
    pub fn from_lines(text: &str) -> (set: StopwordSet)
        ensures
            set@ == normal_forms(lines_of(text@)),
    {
        let chars = to_chars(text);
        let n = chars.len();
        let mut set = StopwordSet::new();
        let mut i: usize = 0;
        proof {
            assert(chars@.skip(0) == chars@);
            assert(set@.union(normal_forms(lines_of(chars@))) == normal_forms(lines_of(chars@)));
        }
        while i < n
            invariant
                n == chars.len(),
                i <= n,
                set@.union(normal_forms(lines_of(chars@.skip(i as int)))) == normal_forms(
                    lines_of(chars@),
                ),
            decreases n - i,
        {
            let ghost rest = chars@.skip(i as int);
            let start = i;
            while i < n && chars[i] != '\n'
                invariant
                    n == chars.len(),
                    start <= i <= n,
                    forall|k: int| start <= k < i ==> #[trigger] chars@[k] != '\n',
                decreases n - i,
            {
                i += 1;
            }
            let (a, b) = trim_bounds(&chars, start, i);
            let bare = string_of_range(&chars, a, b);
            let lower = lowercase(bare.as_str());
            let ghost before = set@;
            insert_word(&mut set.words, lower);
            proof {
                let len = i - start;
                assert forall|k: int| 0 <= k < len implies #[trigger] rest[k] != '\n' by {
                    assert(rest[k] == chars@[start + k]);
                }
                if len != rest.len() {
                    assert(rest[len] == chars@[i as int]);
                }
                lemma_line_len(rest, len);
                let line = chars@.subrange(start as int, i as int);
                assert(rest.take(len) == line);
                assert(lower@ == normal_form(line));
                let tail = if i < n {
                    lines_of(chars@.skip(i + 1))
                } else {
                    Seq::<Seq<char>>::empty()
                };
                if i < n {
                    assert(rest.skip(len + 1) == chars@.skip(i + 1));
                } else {
                    assert(rest == line);
                    assert(seq![line] + tail == seq![line]);
                }
                assert(lines_of(rest) == seq![line] + tail);
                lemma_normal_forms_cons(line, tail);
                assert(before.insert(normal_form(line)).union(normal_forms(tail)) == before.union(
                    normal_forms(tail).insert(normal_form(line)),
                ));
            }
            if i < n {
                i += 1;
            } else {
                proof {
                    assert(chars@.skip(n as int).len() == 0);
                }
            }
        }
        proof {
            assert(chars@.skip(n as int).len() == 0);
            assert(normal_forms(Seq::<Seq<char>>::empty()) == Set::<Seq<char>>::empty());
            assert(set@.union(Set::<Seq<char>>::empty()) == set@);
        }
        set
    }
}

/// The normal forms of a sequence with one more line in front.
pub proof fn lemma_normal_forms_cons(line: Seq<char>, tail: Seq<Seq<char>>)
    ensures
        normal_forms(seq![line] + tail) == normal_forms(tail).insert(normal_form(line)),
{
    let all = seq![line] + tail;
    assert forall|w: Seq<char>|
        normal_forms(all).contains(w) <==> normal_forms(tail).insert(normal_form(line)).contains(
            w,
        ) by {
        if normal_forms(all).contains(w) {
            let i = choose|i: int| 0 <= i < all.len() && w == normal_form(#[trigger] all[i]);
            if i > 0 {
                assert(all[i] == tail[i - 1]);
            }
        }
        if normal_forms(tail).contains(w) {
            let j = choose|j: int| 0 <= j < tail.len() && w == normal_form(#[trigger] tail[j]);
            assert(all[j + 1] == tail[j]);
        }
        if w == normal_form(line) {
            assert(all[0] == line);
        }
    }
    assert(normal_forms(all) =~= normal_forms(tail).insert(normal_form(line)));
}

/// Filtering never adds a token, and it keeps the length exactly where
/// no token of the sequence is a stopword.
pub proof fn lemma_kept_tokens_len(tokens: Seq<Seq<char>>, set: Set<Seq<char>>)
    ensures
        kept_tokens(tokens, set).len() <= tokens.len(),
        kept_tokens(tokens, set).len() == tokens.len() <==> forall|i: int|
            0 <= i < tokens.len() ==> !is_stopword(#[trigger] tokens[i], set),
    decreases tokens.len(),
{
    if tokens.len() == 0 {
        tokens.lemma_filter_len(keeps(set));
    } else {
        let front = tokens.drop_last();
        let last = tokens.last();
        lemma_kept_tokens_len(front, set);
        assert(front.push(last) == tokens);
        front.lemma_filter_len_push(keeps(set), last);
        if forall|i: int| 0 <= i < tokens.len() ==> !is_stopword(#[trigger] tokens[i], set) {
            assert forall|i: int| 0 <= i < front.len() implies !is_stopword(
                #[trigger] front[i],
                set,
            ) by {
                assert(front[i] == tokens[i]);
            }
            assert(!is_stopword(tokens[tokens.len() - 1], set));
        }
        if kept_tokens(tokens, set).len() == tokens.len() {
            assert forall|i: int| 0 <= i < tokens.len() implies !is_stopword(
                #[trigger] tokens[i],
                set,
            ) by {
                if i < front.len() {
                    assert(front[i] == tokens[i]);
                }
            }
        }
    }
}

/// Whether the filter drops `token`.
pub fn stopword(token: &str, stopwords: &StopwordSet) -> (b: bool)
    ensures
        b == is_stopword(token@, stopwords@),
{
    if placeholder(token) {
        false
    } else {
        let lower = lowercase(token);
        stopwords.contains(lower.as_str())
    }
}

/// Drop from `tokens` every token whose lower-case form is in `stopwords`.
/// Placeholders always stay. What stays keeps its order.
pub fn remove_stopwords(tokens: Vec<String>, stopwords: &StopwordSet) -> (kept: Vec<String>)
    ensures
        kept.deep_view() == kept_tokens(tokens.deep_view(), stopwords@),
        kept.len() <= tokens.len(),
        kept.len() == tokens.len() <==> forall|i: int|
            0 <= i < tokens.len() ==> !is_stopword(#[trigger] tokens.deep_view()[i], stopwords@),
{
    let ghost all = tokens.deep_view();
    let ghost pred = keeps(stopwords@);
    let mut kept: Vec<String> = Vec::new();
    let mut i: usize = 0;
    proof {
        assert(all.take(0).len() == 0);
        all.take(0).lemma_filter_len(pred);
        assert(kept.deep_view() == all.take(0).filter(pred));
    }
    while i < tokens.len()
        invariant
            i <= tokens.len(),
            all == tokens.deep_view(),
            pred == keeps(stopwords@),
            kept.deep_view() == all.take(i as int).filter(pred),
        decreases tokens.len() - i,
    {
        proof {
            assert(all.take(i + 1) == all.take(i as int).push(tokens@[i as int]@));
            all.take(i as int).lemma_filter_push(tokens@[i as int]@, pred);
        }
        if !stopword(tokens[i].as_str(), stopwords) {
            let ghost before = kept.deep_view();
            let token = tokens[i].clone();
            kept.push(token);
            assert(kept.deep_view() == before.push(tokens@[i as int]@));
        }
        i += 1;
    }
    proof {
        assert(all.take(tokens.len() as int) == all);
        lemma_kept_tokens_len(all, stopwords@);
    }
    kept
}

} // verus!
