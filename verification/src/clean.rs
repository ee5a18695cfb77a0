//! Cleaning a text: lower case, entities replaced by placeholders and
//! recorded, the rest normalised.

use crate::entities::{
    extracted, insert_for, kind_of, lemma_no_match_no_change, lemma_placeholders,
    lemma_replacement_is_one_token, matched_groups, placeholder_of, reassembles, replacement_of,
    unmatched_pieces, with_kind, woven, EntityExtractor, EntityKind, Extracted, Extraction,
};
use crate::normalize::{
    clean_tokens, lemma_filter_drops_all, lemma_normalized_is_fixed, lemma_placeholders_survive,
    lemma_tokens_of_normalized, normalize, normalized, unhyphenated,
};
use crate::text::{lowercase, lowercase_of};
use crate::tokens::{is_placeholder, lemma_tokens_chars, tokens_of};
use vstd::prelude::*;

verus! {

/// An extraction with its text normalised; the recorded matches stay.
pub open spec fn tidied(found: Extracted) -> Extracted {
    Extracted {
        text: normalized(found.text),
        dates: found.dates,
        emails: found.emails,
        urls: found.urls,
        numbers: found.numbers,
    }
}

/// What cleaning makes of `text` with the entity pattern `pattern`: the
/// text goes to lower case, the matches of the pattern in it are replaced
/// and recorded, and what comes out is normalised.
pub open spec fn cleaned(pattern: Seq<char>, text: Seq<char>) -> Extracted {
    let lower = lowercase_of(text);
    tidied(extracted(unmatched_pieces(pattern, lower), matched_groups(pattern, lower)))
}

/// An angle bracket.
pub open spec fn is_bracket(c: char) -> bool {
    c == '<' || c == '>'
}

/// `s` holds no angle bracket.
pub open spec fn bracket_free(s: Seq<char>) -> bool {
    forall|i: int| 0 <= i < s.len() ==> !is_bracket(#[trigger] s[i])
}

/// The placeholders among `tokens`, in their order.
pub open spec fn placeholders_in(tokens: Seq<Seq<char>>) -> Seq<Seq<char>> {
    tokens.filter(|t: Seq<char>| is_placeholder(t))
}

/// The placeholders of the matches that have a kind, in the order of the
/// matches.
pub open spec fn placeholders_of(found: Seq<Seq<Option<Seq<char>>>>) -> Seq<Seq<char>> {
    with_kind(found).map_values(
        |groups: Seq<Option<Seq<char>>>| placeholder_of(kind_of(groups)->0),
    )
}

/// The inserts for a sequence of matches.
pub open spec fn inserts_for(found: Seq<Seq<Option<Seq<char>>>>) -> Seq<Seq<char>> {
    found.map_values(|groups: Seq<Option<Seq<char>>>| insert_for(groups))
}

/// Cleaning cleaned text again gives it back and records nothing, where
/// lower case leaves the cleaned text as it is and the pattern finds
/// nothing in it.
pub proof fn lemma_clean_again_without_match(pattern: Seq<char>, text: Seq<char>)
    requires
        lowercase_of(cleaned(pattern, text).text) == cleaned(pattern, text).text,
        matched_groups(pattern, cleaned(pattern, text).text).len() == 0,
        reassembles(
            unmatched_pieces(pattern, cleaned(pattern, text).text),
            matched_groups(pattern, cleaned(pattern, text).text),
            cleaned(pattern, text).text,
        ),
    ensures
        cleaned(pattern, cleaned(pattern, text).text).text == cleaned(pattern, text).text,
        cleaned(pattern, cleaned(pattern, text).text).dates.len() == 0,
        cleaned(pattern, cleaned(pattern, text).text).emails.len() == 0,
        cleaned(pattern, cleaned(pattern, text).text).urls.len() == 0,
        cleaned(pattern, cleaned(pattern, text).text).numbers.len() == 0,
{
    let lower = lowercase_of(text);
    let first = extracted(unmatched_pieces(pattern, lower), matched_groups(pattern, lower));
    let t = cleaned(pattern, text).text;
    assert(t == normalized(first.text));
    lemma_no_match_no_change(unmatched_pieces(pattern, t), matched_groups(pattern, t), t);
    lemma_normalized_is_fixed(first.text);
}

/// The pieces woven into text without angle brackets hold none.
pub proof fn lemma_woven_pieces_bracket_free(pieces: Seq<Seq<char>>, inserts: Seq<Seq<char>>)
    requires
        bracket_free(woven(pieces, inserts)),
    ensures
        forall|i: int| 0 <= i < pieces.len() ==> bracket_free(#[trigger] pieces[i]),
    decreases pieces.len(),
{
    if pieces.len() > 0 {
        let front = pieces.drop_last();
        let last = pieces.last();
        let n = pieces.len() - 1;
        let insert = if 0 < n <= inserts.len() {
            inserts[n - 1]
        } else {
            Seq::<char>::empty()
        };
        let head = woven(front, inserts);
        let whole = woven(pieces, inserts);
        assert(whole == head + insert + last);
        assert forall|k: int| 0 <= k < head.len() implies !is_bracket(#[trigger] head[k]) by {
            assert(head[k] == whole[k]);
        }
        assert forall|k: int| 0 <= k < last.len() implies !is_bracket(#[trigger] last[k]) by {
            assert(last[k] == whole[head.len() + insert.len() + k]);
        }
        lemma_woven_pieces_bracket_free(front, inserts);
        assert forall|i: int| 0 <= i < pieces.len() implies bracket_free(#[trigger] pieces[i]) by {
            if i < front.len() {
                assert(pieces[i] == front[i]);
            }
        }
    }
}

/// Text without angle brackets holds no placeholder token, hyphens taken
/// as spaces or not.
pub proof fn lemma_bracket_free_no_placeholder(s: Seq<char>)
    requires
        bracket_free(s),
    ensures
        placeholders_in(tokens_of(unhyphenated(s))) == Seq::<Seq<char>>::empty(),
{
    let plain = unhyphenated(s);
    let ok = |c: char| !is_bracket(c);
    assert forall|i: int| 0 <= i < plain.len() implies ok(#[trigger] plain[i]) by {
        assert(!is_bracket(s[i]));
    }
    lemma_tokens_chars(plain, ok);
    let tokens = tokens_of(plain);
    let marked = |t: Seq<char>| is_placeholder(t);
    assert forall|i: int| 0 <= i < tokens.len() implies !marked(#[trigger] tokens[i]) by {
        if tokens[i].len() > 0 {
            assert(ok(tokens[i][0]));
        }
    }
    lemma_filter_drops_all(tokens, marked);
}

/// The placeholder tokens of text around one replacement: those of the
/// text before, then the placeholder, then those of the text behind.
pub proof fn lemma_placeholders_around(before: Seq<char>, kind: EntityKind, behind: Seq<char>)
    ensures
        placeholders_in(tokens_of(unhyphenated(before + replacement_of(kind) + behind)))
            == placeholders_in(tokens_of(unhyphenated(before))).push(placeholder_of(kind))
            + placeholders_in(tokens_of(unhyphenated(behind))),
{
    let marked = |t: Seq<char>| is_placeholder(t);
    let a = unhyphenated(before);
    let b = unhyphenated(behind);
    let token = placeholder_of(kind);
    reveal_strlit("<DATE>");
    reveal_strlit("<EMAIL>");
    reveal_strlit("<URL>");
    reveal_strlit("<NUMBER>");
    assert(unhyphenated(replacement_of(kind)) =~= replacement_of(kind));
    assert(unhyphenated(before + replacement_of(kind) + behind) =~= a + replacement_of(kind) + b);
    lemma_replacement_is_one_token(a, kind, b);
    lemma_placeholders(kind);
    let one = seq![token];
    Seq::filter_distributes_over_add(tokens_of(a) + one, tokens_of(b), marked);
    Seq::filter_distributes_over_add(tokens_of(a), one, marked);
    Seq::<Seq<char>>::empty().lemma_filter_len(marked);
    Seq::<Seq<char>>::empty().lemma_filter_push(token, marked);
    assert(Seq::<Seq<char>>::empty().push(token) =~= one);
    assert(one.filter(marked) =~= one);
    assert(tokens_of(a).filter(marked) + one =~= tokens_of(a).filter(marked).push(token));
}

/// The placeholder tokens of the first `m` pieces woven with their
/// inserts, with text without angle brackets behind them, are the
/// placeholders of the first `m - 1` matches.
pub proof fn lemma_woven_placeholders(
    pieces: Seq<Seq<char>>,
    found: Seq<Seq<Option<Seq<char>>>>,
    m: int,
    behind: Seq<char>,
)
    requires
        1 <= m <= pieces.len(),
        pieces.len() == found.len() + 1,
        forall|i: int| 0 <= i < pieces.len() ==> bracket_free(#[trigger] pieces[i]),
        bracket_free(behind),
    ensures
        placeholders_in(
            tokens_of(unhyphenated(woven(pieces.take(m), inserts_for(found)) + behind)),
        ) == placeholders_of(found.take(m - 1)),
    decreases m,
{
    let inserts = inserts_for(found);
    let some = |groups: Seq<Option<Seq<char>>>| kind_of(groups) is Some;
    let name = |groups: Seq<Option<Seq<char>>>| placeholder_of(kind_of(groups)->0);
    let upto = pieces.take(m);
    let last = pieces[m - 1];
    assert(upto.last() == last);
    assert(upto.drop_last() == pieces.take(m - 1));
    assert(bracket_free(last));
    let tail = last + behind;
    assert(bracket_free(tail)) by {
        assert forall|k: int| 0 <= k < tail.len() implies !is_bracket(#[trigger] tail[k]) by {
            if k < last.len() {
                assert(tail[k] == last[k]);
            } else {
                assert(tail[k] == behind[k - last.len()]);
            }
        }
    }
    if m == 1 {
        assert(woven(pieces.take(0), inserts) == Seq::<char>::empty());
        assert(woven(upto, inserts) + behind =~= tail);
        lemma_bracket_free_no_placeholder(tail);
        found.take(0).lemma_filter_len(some);
        assert(placeholders_of(found.take(0)) =~= Seq::<Seq<char>>::empty());
    } else {
        let head = woven(pieces.take(m - 1), inserts);
        let groups = found[m - 2];
        let insert = inserts[m - 2];
        assert(insert == insert_for(groups));
        assert(woven(upto, inserts) == head + insert + last);
        assert(found.take(m - 1) == found.take(m - 2).push(groups));
        found.take(m - 2).lemma_filter_push(groups, some);
        match kind_of(groups) {
            Some(kind) => {
                assert(woven(upto, inserts) + behind =~= head + replacement_of(kind) + tail);
                lemma_placeholders_around(head, kind, tail);
                lemma_bracket_free_no_placeholder(tail);
                lemma_woven_placeholders(pieces, found, m - 1, Seq::<char>::empty());
                assert(head + Seq::<char>::empty() =~= head);
                let before = with_kind(found.take(m - 2));
                assert(before.push(groups).map_values(name) =~= before.map_values(name).push(
                    placeholder_of(kind),
                ));
                assert(placeholders_of(found.take(m - 2)).push(placeholder_of(kind))
                    + Seq::<Seq<char>>::empty() =~= placeholders_of(found.take(m - 2)).push(
                    placeholder_of(kind),
                ));
            },
            None => {
                assert(woven(upto, inserts) + behind =~= head + tail);
                lemma_woven_placeholders(pieces, found, m - 1, tail);
            },
        }
    }
}

/// The placeholders stand in the cleaned text in the order of the matches,
/// not sorted by kind: where no piece between the matches holds an angle
/// bracket, the placeholder tokens of the clean tokens are the placeholders
/// of the matches that have a kind, one for one and in that order.
pub proof fn lemma_placeholders_in_match_order(
    pieces: Seq<Seq<char>>,
    found: Seq<Seq<Option<Seq<char>>>>,
)
    requires
        pieces.len() == found.len() + 1,
        forall|i: int| 0 <= i < pieces.len() ==> bracket_free(#[trigger] pieces[i]),
    ensures
        placeholders_in(clean_tokens(extracted(pieces, found).text)) == placeholders_of(found),
        placeholders_in(tokens_of(tidied(extracted(pieces, found)).text)) == placeholders_of(
            found,
        ),
{
    let text = extracted(pieces, found).text;
    assert(text == woven(pieces, inserts_for(found)));
    lemma_woven_placeholders(pieces, found, pieces.len() as int, Seq::<char>::empty());
    assert(pieces.take(pieces.len() as int) == pieces);
    assert(found.take(found.len() as int) == found);
    assert(text + Seq::<char>::empty() =~= text);
    lemma_placeholders_survive(tokens_of(unhyphenated(text)));
    lemma_tokens_of_normalized(text);
}

/// Normalise the text of an extraction.
pub fn tidy(found: Extraction) -> (r: Extraction)
    ensures
        r@ == tidied(found@),
{
    let text = normalize(found.text.as_str());
    Extraction {
        text,
        dates: found.dates,
        emails: found.emails,
        urls: found.urls,
        numbers: found.numbers,
    }
}

/// Clean `text`: put it in lower case, replace the entities in it by
/// placeholders, strip what is left to the permitted alphabet and collapse
/// the white space. The entities that were replaced come back by kind.
///
/// Where the text in lower case holds no angle bracket, the placeholders of
/// the cleaned text are those of the matches, in the order in which the
/// matches stand in the text.
pub fn clean_text(extractor: &EntityExtractor, text: &str) -> (r: Extraction)
    ensures
        r@ == cleaned(extractor.pattern(), text@),
        bracket_free(lowercase_of(text@)) ==> placeholders_in(tokens_of(r@.text))
            == placeholders_of(matched_groups(extractor.pattern(), lowercase_of(text@))),
{
    let lower = lowercase(text);
    let found = extractor.extract(lower.as_str());
    proof {
        let pieces = unmatched_pieces(extractor.pattern(), lower@);
        let groups = matched_groups(extractor.pattern(), lower@);
        if bracket_free(lower@) {
            lemma_woven_pieces_bracket_free(
                pieces,
                groups.map_values(
                    |g: Seq<Option<Seq<char>>>| crate::entities::whole_match(g),
                ),
            );
            lemma_placeholders_in_match_order(pieces, groups);
        }
    }
    tidy(found)
}

} // verus!
