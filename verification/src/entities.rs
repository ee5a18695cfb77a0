//! Entity extraction: dates, e-mail addresses, URLs and numbers are found by
//! one combined pattern, recorded by kind, and replaced in the text by
//! placeholders.
//!
//! The pattern is matched by the `regex` crate. What it finds in a text is
//! handed over as plain strings: the pieces of text between the matches, and
//! for each match the text of its capture groups. How those are turned into
//! the normalised text and the lists of matches is this module's own.

use crate::error::PipelineError;
use crate::tokens::is_placeholder;
use regex::Regex;
use vstd::prelude::*;
use vstd::string::StringExecFns;

verus! {

/// `regex::Regex`, a compiled pattern. Nothing of its inside is known here.
#[verifier::external_type_specification]
#[verifier::external_body]
pub struct ExRegex(regex::Regex);

/// `regex::Error`, why a pattern did not compile. Nothing of its inside is
/// known here.
#[verifier::external_type_specification]
#[verifier::external_body]
pub struct ExRegexError(regex::Error);

/// The pattern that recognises entities. Its four capture groups are, in
/// this order, the date forms, the e-mail address, the URL forms and the
/// integer. Where several of them match at one place, the first in this
/// order wins.
pub const ENTITY_PATTERN: &'static str =
    "(?i)(\\b\\d{4}-\\d{2}-\\d{2}\\b|\\b\\d{2}/\\d{2}/\\d{4}\\b|\\b\\d{2}\\.\\d{2}\\.\\d{4}\\b|\\b(?:jan|feb|mar|apr|may|jun|jul|aug|sep|oct|nov|dec)[a-z]*\\s\\d{1,2},?\\s\\d{4}\\b|\\b\\d{1,2}\\s(?:jan|feb|mar|apr|may|jun|jul|aug|sep|oct|nov|dec)[a-z]*\\b|\\b\\d{1,2}(?:st|nd|rd|th)?\\s(?:of\\s)?(?:jan|feb|mar|apr|may|jun|jul|aug|sep|oct|nov|dec)[a-z]*\\b)|(\\b[A-Za-z0-9._%+-]+@[A-Za-z0-9.-]+\\.[A-Za-z]{2,}\\b)|(https?://[^\\s)\\]}'<>\"]+|www\\.[^\\s)\\]}'<>\"]+|\\b[a-z0-9-]+\\.[a-z]{2,}(?:/[^\\s)\\]}'<>\"]*)*)|(\\b\\d+\\b)";

/// The pattern string that a compiled pattern was made from, for a
/// compiled pattern that `Regex::new` made. Of one that was built with
/// options of its own the name says nothing: such a pattern may match
/// otherwise than its string does by itself.
pub uninterp spec fn pattern_of(matcher: Regex) -> Seq<char>;

/// Whether `Regex::new` accepts `pattern`: it is well formed, and what it
/// compiles to is within the size that the pattern engine allows.
pub uninterp spec fn compiles(pattern: Seq<char>) -> bool;

/// The pieces of `text` that no match of `pattern` covers, from left to
/// right: the text before the first match, between each two neighbouring
/// matches, and after the last.
pub uninterp spec fn unmatched_pieces(pattern: Seq<char>, text: Seq<char>) -> Seq<Seq<char>>;

/// For each match of `pattern` in `text`, from left to right, the text of
/// every capture group: at index 0 the whole match, then the groups in the
/// order of their opening brackets; `None` for a group that took no part.
pub uninterp spec fn matched_groups(pattern: Seq<char>, text: Seq<char>) -> Seq<
    Seq<Option<Seq<char>>>,
>;

/// The kinds of entity.
#[derive(Clone, Copy, Debug, PartialEq, Eq, Structural)]
pub enum EntityKind {
    Date,
    Email,
    Url,
    Number,
}

/// One recognised entity: its kind, and the text that matched.
#[derive(Debug)]
pub struct EntityMatch {
    pub kind: EntityKind,
    pub text: String,
}

/// What extraction yields, as plain values.
pub struct Extracted {
    pub text: Seq<char>,
    pub dates: Seq<Seq<char>>,
    pub emails: Seq<Seq<char>>,
    pub urls: Seq<Seq<char>>,
    pub numbers: Seq<Seq<char>>,
}

/// What extraction yields: the text with a placeholder in place of each
/// entity, and the matched texts by kind, each list in the order in which
/// the entities stand in the text.
#[derive(Debug)]
pub struct Extraction {
    pub text: String,
    pub dates: Vec<String>,
    pub emails: Vec<String>,
    pub urls: Vec<String>,
    pub numbers: Vec<String>,
}

impl View for Extraction {
    type V = Extracted;

    open spec fn view(&self) -> Extracted {
        Extracted {
            text: self.text@,
            dates: self.dates.deep_view(),
            emails: self.emails.deep_view(),
            urls: self.urls.deep_view(),
            numbers: self.numbers.deep_view(),
        }
    }
}

/// The placeholder token of each kind.
pub open spec fn placeholder_of(kind: EntityKind) -> Seq<char> {
    match kind {
        EntityKind::Date => "<DATE>"@,
        EntityKind::Email => "<EMAIL>"@,
        EntityKind::Url => "<URL>"@,
        EntityKind::Number => "<NUMBER>"@,
    }
}

/// What stands in the text in place of an entity: its placeholder with one
/// space on either side, so that it is a token of its own.
pub open spec fn replacement_of(kind: EntityKind) -> Seq<char> {
    seq![' '] + placeholder_of(kind) + seq![' ']
}

/// The index of the capture group that stands for `kind`.
pub open spec fn group_of(kind: EntityKind) -> int {
    match kind {
        EntityKind::Date => 1,
        EntityKind::Email => 2,
        EntityKind::Url => 3,
        EntityKind::Number => 4,
    }
}

/// Whether group `i` took part in the match.
pub open spec fn took_part(groups: Seq<Option<Seq<char>>>, i: int) -> bool {
    0 <= i < groups.len() && groups[i] is Some
}

/// The kind of a match: that of the first of its four groups that took
/// part, if any did.
pub open spec fn kind_of(groups: Seq<Option<Seq<char>>>) -> Option<EntityKind> {
    if took_part(groups, 1) {
        Some(EntityKind::Date)
    } else if took_part(groups, 2) {
        Some(EntityKind::Email)
    } else if took_part(groups, 3) {
        Some(EntityKind::Url)
    } else if took_part(groups, 4) {
        Some(EntityKind::Number)
    } else {
        None
    }
}

/// The text that a match records: that of the group that gives it its kind.
pub open spec fn recorded_text(groups: Seq<Option<Seq<char>>>) -> Seq<char> {
    match kind_of(groups) {
        Some(kind) => groups[group_of(kind)]->0,
        None => Seq::empty(),
    }
}

/// What a match is replaced by: the space-padded placeholder of its kind,
/// or nothing where it has no kind.
pub open spec fn insert_for(groups: Seq<Option<Seq<char>>>) -> Seq<char> {
    match kind_of(groups) {
        Some(kind) => replacement_of(kind),
        None => Seq::empty(),
    }
}

/// The whole text of a match.
pub open spec fn whole_match(groups: Seq<Option<Seq<char>>>) -> Seq<char> {
    if took_part(groups, 0) {
        groups[0]->0
    } else {
        Seq::empty()
    }
}

/// The text that begins with `pieces[0]` and goes on, for each further
/// piece, with the insert of the same position and then the piece:
/// `pieces[0] + inserts[0] + pieces[1] + inserts[1] + ..`, up to the last
/// piece. An insert that is missing counts as empty.
pub open spec fn woven(pieces: Seq<Seq<char>>, inserts: Seq<Seq<char>>) -> Seq<char>
    decreases pieces.len(),
{
    if pieces.len() == 0 {
        Seq::empty()
    } else {
        let n = pieces.len() - 1;
        let insert = if 0 < n <= inserts.len() {
            inserts[n - 1]
        } else {
            Seq::empty()
        };
        woven(pieces.drop_last(), inserts) + insert + pieces.last()
    }
}

/// The recorded texts of the matches of `kind`, in the order of the
/// matches.
pub open spec fn matches_of_kind(
    found: Seq<Seq<Option<Seq<char>>>>,
    kind: EntityKind,
) -> Seq<Seq<char>> {
    found.filter(|groups: Seq<Option<Seq<char>>>| kind_of(groups) == Some(kind)).map_values(
        |groups: Seq<Option<Seq<char>>>| recorded_text(groups),
    )
}

/// The result of extraction, given what the pattern left unmatched and what
/// it matched.
pub open spec fn extracted(
    pieces: Seq<Seq<char>>,
    found: Seq<Seq<Option<Seq<char>>>>,
) -> Extracted {
    Extracted {
        text: woven(pieces, found.map_values(|groups: Seq<Option<Seq<char>>>| insert_for(groups))),
        dates: matches_of_kind(found, EntityKind::Date),
        emails: matches_of_kind(found, EntityKind::Email),
        urls: matches_of_kind(found, EntityKind::Url),
        numbers: matches_of_kind(found, EntityKind::Number),
    }
}

/// The pieces and the matches are those of one scan of `text`: there is
/// one piece more than there are matches, and the pieces with the whole
/// matches between them make up `text`.
pub open spec fn reassembles(
    pieces: Seq<Seq<char>>,
    found: Seq<Seq<Option<Seq<char>>>>,
    text: Seq<char>,
) -> bool {
    &&& pieces.len() == found.len() + 1
    &&& woven(pieces, found.map_values(|groups: Seq<Option<Seq<char>>>| whole_match(groups)))
        == text
}

/// `Regex::new` of the `regex` crate: whether it gives a compiled pattern
/// depends on `pattern` alone, and where it gives one, that pattern was
/// made from `pattern`.
#[verifier::external_body]
fn compile(pattern: &str) -> (r: Result<Regex, regex::Error>)
    ensures
        r is Ok <==> compiles(pattern@),
        r matches Ok(matcher) ==> pattern_of(matcher) == pattern@,
{
    Regex::new(pattern)
}

/// `regex::Error` as text, as its `Display` gives it.
#[verifier::external_body]
fn describe(error: &regex::Error) -> (why: String) {
    error.to_string()
}

/// `Regex::split` of the `regex` crate: the parts of `text` between the
/// successive matches of the pattern. With the matches that
/// `Regex::captures_iter` gives for the same text they make up the text
/// again.
#[verifier::external_body]
fn split_on_matches(matcher: &Regex, text: &str) -> (pieces: Vec<String>)
    ensures
        pieces.deep_view() == unmatched_pieces(pattern_of(*matcher), text@),
        reassembles(pieces.deep_view(), matched_groups(pattern_of(*matcher), text@), text@),
{
    matcher.split(text).map(|piece| piece.to_string()).collect()
}

/// `Regex::captures_iter` of the `regex` crate: the successive matches of
/// the pattern in `text`, each as the texts of its capture groups.
#[verifier::external_body]
fn capture_groups(matcher: &Regex, text: &str) -> (found: Vec<Vec<Option<String>>>)
    ensures
        found.deep_view() == matched_groups(pattern_of(*matcher), text@),
{
    matcher.captures_iter(text).map(
        |caps| caps.iter().map(|group| group.map(|m| m.as_str().to_string())).collect(),
    ).collect()
}

/// The placeholder of `kind`.
pub fn placeholder_text(kind: EntityKind) -> (text: &'static str)
    ensures
        text@ == placeholder_of(kind),
        is_placeholder(text@),
{
    proof {
        lemma_placeholders(kind);
    }
    match kind {
        EntityKind::Date => "<DATE>",
        EntityKind::Email => "<EMAIL>",
        EntityKind::Url => "<URL>",
        EntityKind::Number => "<NUMBER>",
    }
}

/// Each placeholder is a token bounded by angle brackets, and there is no
/// white space in it.
pub proof fn lemma_placeholders(kind: EntityKind)
    ensures
        is_placeholder(placeholder_of(kind)),
        crate::tokens::is_token(placeholder_of(kind)),
{
    reveal_strlit("<DATE>");
    reveal_strlit("<EMAIL>");
    reveal_strlit("<URL>");
    reveal_strlit("<NUMBER>");
}

/// The kind and the recorded text of one match, from the texts of its
/// groups; `None` where none of the four groups took part.
pub fn classify(groups: &Vec<Option<String>>) -> (r: Option<EntityMatch>)
    ensures
        r is Some <==> kind_of(groups.deep_view()) is Some,
        r matches Some(m) ==> Some(m.kind) == kind_of(groups.deep_view()) && m.text@
            == recorded_text(groups.deep_view()),
{
    let ghost view = groups.deep_view();
    let mut i: usize = 1;
    while i < 5 && i < groups.len()
        invariant
            1 <= i <= 5,
            view == groups.deep_view(),
            forall|k: int| 1 <= k < i ==> !took_part(view, k),
        decreases 5 - i,
    {
        assert(view[i as int] == groups@[i as int].deep_view());
        match &groups[i] {
            Some(text) => {
                let kind = if i == 1 {
                    EntityKind::Date
                } else if i == 2 {
                    EntityKind::Email
                } else if i == 3 {
                    EntityKind::Url
                } else {
                    EntityKind::Number
                };
                assert(took_part(view, i as int));
                return Some(EntityMatch { kind, text: text.clone() });
            },
            None => {},
        }
        i += 1;
    }
    None
}

/// Build the result of extraction from what the pattern left unmatched and
/// what it matched: weave the placeholders between the pieces, and sort the
/// matched texts by kind.
pub fn substitute(pieces: &Vec<String>, found: &Vec<Vec<Option<String>>>) -> (r: Extraction)
    ensures
        r@ == extracted(pieces.deep_view(), found.deep_view()),
{
    let ghost ps = pieces.deep_view();
    let ghost fs = found.deep_view();
    let ghost inserts = fs.map_values(|groups: Seq<Option<Seq<char>>>| insert_for(groups));
    let mut text = String::new();
    let mut i: usize = 0;
    while i < pieces.len()
        invariant
            i <= pieces.len(),
            ps == pieces.deep_view(),
            fs == found.deep_view(),
            inserts == fs.map_values(|groups: Seq<Option<Seq<char>>>| insert_for(groups)),
            text@ == woven(ps.take(i as int), inserts),
        decreases pieces.len() - i,
    {
        proof {
            let upto = ps.take(i + 1);
            assert(upto.drop_last() == ps.take(i as int));
            assert(upto.last() == pieces@[i as int]@);
        }
        if 0 < i && i <= found.len() {
            assert(fs[i - 1] == found@[i - 1].deep_view());
            match classify(&found[i - 1]) {
                Some(m) => {
                    text.append(" ");
                    text.append(placeholder_text(m.kind));
                    text.append(" ");
                    proof {
                        reveal_strlit(" ");
                        assert(" "@ == seq![' ']);
                    }
                },
                None => {},
            }
        }
        let ghost before = text@;
        text.append(pieces[i].as_str());
        proof {
            let upto = ps.take(i + 1);
            let n = upto.len() - 1;
            let insert = if 0 < n <= inserts.len() {
                inserts[n - 1]
            } else {
                Seq::<char>::empty()
            };
            assert(before == woven(ps.take(i as int), inserts) + insert);
        }
        i += 1;
    }
    assert(ps.take(pieces.len() as int) == ps);
    let dates = collect_kind(found, EntityKind::Date);
    let emails = collect_kind(found, EntityKind::Email);
    let urls = collect_kind(found, EntityKind::Url);
    let numbers = collect_kind(found, EntityKind::Number);
    Extraction { text, dates, emails, urls, numbers }
}

/// The recorded texts of the matches of `kind`.
pub fn collect_kind(found: &Vec<Vec<Option<String>>>, kind: EntityKind) -> (texts: Vec<String>)
    ensures
        texts.deep_view() == matches_of_kind(found.deep_view(), kind),
{
    let ghost fs = found.deep_view();
    let ghost pred = |groups: Seq<Option<Seq<char>>>| kind_of(groups) == Some(kind);
    let ghost text_of = |groups: Seq<Option<Seq<char>>>| recorded_text(groups);
    let mut texts: Vec<String> = Vec::new();
    let mut i: usize = 0;
    proof {
        assert(fs.take(0).len() == 0);
        fs.take(0).lemma_filter_len(pred);
        assert(texts.deep_view() == fs.take(0).filter(pred).map_values(text_of));
    }
    while i < found.len()
        invariant
            i <= found.len(),
            fs == found.deep_view(),
            pred == |groups: Seq<Option<Seq<char>>>| kind_of(groups) == Some(kind),
            text_of == |groups: Seq<Option<Seq<char>>>| recorded_text(groups),
            texts.deep_view() == fs.take(i as int).filter(pred).map_values(text_of),
        decreases found.len() - i,
    {
        proof {
            assert(fs[i as int] == found@[i as int].deep_view());
            assert(fs.take(i + 1) == fs.take(i as int).push(fs[i as int]));
            fs.take(i as int).lemma_filter_push(fs[i as int], pred);
        }
        match classify(&found[i]) {
            Some(m) => {
                if m.kind == kind {
                    let ghost before = texts.deep_view();
                    let ghost kept = fs.take(i as int).filter(pred);
                    texts.push(m.text);
                    proof {
                        assert(texts.deep_view() == before.push(recorded_text(fs[i as int])));
                        assert(kept.push(fs[i as int]).map_values(text_of) == kept.map_values(
                            text_of,
                        ).push(text_of(fs[i as int])));
                    }
                }
            },
            None => {},
        }
        i += 1;
    }
    assert(fs.take(found.len() as int) == fs);
    texts
}

/// An entity's replacement is one token of its own, whatever text stands
/// before and behind it: the tokens of the text before, then the
/// placeholder, then the tokens of the text behind.
pub proof fn lemma_replacement_is_one_token(before: Seq<char>, kind: EntityKind, behind: Seq<char>)
    ensures
        crate::tokens::tokens_of(before + replacement_of(kind) + behind)
            == crate::tokens::tokens_of(before) + seq![placeholder_of(kind)]
            + crate::tokens::tokens_of(behind),
{
    let token = placeholder_of(kind);
    let tail = token + seq![' '] + behind;
    lemma_placeholders(kind);
    assert(before + replacement_of(kind) + behind =~= before + seq![' '] + tail);
    crate::tokens::lemma_tokens_of_concat(before, ' ', tail);
    crate::tokens::lemma_tokens_of_concat(token, ' ', behind);
    crate::tokens::lemma_tokens_of_token(token);
    assert(crate::tokens::tokens_of(before) + (seq![token] + crate::tokens::tokens_of(behind))
        =~= crate::tokens::tokens_of(before) + seq![token] + crate::tokens::tokens_of(behind));
}

/// Text in which the pattern matches nothing passes through unchanged, and
/// nothing is recorded.
pub proof fn lemma_no_match_no_change(
    pieces: Seq<Seq<char>>,
    found: Seq<Seq<Option<Seq<char>>>>,
    text: Seq<char>,
)
    requires
        reassembles(pieces, found, text),
        found.len() == 0,
    ensures
        extracted(pieces, found).text == text,
        extracted(pieces, found).dates.len() == 0,
        extracted(pieces, found).emails.len() == 0,
        extracted(pieces, found).urls.len() == 0,
        extracted(pieces, found).numbers.len() == 0,
{
    let wholes = found.map_values(|groups: Seq<Option<Seq<char>>>| whole_match(groups));
    let inserts = found.map_values(|groups: Seq<Option<Seq<char>>>| insert_for(groups));
    assert(pieces.len() == 1);
    assert(pieces.drop_last().len() == 0);
    assert(woven(pieces, wholes) == woven(pieces.drop_last(), wholes) + Seq::<char>::empty()
        + pieces.last());
    assert(woven(pieces, inserts) == woven(pieces.drop_last(), inserts) + Seq::<char>::empty()
        + pieces.last());
    assert(woven(pieces, inserts) == woven(pieces, wholes));
    lemma_matches_of_kind_len(found, EntityKind::Date);
    lemma_matches_of_kind_len(found, EntityKind::Email);
    lemma_matches_of_kind_len(found, EntityKind::Url);
    lemma_matches_of_kind_len(found, EntityKind::Number);
}

/// The matches that have a kind.
pub open spec fn with_kind(found: Seq<Seq<Option<Seq<char>>>>) -> Seq<Seq<Option<Seq<char>>>> {
    found.filter(|groups: Seq<Option<Seq<char>>>| kind_of(groups) is Some)
}

/// Every match that has a kind is recorded once, in the list of its kind:
/// the four lists together hold as many texts as there are such matches.
pub proof fn lemma_each_match_once(found: Seq<Seq<Option<Seq<char>>>>)
    ensures
        matches_of_kind(found, EntityKind::Date).len() + matches_of_kind(
            found,
            EntityKind::Email,
        ).len() + matches_of_kind(found, EntityKind::Url).len() + matches_of_kind(
            found,
            EntityKind::Number,
        ).len() == with_kind(found).len(),
        with_kind(found).len() <= found.len(),
    decreases found.len(),
{
    let any = |groups: Seq<Option<Seq<char>>>| kind_of(groups) is Some;
    let date = |groups: Seq<Option<Seq<char>>>| kind_of(groups) == Some(EntityKind::Date);
    let email = |groups: Seq<Option<Seq<char>>>| kind_of(groups) == Some(EntityKind::Email);
    let url = |groups: Seq<Option<Seq<char>>>| kind_of(groups) == Some(EntityKind::Url);
    let number = |groups: Seq<Option<Seq<char>>>| kind_of(groups) == Some(EntityKind::Number);
    found.lemma_filter_len(any);
    if found.len() == 0 {
        found.lemma_filter_len(date);
        found.lemma_filter_len(email);
        found.lemma_filter_len(url);
        found.lemma_filter_len(number);
    } else {
        let front = found.drop_last();
        let last = found.last();
        lemma_each_match_once(front);
        assert(front.push(last) == found);
        front.lemma_filter_len_push(any, last);
        front.lemma_filter_len_push(date, last);
        front.lemma_filter_len_push(email, last);
        front.lemma_filter_len_push(url, last);
        front.lemma_filter_len_push(number, last);
    }
}

/// No list holds more texts than there are matches.
pub proof fn lemma_matches_of_kind_len(found: Seq<Seq<Option<Seq<char>>>>, kind: EntityKind)
    ensures
        matches_of_kind(found, kind).len() <= found.len(),
{
    found.lemma_filter_len(|groups: Seq<Option<Seq<char>>>| kind_of(groups) == Some(kind));
}

/// The part of entity extraction that is fixed once: the compiled pattern.
/// It is built at start-up and then shared, read-only.
pub struct EntityExtractor {
    matcher: Regex,
}

impl EntityExtractor {
    /// The pattern string that this extractor was built from.
    pub closed spec fn pattern(&self) -> Seq<char> {
        pattern_of(self.matcher)
    }

    /// The extractor for `ENTITY_PATTERN`.
    pub fn new() -> (r: Result<EntityExtractor, PipelineError>)
        ensures
            r is Ok <==> compiles(ENTITY_PATTERN@),
            r matches Ok(extractor) ==> extractor.pattern() == ENTITY_PATTERN@,
            r matches Err(e) ==> e is InvalidPattern,
    {
        EntityExtractor::with_pattern(ENTITY_PATTERN)
    }

    /// The extractor for a pattern of the caller's. Its groups 1 to 4 stand
    /// for date, e-mail address, URL and number. There is an extractor
    /// exactly where the pattern compiles.
    pub fn with_pattern(pattern: &str) -> (r: Result<EntityExtractor, PipelineError>)
        ensures
            r is Ok <==> compiles(pattern@),
            r matches Ok(extractor) ==> extractor.pattern() == pattern@,
            r matches Err(e) ==> e is InvalidPattern,
    {
        EntityExtractor::from_compiled(compile(pattern))
    }

    /// The extractor for what compiling a pattern gave: the extractor that
    /// holds the compiled pattern, or the error that says why there is
    /// none. The compiled pattern is expected to come from `Regex::new`:
    /// only of such a one do the contracts say what it matches.
    pub fn from_compiled(compiled: Result<Regex, regex::Error>) -> (r: Result<
        EntityExtractor,
        PipelineError,
    >)
        ensures
            match compiled {
                Ok(matcher) => r matches Ok(extractor) && extractor.pattern() == pattern_of(
                    matcher,
                ),
                Err(_) => r matches Err(e) && e is InvalidPattern,
            },
    {
        match compiled {
            Ok(matcher) => Ok(EntityExtractor { matcher }),
            Err(error) => Err(PipelineError::InvalidPattern(describe(&error))),
        }
    }

    /// Replace every entity in `text` by its placeholder and record what
    /// was replaced. `text` is expected in lower case.
    pub fn extract(&self, text: &str) -> (r: Extraction)
        ensures
            r@ == extracted(
                unmatched_pieces(self.pattern(), text@),
                matched_groups(self.pattern(), text@),
            ),
            reassembles(
                unmatched_pieces(self.pattern(), text@),
                matched_groups(self.pattern(), text@),
                text@,
            ),
    {
        let pieces = split_on_matches(&self.matcher, text);
        let found = capture_groups(&self.matcher, text);
        substitute(&pieces, &found)
    }
}

} // verus!
