//! Enrichment of records: the text field of a record is cleaned, split,
//! filtered and stemmed, and what each stage yields is appended to the
//! record as new fields.
//!
//! A record is the sequence of its field values, in the order of the header.
//! Enrichment makes a new record: the fields of the old one, then the four
//! lists of entities, then the three token stages.

use crate::clean::{clean_text, cleaned};
use crate::entities::{EntityExtractor, Extracted, Extraction};
use crate::error::{reports_malformed, PipelineError};
use crate::stem::{stem_tokens, stemmed_tokens};
use crate::stopwords::{kept_tokens, remove_stopwords, StopwordSet};
use crate::tokens::{join, joined, tokenize, tokens_of};
use vstd::prelude::*;
use vstd::string::StringExecFns;

verus! {

/// The position of the first field of `header` that is named `name`.
pub open spec fn first_column(header: Seq<Seq<char>>, name: Seq<char>) -> Option<int>
    decreases header.len(),
{
    if header.len() == 0 {
        None
    } else if header[0] == name {
        Some(0)
    } else {
        match first_column(header.skip(1), name) {
            Some(i) => Some(i + 1),
            None => None,
        }
    }
}

/// The names of the fields that enrichment appends, for the text field
/// `column`.
pub open spec fn added_names(column: Seq<char>) -> Seq<Seq<char>> {
    seq![
        "dates"@,
        "emails"@,
        "urls"@,
        "numbers"@,
        column + "-tokens"@,
        column + "-tokens_no_stop"@,
        column + "-tokens_stemmed"@,
    ]
}

/// The values of the fields that enrichment appends, given the cleaned
/// text with its entities and the stopword set: each list of entities
/// joined with `"; "`, then the tokens of the cleaned text, the tokens
/// without stopwords, and their stems, each joined with one space.
pub open spec fn added_values(found: Extracted, stopwords: Set<Seq<char>>) -> Seq<Seq<char>> {
    let tokens = tokens_of(found.text);
    let kept = kept_tokens(tokens, stopwords);
    let stems = stemmed_tokens(kept);
    seq![
        joined(found.dates, "; "@),
        joined(found.emails, "; "@),
        joined(found.urls, "; "@),
        joined(found.numbers, "; "@),
        joined(tokens, " "@),
        joined(kept, " "@),
        joined(stems, " "@),
    ]
}

/// `first_column` finds `i` where `i` is the first position with the name.
pub proof fn lemma_first_column_found(header: Seq<Seq<char>>, name: Seq<char>, i: int)
    requires
        0 <= i < header.len(),
        header[i] == name,
        forall|j: int| 0 <= j < i ==> #[trigger] header[j] != name,
    ensures
        first_column(header, name) == Some(i),
    decreases i,
{
    if i > 0 {
        let rest = header.skip(1);
        assert(rest[i - 1] == header[i]);
        assert forall|j: int| 0 <= j < i - 1 implies #[trigger] rest[j] != name by {
            assert(rest[j] == header[j + 1]);
        }
        assert(header[0] != name);
        lemma_first_column_found(rest, name, i - 1);
    }
}

/// `first_column` finds nothing where no field has the name.
pub proof fn lemma_first_column_absent(header: Seq<Seq<char>>, name: Seq<char>)
    requires
        forall|j: int| 0 <= j < header.len() ==> #[trigger] header[j] != name,
    ensures
        first_column(header, name) is None,
    decreases header.len(),
{
    if header.len() > 0 {
        let rest = header.skip(1);
        assert forall|j: int| 0 <= j < rest.len() implies #[trigger] rest[j] != name by {
            assert(rest[j] == header[j + 1]);
        }
        assert(header[0] != name);
        lemma_first_column_absent(rest, name);
    }
}

/// What `first_column` finds is a position of the header, that field has
/// the name, and no field before it has.
pub proof fn lemma_first_column_is_first(header: Seq<Seq<char>>, name: Seq<char>)
    ensures
        match first_column(header, name) {
            Some(i) => 0 <= i < header.len() && header[i] == name && forall|j: int|
                0 <= j < i ==> #[trigger] header[j] != name,
            None => forall|j: int| 0 <= j < header.len() ==> #[trigger] header[j] != name,
        },
    decreases header.len(),
{
    if header.len() > 0 && header[0] != name {
        let rest = header.skip(1);
        lemma_first_column_is_first(rest, name);
        match first_column(rest, name) {
            Some(i) => {
                assert(rest[i] == header[i + 1]);
                assert forall|j: int| 0 <= j < i + 1 implies #[trigger] header[j] != name by {
                    if j > 0 {
                        assert(rest[j - 1] == header[j]);
                    }
                }
            },
            None => {
                assert forall|j: int| 0 <= j < header.len() implies #[trigger] header[j]
                    != name by {
                    if j > 0 {
                        assert(rest[j - 1] == header[j]);
                    }
                }
            },
        }
    }
}

/// A placeholder passes every stage as it is: stripping leaves it whole,
/// the stopword filter keeps it whatever the set holds, and stemming
/// leaves it unchanged.
pub proof fn lemma_placeholder_passes(token: Seq<char>, stopwords: Set<Seq<char>>)
    requires
        crate::tokens::is_placeholder(token),
    ensures
        crate::normalize::stripped(token) == token,
        !crate::stopwords::is_stopword(token, stopwords),
        crate::stem::stemmed(token) == token,
{
}

/// The tokens field of an enriched record is the cleaned text itself:
/// cleaned text is its own tokens joined with single spaces.
pub proof fn lemma_tokens_field_is_cleaned_text(
    pattern: Seq<char>,
    text: Seq<char>,
    stopwords: Set<Seq<char>>,
)
    ensures
        added_values(cleaned(pattern, text), stopwords)[4] == cleaned(pattern, text).text,
{
    let lower = crate::text::lowercase_of(text);
    let found = crate::entities::extracted(
        crate::entities::unmatched_pieces(pattern, lower),
        crate::entities::matched_groups(pattern, lower),
    );
    reveal_strlit(" ");
    assert(" "@ =~= seq![' ']);
    crate::normalize::lemma_tokens_of_normalized(found.text);
}

/// The position of the first field of `header` that is named `name`.
pub fn find_column(header: &Vec<String>, name: &str) -> (r: Option<usize>)
    ensures
        match r {
            Some(i) => first_column(header.deep_view(), name@) == Some(i as int),
            None => first_column(header.deep_view(), name@) is None,
        },
{
    let ghost names = header.deep_view();
    let wanted = String::from_str(name);
    let mut i: usize = 0;
    while i < header.len()
        invariant
            i <= header.len(),
            names == header.deep_view(),
            wanted@ == name@,
            forall|j: int| 0 <= j < i ==> #[trigger] names[j] != name@,
        decreases header.len() - i,
    {
        assert(names[i as int] == header@[i as int]@);
        if header[i] == wanted {
            proof {
                lemma_first_column_found(names, name@, i as int);
            }
            return Some(i);
        }
        i += 1;
    }
    proof {
        lemma_first_column_absent(names, name@);
    }
    None
}

/// `text` followed by `suffix`.
fn with_suffix(text: &str, suffix: &str) -> (r: String)
    ensures
        r@ == text@ + suffix@,
{
    let mut r = String::from_str(text);
    r.append(suffix);
    r
}

/// A copy of `fields`.
pub fn copy_fields(fields: &Vec<String>) -> (copy: Vec<String>)
    ensures
        copy.deep_view() == fields.deep_view(),
{
    let mut copy: Vec<String> = Vec::new();
    let mut i: usize = 0;
    while i < fields.len()
        invariant
            i <= fields.len(),
            copy.len() == i,
            forall|j: int| 0 <= j < i ==> #[trigger] copy@[j]@ == fields@[j]@,
        decreases fields.len() - i,
    {
        copy.push(fields[i].clone());
        i += 1;
    }
    assert(copy.deep_view() =~= fields.deep_view());
    copy
}

/// Move the elements of `more` to the end of `fields`.
pub fn append_fields(fields: &mut Vec<String>, more: Vec<String>)
    ensures
        final(fields).deep_view() == old(fields).deep_view() + more.deep_view(),
{
    let ghost start = fields.deep_view();
    let ghost extra = more.deep_view();
    let mut more = more;
    fields.append(&mut more);
    assert(fields.deep_view() =~= start + extra);
}

/// The header of the enriched records: the fields of `header`, then the
/// names of the fields that enrichment appends.
pub fn enriched_header(header: &Vec<String>, column: &str) -> (r: Vec<String>)
    ensures
        r.deep_view() == header.deep_view() + added_names(column@),
{
    let mut r = copy_fields(header);
    let ghost base = r.deep_view();
    let mut names: Vec<String> = Vec::new();
    names.push(String::from_str("dates"));
    names.push(String::from_str("emails"));
    names.push(String::from_str("urls"));
    names.push(String::from_str("numbers"));
    names.push(with_suffix(column, "-tokens"));
    names.push(with_suffix(column, "-tokens_no_stop"));
    names.push(with_suffix(column, "-tokens_stemmed"));
    assert(names.deep_view() =~= added_names(column@));
    append_fields(&mut r, names);
    r
}

/// The values of the fields that enrichment appends, from the cleaned text
/// with its entities.
pub fn enrichment(found: &Extraction, stopwords: &StopwordSet) -> (values: Vec<String>)
    ensures
        values.deep_view() == added_values(found@, stopwords@),
        values.len() == 7,
{
    let tokens = tokenize(found.text.as_str());
    let tokens_joined = join(&tokens, " ");
    let kept = remove_stopwords(tokens, stopwords);
    let kept_joined = join(&kept, " ");
    let stems = stem_tokens(&kept);
    let stems_joined = join(&stems, " ");
    let mut values: Vec<String> = Vec::new();
    values.push(join(&found.dates, "; "));
    values.push(join(&found.emails, "; "));
    values.push(join(&found.urls, "; "));
    values.push(join(&found.numbers, "; "));
    values.push(tokens_joined);
    values.push(kept_joined);
    values.push(stems_joined);
    assert(values.deep_view() =~= added_values(found@, stopwords@));
    values
}

/// What becomes of one record: `None` where it is dropped, else the
/// enriched record. `values` are the fields to append; the record is
/// dropped where `drop_empty` is set and the last of them, the stemmed
/// text, is empty.
pub open spec fn enriched(
    record: Seq<Seq<char>>,
    values: Seq<Seq<char>>,
    drop_empty: bool,
) -> Option<Seq<Seq<char>>> {
    if drop_empty && values.len() > 0 && values.last().len() == 0 {
        None
    } else {
        Some(record + values)
    }
}

/// Append `values` to a copy of `record`, or drop the record.
pub fn enrich(record: &Vec<String>, values: Vec<String>, drop_empty: bool) -> (r: Option<
    Vec<String>,
>)
    ensures
        match r {
            Some(out) => enriched(record.deep_view(), values.deep_view(), drop_empty) == Some(
                out.deep_view(),
            ),
            None => enriched(record.deep_view(), values.deep_view(), drop_empty) is None,
        },
{
    let n = values.len();
    if drop_empty && n > 0 {
        assert(values.deep_view().last() == values@[n - 1]@);
        if values[n - 1].as_str().is_empty() {
            return None;
        }
    }
    let mut out = copy_fields(record);
    append_fields(&mut out, values);
    Some(out)
}

/// The configured enrichment of records: the entity extractor, the
/// stopword set, the header of the input with the position of its text
/// field, and whether records without any stem are dropped.
pub struct RecordProcessor {
    extractor: EntityExtractor,
    stopwords: StopwordSet,
    header: Vec<String>,
    column: usize,
    drop_empty: bool,
}

impl RecordProcessor {
    #[verifier::type_invariant]
    spec fn well_formed(self) -> bool {
        self.column < self.header.len()
    }

    /// The entity pattern in use.
    pub closed spec fn pattern(&self) -> Seq<char> {
        self.extractor.pattern()
    }

    /// The stopwords in use.
    pub closed spec fn stopwords(&self) -> Set<Seq<char>> {
        self.stopwords@
    }

    /// The header of the records that are taken.
    pub closed spec fn input_header(&self) -> Seq<Seq<char>> {
        self.header.deep_view()
    }

    /// The position of the text field.
    pub closed spec fn column(&self) -> int {
        self.column as int
    }

    /// Whether a record whose stemmed text is empty is dropped.
    pub closed spec fn drops_empty(&self) -> bool {
        self.drop_empty
    }

    /// What becomes of a record of the right width.
    pub open spec fn outcome(&self, record: Seq<Seq<char>>) -> Option<Seq<Seq<char>>> {
        enriched(
            record,
            added_values(cleaned(self.pattern(), record[self.column()]), self.stopwords()),
            self.drops_empty(),
        )
    }

    /// What becomes of a sequence of records of the right width: the
    /// enriched records, in the order of the input, without the dropped
    /// ones.
    pub open spec fn outcomes(&self, records: Seq<Seq<Seq<char>>>) -> Seq<Seq<Seq<char>>> {
        records.filter_map(|record: Seq<Seq<char>>| self.outcome(record))
    }

    /// Whether `record` has as many fields as the header.
    pub open spec fn fits(&self, record: Seq<Seq<char>>) -> bool {
        record.len() == self.input_header().len()
    }

    /// A processor for records under `header`, whose text field is the
    /// first one named `column_name`. It is an error for the header to have
    /// no such field.
    pub fn new(
        extractor: EntityExtractor,
        stopwords: StopwordSet,
        header: Vec<String>,
        column_name: &str,
        drop_empty: bool,
    ) -> (r: Result<RecordProcessor, PipelineError>)
        ensures
            match r {
                Ok(p) => {
                    &&& first_column(header.deep_view(), column_name@) == Some(p.column())
                    &&& p.pattern() == extractor.pattern()
                    &&& p.stopwords() == stopwords@
                    &&& p.input_header() == header.deep_view()
                    &&& p.drops_empty() == drop_empty
                },
                Err(e) => {
                    &&& first_column(header.deep_view(), column_name@) is None
                    &&& e matches PipelineError::ColumnNotFound(name)
                    &&& name@ == column_name@
                },
            },
    {
        match find_column(&header, column_name) {
            Some(column) => {
                proof {
                    lemma_first_column_is_first(header.deep_view(), column_name@);
                }
                Ok(RecordProcessor { extractor, stopwords, header, column, drop_empty })
            },
            None => Err(PipelineError::ColumnNotFound(String::from_str(column_name))),
        }
    }

    /// The header of the enriched records.
    pub fn output_header(&self) -> (r: Vec<String>)
        ensures
            r.deep_view() == self.input_header() + added_names(
                self.input_header()[self.column()],
            ),
    {
        proof {
            use_type_invariant(self);
        }
        assert(self.header.deep_view()[self.column as int] == self.header@[self.column as int]@);
        enriched_header(&self.header, self.header[self.column].as_str())
    }

    /// The values of the fields that enrichment appends for the text
    /// `text`.
    pub fn process_text(&self, text: &str) -> (values: Vec<String>)
        ensures
            values.deep_view() == added_values(cleaned(self.pattern(), text@), self.stopwords()),
            values.len() == 7,
    {
        let found = clean_text(&self.extractor, text);
        enrichment(&found, &self.stopwords)
    }

    /// Enrich the record at position `row`. A record that has not as many
    /// fields as the header is an error.
    pub fn process_record(&self, record: &Vec<String>, row: usize) -> (r: Result<
        Option<Vec<String>>,
        PipelineError,
    >)
        ensures
            match r {
                Ok(Some(out)) => self.fits(record.deep_view()) && self.outcome(record.deep_view())
                    == Some(out.deep_view()) && out.len() == self.input_header().len() + 7,
                Ok(None) => self.fits(record.deep_view()) && self.outcome(record.deep_view())
                    is None,
                Err(e) => !self.fits(record.deep_view()) && reports_malformed(
                    e,
                    row as int,
                    record.len() as int,
                    self.input_header().len() as int,
                ),
            },
    {
        proof {
            use_type_invariant(self);
        }
        if record.len() != self.header.len() {
            return Err(
                PipelineError::MalformedRecord {
                    row,
                    found: record.len(),
                    expected: self.header.len(),
                },
            );
        }
        assert(record.deep_view()[self.column as int] == record@[self.column as int]@);
        let values = self.process_text(record[self.column].as_str());
        let outcome = enrich(record, values, self.drop_empty);
        proof {
            if outcome is Some {
                assert(outcome->0.deep_view().len() == record.deep_view().len()
                    + values.deep_view().len());
            }
        }
        Ok(outcome)
    }

    /// Enrich every record, in order. The first record that has not as
    /// many fields as the header ends the run with an error.
    pub fn process_all(&self, records: &Vec<Vec<String>>) -> (r: Result<
        Vec<Vec<String>>,
        PipelineError,
    >)
        ensures
            match r {
                Ok(out) => {
                    &&& forall|i: int|
                        0 <= i < records.len() ==> self.fits(#[trigger] records.deep_view()[i])
                    &&& out.deep_view() == self.outcomes(records.deep_view())
                    &&& forall|i: int|
                        0 <= i < out.len() ==> (#[trigger] out[i]).len() == self.input_header().len()
                            + 7
                },
                Err(e) => exists|i: int|
                    {
                        &&& 0 <= i < records.len()
                        &&& !self.fits(#[trigger] records.deep_view()[i])
                        &&& forall|j: int| 0 <= j < i ==> self.fits(#[trigger] records.deep_view()[j])
                        &&& reports_malformed(
                            e,
                            i,
                            records.deep_view()[i].len() as int,
                            self.input_header().len() as int,
                        )
                    },
            },
    {
        let ghost all = records.deep_view();
        let ghost step = |record: Seq<Seq<char>>| self.outcome(record);
        let mut out: Vec<Vec<String>> = Vec::new();
        let mut i: usize = 0;
        assert(out.deep_view() =~= all.take(0).filter_map(step));
        while i < records.len()
            invariant
                i <= records.len(),
                all == records.deep_view(),
                step == |record: Seq<Seq<char>>| self.outcome(record),
                forall|j: int| 0 <= j < i ==> self.fits(#[trigger] all[j]),
                out.deep_view() == all.take(i as int).filter_map(step),
                forall|j: int|
                    0 <= j < out.len() ==> (#[trigger] out[j]).len() == self.input_header().len()
                        + 7,
            decreases records.len() - i,
        {
            proof {
                assert(all[i as int] == records@[i as int].deep_view());
                all.lemma_filter_map_take_succ(step, i as int);
            }
            match self.process_record(&records[i], i) {
                Ok(Some(record)) => {
                    let ghost before = out.deep_view();
                    out.push(record);
                    assert(out.deep_view() =~= before + seq![record.deep_view()]);
                },
                Ok(None) => {},
                Err(e) => {
                    return Err(e);
                },
            }
            i += 1;
        }
        assert(all.take(records.len() as int) == all);
        Ok(out)
    }
}

} // verus!
