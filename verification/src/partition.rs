//! Partitioning of the enriched corpus: the records are shuffled, cut into
//! a training, a validation and a test set of 80, 10 and 10 percent, and
//! every record is reduced to the fields that are kept and given its label.

use crate::chars::{ascii_lower, lower_ascii, to_chars};
use crate::error::PipelineError;
use crate::record::{find_column, first_column};
use rand::seq::SliceRandom;
use vstd::prelude::*;
use vstd::string::StringExecFns;

verus! {

/// The size of the training set for a corpus of `n` records: 80 percent,
/// rounded down.
pub open spec fn train_size(n: nat) -> nat {
    (4 * n) / 5
}

/// The size of the validation set for a corpus of `n` records: 10 percent,
/// rounded down.
pub open spec fn validation_size(n: nat) -> nat {
    n / 10
}

/// The size of the test set for a corpus of `n` records: what the other
/// two leave.
pub open spec fn test_size(n: nat) -> nat {
    (n - train_size(n) - validation_size(n)) as nat
}

/// `s` with every basic Latin capital in lower case.
pub open spec fn folded(s: Seq<char>) -> Seq<char> {
    s.map_values(|c: char| ascii_lower(c))
}

/// Whether a value of the label source marks a record as reliable: it is
/// the word `reliable`, in whatever case.
pub open spec fn is_reliable(value: Seq<char>) -> bool {
    folded(value) == "reliable"@
}

/// The label for a value of the label source.
pub open spec fn label_of(value: Seq<char>) -> Seq<char> {
    if is_reliable(value) {
        "reliable"@
    } else {
        "fake"@
    }
}

/// Whether a field of this name is left out of the partitioned records:
/// the text field itself, its tokens, and its tokens without stopwords.
pub open spec fn is_excluded(name: Seq<char>, column: Seq<char>) -> bool {
    name == column || name == column + "-tokens"@ || name == column + "-tokens_no_stop"@
}

/// For each field of the header, whether it is kept.
pub open spec fn kept_mask(header: Seq<Seq<char>>, column: Seq<char>) -> Seq<bool> {
    header.map_values(|name: Seq<char>| !is_excluded(name, column))
}

/// Whether the field at position `i` of a record is kept: it is, unless
/// `keep` says otherwise for that position. A field beyond the header is
/// kept.
pub open spec fn keeps_field(keep: Seq<bool>, i: int) -> bool {
    !(0 <= i < keep.len() && !keep[i])
}

/// The fields of a record that are kept, in their order.
pub open spec fn projected(fields: Seq<Seq<char>>, keep: Seq<bool>) -> Seq<Seq<char>>
    decreases fields.len(),
{
    if fields.len() == 0 {
        Seq::empty()
    } else {
        let front = projected(fields.drop_last(), keep);
        if keeps_field(keep, fields.len() - 1) {
            front.push(fields.last())
        } else {
            front
        }
    }
}

/// The header of the partitioned records: the kept fields of the header,
/// then `label`.
pub open spec fn projected_header(header: Seq<Seq<char>>, column: Seq<char>) -> Seq<Seq<char>> {
    projected(header, kept_mask(header, column)).push("label"@)
}

/// The value at position `at` of a record, or the empty text where the
/// record is too short.
pub open spec fn field_or_empty(record: Seq<Seq<char>>, at: int) -> Seq<char> {
    if 0 <= at < record.len() {
        record[at]
    } else {
        Seq::empty()
    }
}

/// A record as it stands in a partition: its kept fields, then its label,
/// which is derived from the field at `label_at`.
pub open spec fn labeled(record: Seq<Seq<char>>, keep: Seq<bool>, label_at: int) -> Seq<
    Seq<char>,
> {
    projected(record, keep).push(label_of(field_or_empty(record, label_at)))
}

/// Every record of a sequence as it stands in a partition.
pub open spec fn labeled_all(
    records: Seq<Seq<Seq<char>>>,
    header: Seq<Seq<char>>,
    column: Seq<char>,
    label_at: int,
) -> Seq<Seq<Seq<char>>> {
    records.map_values(
        |record: Seq<Seq<char>>| labeled(record, kept_mask(header, column), label_at),
    )
}

/// The three sets of a partition and their common header, as plain values.
pub struct Partitioned {
    pub header: Seq<Seq<char>>,
    pub train: Seq<Seq<Seq<char>>>,
    pub validation: Seq<Seq<Seq<char>>>,
    pub test: Seq<Seq<Seq<char>>>,
}

/// The three sets of a partition and their common header.
#[derive(Debug)]
pub struct Partition {
    pub header: Vec<String>,
    pub train: Vec<Vec<String>>,
    pub validation: Vec<Vec<String>>,
    pub test: Vec<Vec<String>>,
}

impl View for Partition {
    type V = Partitioned;

    open spec fn view(&self) -> Partitioned {
        Partitioned {
            header: self.header.deep_view(),
            train: self.train.deep_view(),
            validation: self.validation.deep_view(),
            test: self.test.deep_view(),
        }
    }
}

/// The partition of the records `order`, taken in that order: the first
/// `train_size` records are the training set, the next `validation_size`
/// the validation set, the rest the test set.
pub open spec fn partitioned(
    order: Seq<Seq<Seq<char>>>,
    header: Seq<Seq<char>>,
    column: Seq<char>,
    label_at: int,
) -> Partitioned {
    let t = train_size(order.len()) as int;
    let v = validation_size(order.len()) as int;
    Partitioned {
        header: projected_header(header, column),
        train: labeled_all(order.subrange(0, t), header, column, label_at),
        validation: labeled_all(order.subrange(t, t + v), header, column, label_at),
        test: labeled_all(order.subrange(t + v, order.len() as int), header, column, label_at),
    }
}

/// The sizes add up: the two rounded shares never exceed the corpus.
pub proof fn lemma_sizes(n: nat)
    ensures
        train_size(n) + validation_size(n) <= n,
        train_size(n) + validation_size(n) + test_size(n) == n,
{
}

/// A partition is complete: the three sets have the sizes that are due,
/// which add up to the size of the corpus, and one after the other they
/// hold every record of the corpus, each once, labelled and projected.
pub proof fn lemma_partition_complete(
    order: Seq<Seq<Seq<char>>>,
    header: Seq<Seq<char>>,
    column: Seq<char>,
    label_at: int,
)
    ensures
        partitioned(order, header, column, label_at).train.len() == train_size(order.len()),
        partitioned(order, header, column, label_at).validation.len() == validation_size(
            order.len(),
        ),
        partitioned(order, header, column, label_at).test.len() == test_size(order.len()),
        partitioned(order, header, column, label_at).train.len() + partitioned(
            order,
            header,
            column,
            label_at,
        ).validation.len() + partitioned(order, header, column, label_at).test.len()
            == order.len(),
        partitioned(order, header, column, label_at).train + partitioned(
            order,
            header,
            column,
            label_at,
        ).validation + partitioned(order, header, column, label_at).test == labeled_all(
            order,
            header,
            column,
            label_at,
        ),
{
    lemma_sizes(order.len());
    let p = partitioned(order, header, column, label_at);
    assert(p.train + p.validation + p.test =~= labeled_all(order, header, column, label_at));
}

/// The label is one of the two words, whatever the value.
pub proof fn lemma_label_total(value: Seq<char>)
    ensures
        label_of(value) == "reliable"@ || label_of(value) == "fake"@,
        label_of(value).len() > 0,
        label_of(value) == "reliable"@ <==> is_reliable(value),
{
    reveal_strlit("reliable");
    reveal_strlit("fake");
}

/// Every record of a partition ends with its label, one of the two words.
pub proof fn lemma_labeled_ends_with_label(record: Seq<Seq<char>>, keep: Seq<bool>, label_at: int)
    ensures
        labeled(record, keep, label_at).len() > 0,
        labeled(record, keep, label_at).last() == "reliable"@ || labeled(
            record,
            keep,
            label_at,
        ).last() == "fake"@,
{
    lemma_label_total(field_or_empty(record, label_at));
}

/// Every record of every set of a partition ends with its label, one of
/// the two words, and that label is `reliable` exactly where the record's
/// label source says so in whatever case.
pub proof fn lemma_partition_labels(
    order: Seq<Seq<Seq<char>>>,
    header: Seq<Seq<char>>,
    column: Seq<char>,
    label_at: int,
    i: int,
)
    requires
        0 <= i < order.len(),
    ensures
        labeled_all(order, header, column, label_at)[i].len() > 0,
        labeled_all(order, header, column, label_at)[i].last() == label_of(
            field_or_empty(order[i], label_at),
        ),
        labeled_all(order, header, column, label_at)[i].last() == "reliable"@ || labeled_all(
            order,
            header,
            column,
            label_at,
        )[i].last() == "fake"@,
{
    lemma_labeled_ends_with_label(order[i], kept_mask(header, column), label_at);
}

/// The sizes of the three sets for a corpus of `n` records.
pub fn split_sizes(n: usize) -> (r: (usize, usize, usize))
    ensures
        r.0 == train_size(n as nat),
        r.1 == validation_size(n as nat),
        r.2 == test_size(n as nat),
        r.0 + r.1 + r.2 == n,
{
    let train = (n / 5) * 4 + ((n % 5) * 4) / 5;
    let validation = n / 10;
    (train, validation, n - train - validation)
}

/// The label for `value`: `reliable` where the value is that word in
/// whatever case, else `fake`.
pub fn label_for(value: &str) -> (label: &'static str)
    ensures
        label@ == label_of(value@),
{
    let chars = to_chars(value);
    let word = to_chars("reliable");
    proof {
        reveal_strlit("reliable");
    }
    if chars.len() != word.len() {
        assert(folded(value@).len() != "reliable"@.len());
        return "fake";
    }
    let mut i: usize = 0;
    while i < chars.len()
        invariant
            i <= chars.len(),
            chars@ == value@,
            word@ == "reliable"@,
            chars.len() == word.len(),
            forall|k: int| 0 <= k < i ==> ascii_lower(#[trigger] chars@[k]) == word@[k],
        decreases chars.len() - i,
    {
        if lower_ascii(chars[i]) != word[i] {
            assert(folded(value@)[i as int] != "reliable"@[i as int]);
            return "fake";
        }
        i += 1;
    }
    assert(folded(value@) =~= "reliable"@);
    "reliable"
}

/// For each field of the header, whether it is kept.
pub fn kept_columns(header: &Vec<String>, column: &str) -> (keep: Vec<bool>)
    ensures
        keep@ == kept_mask(header.deep_view(), column@),
{
    let plain = String::from_str(column);
    let mut tokens = String::from_str(column);
    tokens.append("-tokens");
    let mut no_stop = String::from_str(column);
    no_stop.append("-tokens_no_stop");
    let mut keep: Vec<bool> = Vec::new();
    let mut i: usize = 0;
    while i < header.len()
        invariant
            i <= header.len(),
            keep.len() == i,
            plain@ == column@,
            tokens@ == column@ + "-tokens"@,
            no_stop@ == column@ + "-tokens_no_stop"@,
            forall|k: int|
                0 <= k < i ==> #[trigger] keep@[k] == !is_excluded(header.deep_view()[k], column@),
        decreases header.len() - i,
    {
        assert(header.deep_view()[i as int] == header@[i as int]@);
        let excluded = header[i] == plain || header[i] == tokens || header[i] == no_stop;
        keep.push(!excluded);
        i += 1;
    }
    assert(keep@ =~= kept_mask(header.deep_view(), column@));
    keep
}

/// The kept fields of `fields`.
pub fn project(fields: &Vec<String>, keep: &Vec<bool>) -> (out: Vec<String>)
    ensures
        out.deep_view() == projected(fields.deep_view(), keep@),
{
    let ghost all = fields.deep_view();
    let mut out: Vec<String> = Vec::new();
    let mut i: usize = 0;
    assert(out.deep_view() =~= Seq::<Seq<char>>::empty());
    while i < fields.len()
        invariant
            i <= fields.len(),
            all == fields.deep_view(),
            out.deep_view() == projected(all.take(i as int), keep@),
        decreases fields.len() - i,
    {
        let ghost before = out.deep_view();
        proof {
            let upto = all.take(i + 1);
            assert(upto.drop_last() == all.take(i as int));
            assert(upto.last() == all[i as int]);
        }
        if i >= keep.len() || keep[i] {
            out.push(fields[i].clone());
            assert(out.deep_view() =~= before.push(all[i as int]));
        }
        i += 1;
    }
    assert(all.take(fields.len() as int) == all);
    out
}

/// The header of the partitioned records.
pub fn project_header(header: &Vec<String>, column: &str) -> (out: Vec<String>)
    ensures
        out.deep_view() == projected_header(header.deep_view(), column@),
{
    let keep = kept_columns(header, column);
    let mut out = project(header, &keep);
    let ghost before = out.deep_view();
    out.push(String::from_str("label"));
    assert(out.deep_view() =~= before.push("label"@));
    out
}

/// One record as it stands in a partition.
pub fn label_record(record: &Vec<String>, keep: &Vec<bool>, label_at: usize) -> (out: Vec<String>)
    ensures
        out.deep_view() == labeled(record.deep_view(), keep@, label_at as int),
{
    let mut out = project(record, keep);
    let ghost before = out.deep_view();
    let label = if label_at < record.len() {
        assert(record.deep_view()[label_at as int] == record@[label_at as int]@);
        label_for(record[label_at].as_str())
    } else {
        proof {
            lemma_str_empty();
        }
        label_for("")
    };
    out.push(String::from_str(label));
    assert(out.deep_view() =~= before.push(
        label_of(field_or_empty(record.deep_view(), label_at as int)),
    ));
    out
}

proof fn lemma_str_empty()
    ensures
        ""@ == Seq::<char>::empty(),
{
    reveal_strlit("");
    assert(""@ =~= Seq::<char>::empty());
}

/// The records `records[from..to]` as they stand in a partition.
pub fn label_range(
    records: &Vec<Vec<String>>,
    from: usize,
    to: usize,
    header: &Vec<String>,
    column: &str,
    label_at: usize,
) -> (out: Vec<Vec<String>>)
    requires
        from <= to <= records.len(),
    ensures
        out.deep_view() == labeled_all(
            records.deep_view().subrange(from as int, to as int),
            header.deep_view(),
            column@,
            label_at as int,
        ),
{
    let keep = kept_columns(header, column);
    let ghost h = header.deep_view();
    let ghost all = records.deep_view();
    let mut out: Vec<Vec<String>> = Vec::new();
    let mut i: usize = from;
    assert(out.deep_view() =~= labeled_all(
        all.subrange(from as int, from as int),
        h,
        column@,
        label_at as int,
    ));
    while i < to
        invariant
            from <= i <= to <= records.len(),
            h == header.deep_view(),
            all == records.deep_view(),
            keep@ == kept_mask(h, column@),
            out.deep_view() == labeled_all(
                all.subrange(from as int, i as int),
                h,
                column@,
                label_at as int,
            ),
        decreases to - i,
    {
        let ghost before = out.deep_view();
        let record = label_record(&records[i], &keep, label_at);
        proof {
            assert(all[i as int] == records@[i as int].deep_view());
            assert(record.deep_view() == labeled(all[i as int], keep@, label_at as int));
        }
        out.push(record);
        proof {
            assert(out.deep_view() =~= before.push(record.deep_view()));
            assert(all.subrange(from as int, i + 1) == all.subrange(from as int, i as int).push(
                all[i as int],
            ));
            assert(out.deep_view() =~= labeled_all(
                all.subrange(from as int, i + 1),
                h,
                column@,
                label_at as int,
            ));
        }
        i += 1;
    }
    out
}

/// Reduce every record to the kept fields and give it its label, without
/// cutting the corpus. The label comes from the first field of the header
/// that is named `label_column`; it is an error for the header to have no
/// such field.
pub fn label_and_project(
    header: &Vec<String>,
    records: &Vec<Vec<String>>,
    column: &str,
    label_column: &str,
) -> (r: Result<(Vec<String>, Vec<Vec<String>>), PipelineError>)
    ensures
        match r {
            Ok((out_header, out)) => {
                &&& first_column(header.deep_view(), label_column@) matches Some(label_at)
                &&& out_header.deep_view() == projected_header(header.deep_view(), column@)
                &&& out.deep_view() == labeled_all(
                    records.deep_view(),
                    header.deep_view(),
                    column@,
                    label_at,
                )
            },
            Err(e) => {
                &&& first_column(header.deep_view(), label_column@) is None
                &&& e matches PipelineError::ColumnNotFound(name)
                &&& name@ == label_column@
            },
        },
{
    match find_column(header, label_column) {
        Some(label_at) => {
            let out_header = project_header(header, column);
            let out = label_range(records, 0, records.len(), header, column, label_at);
            assert(records.deep_view().subrange(0, records.len() as int) == records.deep_view());
            Ok((out_header, out))
        },
        None => Err(PipelineError::ColumnNotFound(String::from_str(label_column))),
    }
}

/// Cut the records, in the order in which they stand, into the training,
/// the validation and the test set, each record labelled and projected.
/// It is an error for the header to have no field named `label_column`.
pub fn partition(
    header: &Vec<String>,
    records: &Vec<Vec<String>>,
    column: &str,
    label_column: &str,
) -> (r: Result<Partition, PipelineError>)
    ensures
        match r {
            Ok(p) => {
                &&& first_column(header.deep_view(), label_column@) matches Some(label_at)
                &&& p@ == partitioned(records.deep_view(), header.deep_view(), column@, label_at)
            },
            Err(e) => {
                &&& first_column(header.deep_view(), label_column@) is None
                &&& e matches PipelineError::ColumnNotFound(name)
                &&& name@ == label_column@
            },
        },
{
    match find_column(header, label_column) {
        Some(label_at) => {
            let n = records.len();
            let (t, v, _) = split_sizes(n);
            let out_header = project_header(header, column);
            let train = label_range(records, 0, t, header, column, label_at);
            let validation = label_range(records, t, t + v, header, column, label_at);
            let test = label_range(records, t + v, n, header, column, label_at);
            Ok(Partition { header: out_header, train, validation, test })
        },
        None => Err(PipelineError::ColumnNotFound(String::from_str(label_column))),
    }
}

/// `SliceRandom::shuffle` of the `rand` crate, with the generator that
/// `rand::rng` hands out: afterwards `records` holds the records it held
/// before, each as often as before, in an order that chance picks. The
/// generator takes its seed from the operating system, which has to offer
/// one.
#[verifier::external_body]
fn shuffle(records: &mut Vec<Vec<String>>)
    ensures
        final(records).deep_view().to_multiset() == old(records).deep_view().to_multiset(),
        final(records).len() == old(records).len(),
{
    records.shuffle(&mut rand::rng());
}

/// Shuffle the records and partition them in the order that comes out.
/// Which order that is, is left to chance: the partition is that of some
/// rearrangement of the records.
pub fn shuffle_and_partition(
    header: &Vec<String>,
    records: Vec<Vec<String>>,
    column: &str,
    label_column: &str,
) -> (r: Result<Partition, PipelineError>)
    ensures
        match r {
            Ok(p) => {
                &&& first_column(header.deep_view(), label_column@) matches Some(label_at)
                &&& exists|order: Seq<Seq<Seq<char>>>|
                    {
                        &&& order.to_multiset() == records.deep_view().to_multiset()
                        &&& order.len() == records.len()
                        &&& p@ == #[trigger] partitioned(
                            order,
                            header.deep_view(),
                            column@,
                            label_at,
                        )
                    }
            },
            Err(e) => {
                &&& first_column(header.deep_view(), label_column@) is None
                &&& e matches PipelineError::ColumnNotFound(name)
                &&& name@ == label_column@
            },
        },
{
    let mut shuffled = records;
    shuffle(&mut shuffled);
    partition(header, &shuffled, column, label_column)
}

} // verus!
