//! The record store, seen from the engines: the statements to run against
//! it, and the reading of its rows.
//!
//! The store keeps one row for each stored record, with the columns
//! `reference`, `text` and `embedding`. Nothing makes a reference unique: a
//! passage that is ingested twice is stored twice, and deleting a reference
//! removes every row that carries it.

use crate::passage::{Paragraph, ParagraphRecord, ParagraphRecordView, ParagraphView};
use vstd::prelude::*;

verus! {

/// The column that holds a record's reference.
pub const REFERENCE_COLUMN: &'static str = "reference";

/// The column that holds a record's text.
pub const TEXT_COLUMN: &'static str = "text";

/// The column that holds a record's encoded embedding.
pub const EMBEDDING_COLUMN: &'static str = "embedding";

/// Reads every row.
pub const SELECT_ALL: &'static str = "SELECT * FROM paragraphs";

/// Adds a row; its parameters are the reference, the text and the embedding.
pub const INSERT_RECORD: &'static str =
    "INSERT INTO paragraphs ('reference', 'text', 'embedding') VALUES (?, ?, ?);";

/// Removes the rows of one reference, its only parameter.
pub const DELETE_BY_REFERENCE: &'static str = "DELETE FROM paragraphs WHERE reference = (?)";

/// Asks how many rows the statement before it removed; the answer is the
/// only value of the only row.
pub const REMOVED_ROWS: &'static str = "SELECT changes()";

/// A value to bind to a statement.
#[derive(Debug)]
pub enum Parameter {
    /// A text value.
    Text(String),
    /// An embedding, to be bound as a blob in the store's encoding.
    Embedding(Vec<u32>),
}

/// A statement with the values to bind to it, in the order of its
/// placeholders.
#[derive(Debug)]
pub struct Statement {
    pub sql: &'static str,
    pub parameters: Vec<Parameter>,
}

/// The statement that reads every row.
pub fn select_all() -> (statement: Statement)
    ensures
        statement.sql@ == SELECT_ALL@,
        statement.parameters.len() == 0,
{
    Statement { sql: SELECT_ALL, parameters: Vec::new() }
}

/// The statement that stores `record` in a row of its own.
pub fn insert_record(record: &ParagraphRecord) -> (statement: Statement)
    ensures
        statement.sql@ == INSERT_RECORD@,
        statement.parameters.len() == 3,
        statement.parameters[0] matches Parameter::Text(reference) && reference@
            == record.reference@,
        statement.parameters[1] matches Parameter::Text(text) && text@ == record.text@,
        statement.parameters[2] matches Parameter::Embedding(embedding) && embedding@
            == record.embedding@,
{
    let embedding = record.embedding.clone();
    assert(embedding@ =~= record.embedding@);
    let mut parameters: Vec<Parameter> = Vec::new();
    parameters.push(Parameter::Text(record.reference.clone()));
    parameters.push(Parameter::Text(record.text.clone()));
    parameters.push(Parameter::Embedding(embedding));
    Statement { sql: INSERT_RECORD, parameters }
}

/// The statement that removes every row stored under `reference`.
pub fn delete_by_reference(reference: &str) -> (statement: Statement)
    ensures
        statement.sql@ == DELETE_BY_REFERENCE@,
        statement.parameters.len() == 1,
        statement.parameters[0] matches Parameter::Text(bound) && bound@ == reference@,
{
    let mut parameters: Vec<Parameter> = Vec::new();
    parameters.push(Parameter::Text(reference.to_owned()));
    Statement { sql: DELETE_BY_REFERENCE, parameters }
}

/// The statement that asks how many rows the deletion before it removed.
pub fn removed_rows() -> (statement: Statement)
    ensures
        statement.sql@ == REMOVED_ROWS@,
        statement.parameters.len() == 0,
{
    Statement { sql: REMOVED_ROWS, parameters: Vec::new() }
}

/// Whether a deletion that removed `rows_removed` rows deleted anything. A
/// reference that the store does not hold is no failure: nothing is removed
/// and the answer is `false`.
pub fn was_deleted(rows_removed: u64) -> (deleted: bool)
    ensures
        deleted == (rows_removed > 0),
{
    rows_removed > 0
}

/// Why a row is no stored record.
#[derive(Clone, Copy, Debug, PartialEq, Eq)]
pub enum MalformedRecordError {
    /// The row has no embedding column.
    EmbeddingMissing,
    /// The embedding column holds something other than a blob.
    EmbeddingNotBlob,
    /// The embedding column holds a blob that is not an encoded embedding.
    EmbeddingUndecodable,
    /// The row has no reference column, or no text in it.
    ReferenceMissing,
    /// The row has no text column, or no text in it.
    TextMissing,
}

/// A row, as far as a passage is read from it: the reference and text
/// columns, where the row has them and they hold text.
#[derive(Debug)]
pub struct ParagraphRow {
    pub reference: Option<String>,
    pub text: Option<String>,
}

/// What a row holds in its embedding column.
#[derive(Debug)]
pub enum EmbeddingCell {
    /// The row has no such column.
    Missing,
    /// The column holds something other than a blob.
    NotBlob,
    /// The column holds a blob that is not an encoded embedding.
    Undecodable,
    /// The column holds this embedding.
    Vector(Vec<u32>),
}

/// A row, as far as a stored record is read from it.
#[derive(Debug)]
pub struct RecordRow {
    pub embedding: EmbeddingCell,
    pub paragraph: ParagraphRow,
}

impl ParagraphRow {
    /// The passage that the row stores, or what keeps it from storing one.
    /// The reference is looked at before the text.
    pub open spec fn decoded(&self) -> Result<ParagraphView, MalformedRecordError> {
        match (self.reference, self.text) {
            (None, _) => Err(MalformedRecordError::ReferenceMissing),
            (Some(_), None) => Err(MalformedRecordError::TextMissing),
            (Some(reference), Some(text)) => Ok(
                ParagraphView { reference: reference@, text: text@ },
            ),
        }
    }
}

impl RecordRow {
    /// The record that the row stores, or what keeps it from storing one.
    /// The embedding is looked at before the passage.
    pub open spec fn decoded(&self) -> Result<ParagraphRecordView, MalformedRecordError> {
        match self.embedding {
            EmbeddingCell::Missing => Err(MalformedRecordError::EmbeddingMissing),
            EmbeddingCell::NotBlob => Err(MalformedRecordError::EmbeddingNotBlob),
            EmbeddingCell::Undecodable => Err(MalformedRecordError::EmbeddingUndecodable),
            EmbeddingCell::Vector(embedding) => match self.paragraph.decoded() {
                Err(error) => Err(error),
                Ok(paragraph) => Ok(
                    ParagraphRecordView {
                        embedding: embedding@,
                        reference: paragraph.reference,
                        text: paragraph.text,
                    },
                ),
            },
        }
    }
}

/// Reads the passage out of a row.
pub fn decode_paragraph(row: ParagraphRow) -> (decoded: Result<Paragraph, MalformedRecordError>)
    ensures
        match decoded {
            Ok(paragraph) => row.decoded() == Ok::<ParagraphView, MalformedRecordError>(
                paragraph@,
            ),
            Err(error) => row.decoded() == Err::<ParagraphView, MalformedRecordError>(error),
        },
{
    let ParagraphRow { reference, text } = row;
    match reference {
        None => Err(MalformedRecordError::ReferenceMissing),
        Some(reference) => match text {
            None => Err(MalformedRecordError::TextMissing),
            Some(text) => Ok(Paragraph { reference, text }),
        },
    }
}

/// Reads the stored record out of a row.
pub fn decode_record(row: RecordRow) -> (decoded: Result<ParagraphRecord, MalformedRecordError>)
    ensures
        match decoded {
            Ok(record) => row.decoded() == Ok::<ParagraphRecordView, MalformedRecordError>(
                record@,
            ),
            Err(error) => row.decoded() == Err::<ParagraphRecordView, MalformedRecordError>(
                error,
            ),
        },
{
    let RecordRow { embedding, paragraph } = row;
    match embedding {
        EmbeddingCell::Missing => Err(MalformedRecordError::EmbeddingMissing),
        EmbeddingCell::NotBlob => Err(MalformedRecordError::EmbeddingNotBlob),
        EmbeddingCell::Undecodable => Err(MalformedRecordError::EmbeddingUndecodable),
        EmbeddingCell::Vector(embedding) => match decode_paragraph(paragraph) {
            Err(error) => Err(error),
            Ok(Paragraph { reference, text }) => Ok(
                ParagraphRecord { embedding, reference, text },
            ),
        },
    }
}

/// A row that was passed over, by its position among the rows read, and why.
#[derive(Clone, Copy, Debug, PartialEq, Eq)]
pub struct MalformedRow {
    pub row: usize,
    pub error: MalformedRecordError,
}

/// What was read from those rows that could be read, in the order of the
/// rows.
pub open spec fn readable<T>(outcomes: Seq<Result<T, MalformedRecordError>>) -> Seq<T>
    decreases outcomes.len(),
{
    if outcomes.len() == 0 {
        Seq::empty()
    } else {
        match outcomes.last() {
            Ok(value) => readable(outcomes.drop_last()).push(value),
            Err(_) => readable(outcomes.drop_last()),
        }
    }
}

/// The rows that could not be read, in the order of the rows.
pub open spec fn unreadable<T>(outcomes: Seq<Result<T, MalformedRecordError>>) -> Seq<
    MalformedRow,
>
    decreases outcomes.len(),
{
    if outcomes.len() == 0 {
        Seq::empty()
    } else {
        match outcomes.last() {
            Ok(_) => unreadable(outcomes.drop_last()),
            Err(error) => unreadable(outcomes.drop_last()).push(
                MalformedRow { row: (outcomes.len() - 1) as usize, error },
            ),
        }
    }
}

/// What each of `rows` decodes to as a passage.
pub open spec fn paragraph_outcomes(rows: Seq<ParagraphRow>) -> Seq<
    Result<ParagraphView, MalformedRecordError>,
> {
    rows.map_values(|row: ParagraphRow| row.decoded())
}

/// What each of `rows` decodes to as a stored record.
pub open spec fn record_outcomes(rows: Seq<RecordRow>) -> Seq<
    Result<ParagraphRecordView, MalformedRecordError>,
> {
    rows.map_values(|row: RecordRow| row.decoded())
}

/// Every row is either read or reported, a reported row is one that could
/// not be read, reported with the reason why, and the reports come in the
/// order of the rows.
pub proof fn lemma_rows_are_accounted_for<T>(outcomes: Seq<Result<T, MalformedRecordError>>)
    requires
        outcomes.len() <= usize::MAX,
    ensures
        readable(outcomes).len() + unreadable(outcomes).len() == outcomes.len(),
        forall|i: int|
            0 <= i < unreadable(outcomes).len() ==> {
                let report = #[trigger] unreadable(outcomes)[i];
                0 <= report.row < outcomes.len() && outcomes[report.row as int] == Err::<
                    T,
                    MalformedRecordError,
                >(report.error)
            },
        forall|i: int, j: int|
            0 <= i < j < unreadable(outcomes).len() ==> (#[trigger] unreadable(outcomes)[i]).row
                < (#[trigger] unreadable(outcomes)[j]).row,
    decreases outcomes.len(),
{
    if outcomes.len() > 0 {
        let front = outcomes.drop_last();
        let reports = unreadable(outcomes);
        let earlier = unreadable(front);
        lemma_rows_are_accounted_for(front);
        assert forall|i: int| 0 <= i < reports.len() implies {
            let report = #[trigger] reports[i];
            0 <= report.row < outcomes.len() && outcomes[report.row as int] == Err::<
                T,
                MalformedRecordError,
            >(report.error)
        } by {
            if i < earlier.len() {
                let report = earlier[i];
                assert(reports[i] == report);
                assert(front[report.row as int] == outcomes[report.row as int]);
            }
        }
        assert forall|i: int, j: int| 0 <= i < j < reports.len() implies (#[trigger] reports[i]).row
            < (#[trigger] reports[j]).row by {
            assert(reports[i] == earlier[i]);
            if j < earlier.len() {
                assert(reports[j] == earlier[j]);
            }
        }
    }
}

/// A listing depends on nothing but what the rows hold: rows that hold the
/// same, read again, give the same passages and the same reports.
pub proof fn lemma_listing_is_repeatable(first: Seq<ParagraphRow>, second: Seq<ParagraphRow>)
    requires
        first.len() == second.len(),
        forall|i: int|
            0 <= i < first.len() ==> (#[trigger] first[i]).reference.deep_view()
                == second[i].reference.deep_view() && first[i].text.deep_view()
                == second[i].text.deep_view(),
    ensures
        readable(paragraph_outcomes(first)) == readable(paragraph_outcomes(second)),
        unreadable(paragraph_outcomes(first)) == unreadable(paragraph_outcomes(second)),
{
    assert(paragraph_outcomes(first) =~= paragraph_outcomes(second));
}

/// What is stored is read back: a row that holds the reference, the text and
/// the embedding of a record decodes to that record, and to its passage.
pub proof fn lemma_stored_record_reads_back(row: RecordRow, record: ParagraphRecordView)
    requires
        row.embedding matches EmbeddingCell::Vector(embedding) && embedding@ == record.embedding,
        row.paragraph.reference matches Some(reference) && reference@ == record.reference,
        row.paragraph.text matches Some(text) && text@ == record.text,
    ensures
        row.decoded() == Ok::<ParagraphRecordView, MalformedRecordError>(record),
        row.paragraph.decoded() == Ok::<ParagraphView, MalformedRecordError>(record.paragraph()),
{
}

/// The passages read from the rows of the store, and the rows passed over.
#[derive(Debug)]
pub struct Listing {
    pub paragraphs: Vec<Paragraph>,
    pub malformed: Vec<MalformedRow>,
}

/// The stored records read from the rows of the store, and the rows passed
/// over.
#[derive(Debug)]
pub struct RecordScan {
    pub records: Vec<ParagraphRecord>,
    pub malformed: Vec<MalformedRow>,
}

/// Lists the stored passages, without their embeddings, in the order of the
/// rows. A row that holds no passage is passed over and reported; it does not
/// keep the other rows from being listed.
pub fn list_all(rows: Vec<ParagraphRow>) -> (listing: Listing)
    ensures
        listing.paragraphs.deep_view() == readable(paragraph_outcomes(rows@)),
        listing.malformed@ == unreadable(paragraph_outcomes(rows@)),
{
    let ghost outcomes = paragraph_outcomes(rows@);
    let mut paragraphs: Vec<Paragraph> = Vec::new();
    let mut malformed: Vec<MalformedRow> = Vec::new();
    let mut at: usize = 0;
    let total: usize = rows.len();
    assert(outcomes.take(0) =~= Seq::empty());
    for row in it: rows
        invariant
            it.seq() == rows@,
            rows@.len() == total,
            outcomes == paragraph_outcomes(rows@),
            at == it.index(),
            paragraphs.deep_view() == readable(outcomes.take(at as int)),
            malformed@ == unreadable(outcomes.take(at as int)),
    {
        let ghost before = paragraphs.deep_view();
        proof {
            assert(outcomes.take(at + 1).drop_last() =~= outcomes.take(at as int));
            assert(outcomes.take(at + 1).last() == row.decoded());
        }
        match decode_paragraph(row) {
            Ok(paragraph) => {
                paragraphs.push(paragraph);
                assert(paragraphs.deep_view() =~= before.push(paragraph@));
            },
            Err(error) => {
                malformed.push(MalformedRow { row: at, error });
            },
        }
        at += 1;
    }
    assert(outcomes.take(at as int) =~= outcomes);
    Listing { paragraphs, malformed }
}

/// Reads the stored records, in the order of the rows. A row that holds no
/// record is passed over and reported; it does not keep the other rows from
/// being read.
pub fn decode_records(rows: Vec<RecordRow>) -> (scan: RecordScan)
    ensures
        scan.records.deep_view() == readable(record_outcomes(rows@)),
        scan.malformed@ == unreadable(record_outcomes(rows@)),
{
    let ghost outcomes = record_outcomes(rows@);
    let mut records: Vec<ParagraphRecord> = Vec::new();
    let mut malformed: Vec<MalformedRow> = Vec::new();
    let mut at: usize = 0;
    let total: usize = rows.len();
    assert(outcomes.take(0) =~= Seq::empty());
    for row in it: rows
        invariant
            it.seq() == rows@,
            rows@.len() == total,
            outcomes == record_outcomes(rows@),
            at == it.index(),
            records.deep_view() == readable(outcomes.take(at as int)),
            malformed@ == unreadable(outcomes.take(at as int)),
    {
        let ghost before = records.deep_view();
        proof {
            assert(outcomes.take(at + 1).drop_last() =~= outcomes.take(at as int));
            assert(outcomes.take(at + 1).last() == row.decoded());
        }
        match decode_record(row) {
            Ok(record) => {
                records.push(record);
                assert(records.deep_view() =~= before.push(record@));
            },
            Err(error) => {
                malformed.push(MalformedRow { row: at, error });
            },
        }
        at += 1;
    }
    assert(outcomes.take(at as int) =~= outcomes);
    RecordScan { records, malformed }
}

} // verus!
