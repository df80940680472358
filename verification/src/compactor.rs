//! The per-row and per-chunk decisions of a compaction run.
//!
//! A row is joined with the decoded text of its blob, serialized as one line and
//! compressed. A row whose blob is missing is dropped and counted; any other
//! failure of a row ends the run. A chunk in which more than one row in a hundred
//! is missing ends the run too.

use vstd::prelude::*;
use vstd::string::StringExecFns;
use crate::container::assemble_borrowed;
use crate::container::assembled;
use crate::container::compress_row;
use crate::container::compressed;
use crate::container::gunzip;
use crate::container::gunzipped;
use crate::container::payload_model;
use crate::container::CompressedPayload;
use crate::container::Container;
use crate::container::PayloadModel;
use crate::encoding::decode_to_string;
use crate::encoding::decoded;
use crate::encoding::Decoded;
use crate::encoding::DecodingError;
use crate::json::row_get;
use crate::json::row_insert;
use crate::json::row_line;
use crate::json::JsonModel;
use crate::json::JsonValue;
use crate::json::Row;
use crate::json::RowModel;

verus! {

/// The blob that a row refers to, and the encoding its text is in.
#[derive(Debug, Clone, PartialEq, Eq)]
pub struct BlobReference {
    pub blob_id: String,
    pub src_encoding: String,
}

/// What reading a row's blob file came to.
#[derive(Debug, Clone, PartialEq, Eq)]
pub enum BlobFetch {
    /// The bytes of the file.
    Found(Vec<u8>),
    /// No such file.
    Missing,
    /// The file is there and could not be read.
    Failed,
}

/// Mathematical model of a [`BlobFetch`].
pub ghost enum BlobModel {
    Found(Seq<u8>),
    Missing,
    Failed,
}

impl View for BlobFetch {
    type V = BlobModel;

    open spec fn view(&self) -> BlobModel {
        match self {
            BlobFetch::Found(data) => BlobModel::Found(data@),
            BlobFetch::Missing => BlobModel::Missing,
            BlobFetch::Failed => BlobModel::Failed,
        }
    }
}

impl DeepView for BlobFetch {
    type V = BlobModel;

    open spec fn deep_view(&self) -> BlobModel {
        self@
    }
}

/// Why a row gave no line.
#[derive(Debug, Clone, PartialEq, Eq)]
pub enum RowError {
    /// The blob's file does not exist.
    MissingBlob,
    /// The row lacks `blob_id` or `src_encoding`, or one of them is no string.
    MalformedRecord,
    /// The blob's file could not be read.
    BlobUnreadable,
    /// The blob's file is no gzip file, or is damaged.
    CorruptBlob,
    /// The blob's bytes could not be decoded.
    Decoding(DecodingError),
    /// The line could not be compressed.
    CompressionFailed,
}

/// Mathematical model of a [`RowError`].
pub ghost enum RowErrorModel {
    MissingBlob,
    MalformedRecord,
    BlobUnreadable,
    CorruptBlob,
    UnsupportedEncoding(Seq<char>),
    DecodingFailed(Seq<char>),
    CompressionFailed,
}

impl View for RowError {
    type V = RowErrorModel;

    open spec fn view(&self) -> RowErrorModel {
        match self {
            RowError::MissingBlob => RowErrorModel::MissingBlob,
            RowError::MalformedRecord => RowErrorModel::MalformedRecord,
            RowError::BlobUnreadable => RowErrorModel::BlobUnreadable,
            RowError::CorruptBlob => RowErrorModel::CorruptBlob,
            RowError::Decoding(DecodingError::UnsupportedEncoding(name)) =>
                RowErrorModel::UnsupportedEncoding(name@),
            RowError::Decoding(DecodingError::DecodingFailed(name)) =>
                RowErrorModel::DecodingFailed(name@),
            RowError::CompressionFailed => RowErrorModel::CompressionFailed,
        }
    }
}

/// What became of one row of a chunk.
#[derive(Debug, Clone, PartialEq, Eq)]
pub enum RowOutcome {
    /// The row's compressed line.
    Compressed(CompressedPayload),
    /// The row's blob is missing; the row is dropped.
    MissingBlob,
    /// The row failed in a way that ends the run.
    Fatal(RowError),
}

/// Mathematical model of a [`RowOutcome`].
pub ghost enum OutcomeModel {
    Compressed(PayloadModel),
    MissingBlob,
    Fatal(RowErrorModel),
}

impl View for RowOutcome {
    type V = OutcomeModel;

    open spec fn view(&self) -> OutcomeModel {
        match self {
            RowOutcome::Compressed(payload) => OutcomeModel::Compressed(payload@),
            RowOutcome::MissingBlob => OutcomeModel::MissingBlob,
            RowOutcome::Fatal(error) => OutcomeModel::Fatal(error@),
        }
    }
}

impl DeepView for RowOutcome {
    type V = OutcomeModel;

    open spec fn deep_view(&self) -> OutcomeModel {
        self@
    }
}

/// Why a run ended.
#[derive(Debug, Clone, PartialEq, Eq)]
pub enum RunError {
    /// More than one row in a hundred of a chunk has no blob.
    TooManyMissing { missing_count: usize, chunk_size: usize },
    /// A row failed.
    Fatal(RowError),
}

/// The string that a row holds under `key`.
pub open spec fn string_field(row: RowModel, key: Seq<char>) -> Option<Seq<char>> {
    match row_get(row, key) {
        Some(JsonModel::String(text)) => Some(text),
        _ => None,
    }
}

/// The blob id and the source encoding of a row, where it holds both as strings.
pub open spec fn reference_of(row: RowModel) -> Option<(Seq<char>, Seq<char>)> {
    match (string_field(row, "blob_id"@), string_field(row, "src_encoding"@)) {
        (Some(blob_id), Some(src_encoding)) => Some((blob_id, src_encoding)),
        _ => None,
    }
}

/// The row with the decoded text of its blob under `contents`, or why there is
/// none.
pub open spec fn merged(row: RowModel, blob: BlobModel) -> Result<RowModel, RowErrorModel> {
    match reference_of(row) {
        None => Err(RowErrorModel::MalformedRecord),
        Some((_, src_encoding)) => match blob {
            BlobModel::Missing => Err(RowErrorModel::MissingBlob),
            BlobModel::Failed => Err(RowErrorModel::BlobUnreadable),
            BlobModel::Found(data) => match gunzipped(data) {
                None => Err(RowErrorModel::CorruptBlob),
                Some(raw) => match decoded(raw, src_encoding) {
                    Decoded::Text(text) => Ok(
                        row_insert(row, "contents"@, JsonModel::String(text)),
                    ),
                    Decoded::Unsupported => Err(RowErrorModel::UnsupportedEncoding(src_encoding)),
                    Decoded::Malformed => Err(RowErrorModel::DecodingFailed(src_encoding)),
                },
            },
        },
    }
}

/// The bytes of a row's line.
pub open spec fn line_bytes(row: RowModel) -> Seq<u8> {
    vstd::utf8::encode_utf8(row_line(row))
}

/// What becomes of a row: its compressed line, or that its blob is missing, or
/// the failure that ends the run.
pub open spec fn outcome_of(row: RowModel, blob: BlobModel, container: Container) -> OutcomeModel {
    match merged(row, blob) {
        Err(RowErrorModel::MissingBlob) => OutcomeModel::MissingBlob,
        Err(error) => OutcomeModel::Fatal(error),
        Ok(full) => match compressed(container, line_bytes(full)) {
            Some(raw_bytes) => OutcomeModel::Compressed(payload_model(line_bytes(full), raw_bytes)),
            None => OutcomeModel::Fatal(RowErrorModel::CompressionFailed),
        },
    }
}

fn string_of<'a>(row: &'a Row, key: &str) -> (text: Option<&'a str>)
    ensures
        match text {
            Some(found) => string_field(row@, key@) == Some(found@),
            None => string_field(row@, key@) is None,
        },
{
    match row.get(key) {
        Some(value) => value.as_str(),
        None => None,
    }
}

/// Reads the blob id and the source encoding off a row.
pub fn blob_reference(row: &Row) -> (reference: Option<BlobReference>)
    ensures
        match reference {
            Some(found) => reference_of(row@) == Some((found.blob_id@, found.src_encoding@)),
            None => reference_of(row@) is None,
        },
{
    match (string_of(row, "blob_id"), string_of(row, "src_encoding")) {
        (Some(blob_id), Some(src_encoding)) => Some(
            BlobReference {
                blob_id: String::from_str(blob_id),
                src_encoding: String::from_str(src_encoding),
            },
        ),
        _ => None,
    }
}

/// Joins a row with its blob: decompresses the blob, decodes it from the row's
/// source encoding, and sets the text as the row's `contents`.
pub fn process_row(row: &Row, blob: &BlobFetch) -> (result: Result<Row, RowError>)
    ensures
        match result {
            Ok(full) => merged(row@, blob@) == Ok::<RowModel, RowErrorModel>(full@),
            Err(error) => merged(row@, blob@) == Err::<RowModel, RowErrorModel>(error@),
        },
{
    let reference = match blob_reference(row) {
        Some(found) => found,
        None => {
            return Err(RowError::MalformedRecord);
        },
    };
    let data = match blob {
        BlobFetch::Found(data) => data,
        BlobFetch::Missing => {
            return Err(RowError::MissingBlob);
        },
        BlobFetch::Failed => {
            return Err(RowError::BlobUnreadable);
        },
    };
    let raw = match gunzip(data.as_slice()) {
        Some(raw) => raw,
        None => {
            return Err(RowError::CorruptBlob);
        },
    };
    match decode_to_string(raw.as_slice(), reference.src_encoding.as_str()) {
        Ok(text) => {
            let mut full = row.clone();
            full.insert(String::from_str("contents"), JsonValue::String(text));
            Ok(full)
        },
        Err(error) => Err(RowError::Decoding(error)),
    }
}

/// Turns a joined row, or the reason there is none, into the row's outcome:
/// the row is serialized as one line and the line is compressed.
pub fn finish_row(joined: Result<Row, RowError>, container: Container) -> (outcome: RowOutcome)
    ensures
        outcome@ == match joined {
            Err(RowError::MissingBlob) => OutcomeModel::MissingBlob,
            Err(error) => OutcomeModel::Fatal(error@),
            Ok(full) => match compressed(container, line_bytes(full@)) {
                Some(raw_bytes) => OutcomeModel::Compressed(
                    payload_model(line_bytes(full@), raw_bytes),
                ),
                None => OutcomeModel::Fatal(RowErrorModel::CompressionFailed),
            },
        },
{
    match joined {
        Err(RowError::MissingBlob) => RowOutcome::MissingBlob,
        Err(error) => RowOutcome::Fatal(error),
        Ok(full) => {
            let line = full.to_json_line();
            match compress_row(line.as_str().as_bytes(), container) {
                Some(payload) => RowOutcome::Compressed(payload),
                None => RowOutcome::Fatal(RowError::CompressionFailed),
            }
        },
    }
}

/// Works one row of a chunk through to its outcome.
pub fn compact_row(row: &Row, blob: &BlobFetch, container: Container) -> (outcome: RowOutcome)
    ensures
        outcome@ == outcome_of(row@, blob@, container),
{
    finish_row(process_row(row, blob), container)
}

/// The failure of the first row that failed in a way that ends the run.
pub open spec fn first_fatal(outcomes: Seq<OutcomeModel>) -> Option<RowErrorModel>
    decreases outcomes.len(),
{
    if outcomes.len() == 0 {
        None
    } else {
        match first_fatal(outcomes.drop_last()) {
            Some(error) => Some(error),
            None => match outcomes.last() {
                OutcomeModel::Fatal(error) => Some(error),
                _ => None,
            },
        }
    }
}

/// The number of rows whose blob is missing.
pub open spec fn missing_count(outcomes: Seq<OutcomeModel>) -> nat
    decreases outcomes.len(),
{
    if outcomes.len() == 0 {
        0
    } else {
        missing_count(outcomes.drop_last()) + if outcomes.last() is MissingBlob {
            1nat
        } else {
            0nat
        }
    }
}

/// The payloads of the rows that gave one, in row order.
pub open spec fn survivors(outcomes: Seq<OutcomeModel>) -> Seq<PayloadModel>
    decreases outcomes.len(),
{
    if outcomes.len() == 0 {
        Seq::empty()
    } else {
        let before = survivors(outcomes.drop_last());
        match outcomes.last() {
            OutcomeModel::Compressed(payload) => before.push(payload),
            _ => before,
        }
    }
}

/// Whether the missing rows are more than one in a hundred of the chunk.
pub open spec fn too_many_missing(missing: nat, chunk_size: nat) -> bool {
    missing * 100 > chunk_size
}

/// Decides whether the missing rows are more than one in a hundred of the chunk.
pub fn exceeds_missing_threshold(missing: usize, chunk_size: usize) -> (exceeded: bool)
    ensures
        exceeded == too_many_missing(missing as nat, chunk_size as nat),
{
    (missing as u128) * 100 > chunk_size as u128
}

/// No more rows are missing than there are rows.
pub proof fn lemma_missing_count_bound(outcomes: Seq<OutcomeModel>)
    ensures
        missing_count(outcomes) <= outcomes.len(),
    decreases outcomes.len(),
{
    if outcomes.len() > 0 {
        lemma_missing_count_bound(outcomes.drop_last());
    }
}

/// What a chunk comes to: the first fatal failure; else the count of missing
/// rows where they are too many; else the artifact of the surviving rows.
pub ghost enum ChunkModel {
    Artifact(Seq<u8>),
    TooManyMissing { missing_count: nat, chunk_size: nat },
    Fatal(RowErrorModel),
}

/// What a chunk comes to, from its rows' outcomes.
pub open spec fn chunk_of(outcomes: Seq<OutcomeModel>, container: Container) -> ChunkModel {
    match first_fatal(outcomes) {
        Some(error) => ChunkModel::Fatal(error),
        None => if too_many_missing(missing_count(outcomes), outcomes.len()) {
            ChunkModel::TooManyMissing {
                missing_count: missing_count(outcomes),
                chunk_size: outcomes.len(),
            }
        } else {
            ChunkModel::Artifact(assembled(container, survivors(outcomes)))
        },
    }
}

/// Whether a chunk's result says what `expected` says.
pub open spec fn chunk_agrees(result: Result<Vec<u8>, RunError>, expected: ChunkModel) -> bool {
    match result {
        Ok(artifact) => expected == ChunkModel::Artifact(artifact@),
        Err(RunError::TooManyMissing { missing_count, chunk_size }) => expected
            == (ChunkModel::TooManyMissing {
            missing_count: missing_count as nat,
            chunk_size: chunk_size as nat,
        }),
        Err(RunError::Fatal(error)) => expected == ChunkModel::Fatal(error@),
    }
}

fn duplicate_error(error: &RowError) -> (copy: RowError)
    ensures
        copy@ == error@,
{
    match error {
        RowError::MissingBlob => RowError::MissingBlob,
        RowError::MalformedRecord => RowError::MalformedRecord,
        RowError::BlobUnreadable => RowError::BlobUnreadable,
        RowError::CorruptBlob => RowError::CorruptBlob,
        RowError::Decoding(DecodingError::UnsupportedEncoding(name)) => RowError::Decoding(
            DecodingError::UnsupportedEncoding(name.clone()),
        ),
        RowError::Decoding(DecodingError::DecodingFailed(name)) => RowError::Decoding(
            DecodingError::DecodingFailed(name.clone()),
        ),
        RowError::CompressionFailed => RowError::CompressionFailed,
    }
}

/// Closes a chunk from the outcomes of its rows, in row order: fails on the
/// first fatal row, fails where too many rows are missing, and else assembles
/// the artifact of the rows that are left.
pub fn finish_chunk(outcomes: &Vec<RowOutcome>, container: Container) -> (result: Result<
    Vec<u8>,
    RunError,
>)
    ensures
        chunk_agrees(result, chunk_of(outcomes.deep_view(), container)),
{
    let ghost models = outcomes.deep_view();
    let mut payloads: Vec<&CompressedPayload> = Vec::new();
    let mut missing: usize = 0;
    let mut i: usize = 0;
    assert(models.take(0) =~= Seq::empty());
    assert(payloads.deep_view() =~= survivors(models.take(0)));
    while i < outcomes.len()
        invariant
            i <= outcomes.len(),
            models == outcomes.deep_view(),
            first_fatal(models.take(i as int)) is None,
            missing == missing_count(models.take(i as int)),
            missing <= i,
            payloads.deep_view() == survivors(models.take(i as int)),
        decreases outcomes.len() - i,
    {
        let ghost before = models.take(i as int);
        let ghost after = models.take(i + 1);
        assert(after.drop_last() =~= before);
        assert(after.last() == outcomes[i as int]@);
        match &outcomes[i] {
            RowOutcome::Compressed(payload) => {
                let ghost kept = payloads.deep_view();
                payloads.push(payload);
                assert(payloads.deep_view() =~= kept.push(payload@));
            },
            RowOutcome::MissingBlob => {
                missing += 1;
            },
            RowOutcome::Fatal(error) => {
                proof {
                    lemma_first_fatal_prefix(models, i + 1);
                }
                return Err(RunError::Fatal(duplicate_error(error)));
            },
        }
        i += 1;
    }
    assert(models.take(outcomes.len() as int) =~= models);
    if exceeds_missing_threshold(missing, outcomes.len()) {
        return Err(RunError::TooManyMissing { missing_count: missing, chunk_size: outcomes.len() });
    }
    Ok(assemble_borrowed(&payloads, container))
}

/// A fatal failure among the first rows is the first fatal failure of all rows.
pub proof fn lemma_first_fatal_prefix(outcomes: Seq<OutcomeModel>, upto: int)
    requires
        0 <= upto <= outcomes.len(),
        first_fatal(outcomes.take(upto)) is Some,
    ensures
        first_fatal(outcomes) == first_fatal(outcomes.take(upto)),
    decreases outcomes.len() - upto,
{
    if upto < outcomes.len() {
        assert(outcomes.take(upto + 1).drop_last() =~= outcomes.take(upto));
        lemma_first_fatal_prefix(outcomes, upto + 1);
    } else {
        assert(outcomes.take(upto) =~= outcomes);
    }
}

/// The outcomes of the rows of a chunk, each with its blob.
pub open spec fn outcomes_of(rows: Seq<RowModel>, blobs: Seq<BlobModel>, container: Container)
    -> Seq<OutcomeModel> {
    Seq::new(rows.len(), |i: int| outcome_of(rows[i], blobs[i], container))
}

/// Works a chunk through, row after row: `blobs` holds what reading each row's
/// blob came to. Stops at the first row that fails fatally.
pub fn compact_chunk(rows: &[Row], blobs: &[BlobFetch], container: Container) -> (result: Result<
    Vec<u8>,
    RunError,
>)
    requires
        rows@.len() == blobs@.len(),
    ensures
        chunk_agrees(
            result,
            chunk_of(outcomes_of(rows.deep_view(), blobs.deep_view(), container), container),
        ),
{
    let ghost all = outcomes_of(rows.deep_view(), blobs.deep_view(), container);
    let mut outcomes: Vec<RowOutcome> = Vec::new();
    let mut i: usize = 0;
    while i < rows.len()
        invariant
            i <= rows.len(),
            rows@.len() == blobs@.len(),
            all == outcomes_of(rows.deep_view(), blobs.deep_view(), container),
            outcomes.len() == i,
            outcomes.deep_view() == all.take(i as int),
            first_fatal(all.take(i as int)) is None,
        decreases rows.len() - i,
    {
        let outcome = compact_row(&rows[i], &blobs[i], container);
        assert(outcome@ == all[i as int]);
        assert(all.take(i + 1).drop_last() =~= all.take(i as int));
        let ghost kept = outcomes.deep_view();
        match outcome {
            RowOutcome::Fatal(error) => {
                proof {
                    lemma_first_fatal_prefix(all, i + 1);
                }
                return Err(RunError::Fatal(error));
            },
            other => {
                outcomes.push(other);
            },
        }
        assert(outcomes.deep_view() =~= kept.push(all[i as int]));
        assert(outcomes.deep_view() =~= all.take(i + 1));
        i += 1;
    }
    assert(all.take(rows.len() as int) =~= all);
    finish_chunk(&outcomes, container)
}

} // verus!
