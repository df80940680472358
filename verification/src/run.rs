//! A whole run over the rows of one source file: the plan of its chunks, and the
//! run itself on rows and blobs held in memory.

use vstd::prelude::*;
use vstd::slice::slice_subrange;
use crate::compactor::chunk_agrees;
use crate::compactor::chunk_of;
use crate::compactor::compact_chunk;
use crate::compactor::outcomes_of;
use crate::compactor::BlobFetch;
use crate::compactor::BlobModel;
use crate::compactor::ChunkModel;
use crate::compactor::RunError;
use crate::container::Container;
use crate::json::Row;
use crate::json::RowModel;
use crate::locations::get_output_file_loc;
use crate::locations::output_file_name;
use crate::locations::path_join;
use crate::partition::chunk_bounds;
use crate::partition::chunk_count;
use crate::partition::chunk_end;
use crate::partition::chunk_rows;
use crate::partition::chunk_start;
use crate::partition::spec_chunk_count;

verus! {

/// One chunk of a run: the rows it takes and the file its artifact goes to.
#[derive(Debug, Clone, PartialEq, Eq)]
pub struct ChunkPlan {
    /// Index of the chunk's first row.
    pub start: usize,
    /// Index after the chunk's last row.
    pub end: usize,
    /// Path of the chunk's artifact.
    pub output_file: String,
}

/// Plans the chunks of a run over `total_rows` rows: chunk after chunk of at
/// most `max_lines` rows, each with the path of its artifact under
/// `local_jsonl_dir`.
pub fn plan_chunks(
    total_rows: usize,
    max_lines: usize,
    local_jsonl_dir: &str,
    language: &str,
    shard: &str,
    container: Container,
) -> (plans: Vec<ChunkPlan>)
    requires
        max_lines > 0,
    ensures
        plans.len() == spec_chunk_count(total_rows as nat, max_lines as nat),
        forall|i: int|
            0 <= i < plans.len() ==> {
                &&& (#[trigger] plans[i]).start == chunk_start(max_lines as nat, i as nat)
                &&& plans[i].end == chunk_end(total_rows as nat, max_lines as nat, i as nat)
                &&& plans[i].start < plans[i].end <= total_rows
                &&& plans[i].end - plans[i].start <= max_lines
                &&& plans[i].output_file@ == path_join(
                    local_jsonl_dir@,
                    output_file_name(language@, shard@, i as nat, plans.len() as nat, container),
                )
            },
{
    let count = chunk_count(total_rows, max_lines);
    let mut plans: Vec<ChunkPlan> = Vec::new();
    let mut index: usize = 0;
    while index < count
        invariant
            max_lines > 0,
            count == spec_chunk_count(total_rows as nat, max_lines as nat),
            index <= count,
            plans.len() == index,
            forall|i: int|
                0 <= i < index ==> {
                    &&& (#[trigger] plans[i]).start == chunk_start(max_lines as nat, i as nat)
                    &&& plans[i].end == chunk_end(total_rows as nat, max_lines as nat, i as nat)
                    &&& plans[i].start < plans[i].end <= total_rows
                    &&& plans[i].end - plans[i].start <= max_lines
                    &&& plans[i].output_file@ == path_join(
                        local_jsonl_dir@,
                        output_file_name(language@, shard@, i as nat, count as nat, container),
                    )
                },
        decreases count - index,
    {
        let (start, end) = chunk_bounds(total_rows, max_lines, index);
        let output_file = get_output_file_loc(
            local_jsonl_dir,
            language,
            shard,
            index,
            count,
            container,
        );
        plans.push(ChunkPlan { start, end, output_file });
        index += 1;
    }
    plans
}

/// What a run came to: the artifacts of the chunks that were closed, in order,
/// and the failure that ended the run, if one did.
#[derive(Debug, Clone, PartialEq, Eq)]
pub struct RunReport {
    pub artifacts: Vec<Vec<u8>>,
    pub failure: Option<RunError>,
}

/// What the chunk at `index` comes to.
pub open spec fn chunk_result(
    rows: Seq<RowModel>,
    blobs: Seq<BlobModel>,
    max_lines: nat,
    container: Container,
    index: nat,
) -> ChunkModel {
    chunk_of(
        outcomes_of(
            chunk_rows(rows, max_lines, index),
            chunk_rows(blobs, max_lines, index),
            container,
        ),
        container,
    )
}

/// What the first `chunks` chunks of a run come to: the artifacts of the chunks
/// before the first one that fails, and what that one came to.
pub open spec fn run_of(
    rows: Seq<RowModel>,
    blobs: Seq<BlobModel>,
    max_lines: nat,
    container: Container,
    chunks: nat,
) -> (Seq<Seq<u8>>, Option<ChunkModel>)
    decreases chunks,
{
    if chunks == 0 {
        (Seq::empty(), None)
    } else {
        let before = run_of(rows, blobs, max_lines, container, (chunks - 1) as nat);
        match before.1 {
            Some(_) => before,
            None => match chunk_result(rows, blobs, max_lines, container, (chunks - 1) as nat) {
                ChunkModel::Artifact(bytes) => (before.0.push(bytes), None),
                failed => (before.0, Some(failed)),
            },
        }
    }
}

/// Whether a report says what `expected` says.
pub open spec fn report_agrees(report: RunReport, expected: (Seq<Seq<u8>>, Option<ChunkModel>))
    -> bool {
    &&& report.artifacts.deep_view() == expected.0
    &&& match report.failure {
        None => expected.1 is None,
        Some(error) => expected.1 is Some && !(expected.1->0 is Artifact) && chunk_agrees(
            Err(error),
            expected.1->0,
        ),
    }
}

/// Once a chunk has failed, later chunks change nothing.
pub proof fn lemma_run_stops(
    rows: Seq<RowModel>,
    blobs: Seq<BlobModel>,
    max_lines: nat,
    container: Container,
    failed_by: nat,
    chunks: nat,
)
    requires
        failed_by <= chunks,
        run_of(rows, blobs, max_lines, container, failed_by).1 is Some,
    ensures
        run_of(rows, blobs, max_lines, container, chunks) == run_of(
            rows,
            blobs,
            max_lines,
            container,
            failed_by,
        ),
    decreases chunks,
{
    if failed_by < chunks {
        lemma_run_stops(rows, blobs, max_lines, container, failed_by, (chunks - 1) as nat);
    }
}

/// Runs over all rows, chunk after chunk of at most `max_lines` rows: `blobs`
/// holds what reading each row's blob came to. The run ends with the first chunk
/// that fails; the artifacts of the chunks before it stand.
pub fn compact_run(rows: &[Row], blobs: &[BlobFetch], max_lines: usize, container: Container) -> (report:
    RunReport)
    requires
        max_lines > 0,
        rows@.len() == blobs@.len(),
    ensures
        report_agrees(
            report,
            run_of(
                rows.deep_view(),
                blobs.deep_view(),
                max_lines as nat,
                container,
                spec_chunk_count(rows@.len(), max_lines as nat),
            ),
        ),
{
    let ghost row_models = rows.deep_view();
    let ghost blob_models = blobs.deep_view();
    let total = rows.len();
    let count = chunk_count(total, max_lines);
    let mut artifacts: Vec<Vec<u8>> = Vec::new();
    let mut index: usize = 0;
    assert(artifacts.deep_view() =~= Seq::<Seq<u8>>::empty());
    while index < count
        invariant
            max_lines > 0,
            total == rows@.len(),
            rows@.len() == blobs@.len(),
            row_models == rows.deep_view(),
            blob_models == blobs.deep_view(),
            count == spec_chunk_count(total as nat, max_lines as nat),
            index <= count,
            run_of(row_models, blob_models, max_lines as nat, container, index as nat) == (
                artifacts.deep_view(),
                None::<ChunkModel>,
            ),
        decreases count - index,
    {
        let (start, end) = chunk_bounds(total, max_lines, index);
        let chunk = slice_subrange(rows, start, end);
        let chunk_blobs = slice_subrange(blobs, start, end);
        assert(chunk.deep_view() =~= chunk_rows(row_models, max_lines as nat, index as nat));
        assert(chunk_blobs.deep_view() =~= chunk_rows(
            blob_models,
            max_lines as nat,
            index as nat,
        ));
        let ghost before = artifacts.deep_view();
        match compact_chunk(chunk, chunk_blobs, container) {
            Ok(artifact) => {
                artifacts.push(artifact);
                assert(artifacts.deep_view() =~~= before.push(artifact@));
            },
            Err(error) => {
                proof {
                    lemma_run_stops(
                        row_models,
                        blob_models,
                        max_lines as nat,
                        container,
                        (index + 1) as nat,
                        count as nat,
                    );
                }
                return RunReport { artifacts, failure: Some(error) };
            },
        }
        index += 1;
    }
    RunReport { artifacts, failure: None }
}

} // verus!
