//! Splitting a run of rows into bounded chunks.

use vstd::prelude::*;

verus! {

/// Number of chunks needed for `total` rows at `max_lines` rows per chunk:
/// the quotient rounded up.
pub open spec fn spec_chunk_count(total: nat, max_lines: nat) -> nat
    recommends
        max_lines > 0,
{
    ((total + max_lines - 1) / (max_lines as int)) as nat
}

/// Computes the number of chunks without overflowing near `usize::MAX`.
pub fn chunk_count(total: usize, max_lines: usize) -> (count: usize)
    requires
        max_lines > 0,
    ensures
        count == spec_chunk_count(total as nat, max_lines as nat),
{
    let whole: usize = total / max_lines;
    let rest: usize = total % max_lines;
    proof {
        lemma_chunk_count_split(total as nat, max_lines as nat);
    }
    if rest == 0 {
        whole
    } else {
        whole + 1
    }
}

/// The rounded-up quotient is the plain quotient, plus one when a remainder is left.
pub proof fn lemma_chunk_count_split(total: nat, max_lines: nat)
    requires
        max_lines > 0,
    ensures
        spec_chunk_count(total, max_lines) == total / max_lines + if total % max_lines == 0 {
            0nat
        } else {
            1nat
        },
        total / max_lines <= total,
        total % max_lines != 0 ==> total / max_lines < total,
{
    let k = max_lines as int;
    let t = total as int;
    let q = t / k;
    let r = t % k;
    assert(t == q * k + r && 0 <= r < k) by (nonlinear_arith)
        requires
            k > 0,
            t >= 0,
            q == t / k,
            r == t % k,
    ;
    assert(q <= q * k) by (nonlinear_arith)
        requires
            k > 0,
            q >= 0,
    ;
    if r == 0 {
        assert((q * k + k - 1) / k == q) by (nonlinear_arith)
            requires
                k > 0,
                q >= 0,
        ;
    } else {
        assert((q * k + r + k - 1) / k == q + 1) by (nonlinear_arith)
            requires
                k > 0,
                q >= 0,
                0 < r < k,
        ;
    }
}

/// The chunk count is the least number of chunks of `max_lines` rows that hold
/// `total` rows: that many chunks hold them, and one chunk fewer does not.
pub proof fn lemma_chunk_count_is_least(total: nat, max_lines: nat)
    requires
        max_lines > 0,
    ensures
        spec_chunk_count(total, max_lines) * max_lines >= total,
        total > 0 ==> (spec_chunk_count(total, max_lines) - 1) * max_lines < total,
        total == 0 ==> spec_chunk_count(total, max_lines) == 0,
{
    lemma_chunk_count_split(total, max_lines);
    let k = max_lines as int;
    let t = total as int;
    let q = t / k;
    let r = t % k;
    assert(t == q * k + r && 0 <= r < k) by (nonlinear_arith)
        requires
            k > 0,
            t >= 0,
            q == t / k,
            r == t % k,
    ;
    assert((q + 1) * k == q * k + k && (q - 1) * k == q * k - k) by (nonlinear_arith);
    if t == 0 {
        assert(q == 0) by (nonlinear_arith)
            requires
                q * k + r == 0,
                0 <= r,
                k > 0,
                q >= 0,
        ;
    }
}

/// The index of the first row of chunk `index`.
pub open spec fn chunk_start(max_lines: nat, index: nat) -> nat {
    index * max_lines
}

/// The index after the last row of chunk `index`.
pub open spec fn chunk_end(total: nat, max_lines: nat, index: nat) -> nat {
    if (index + 1) * max_lines < total {
        (index + 1) * max_lines
    } else {
        total
    }
}

/// The rows of chunk `index`.
pub open spec fn chunk_rows<T>(rows: Seq<T>, max_lines: nat, index: nat) -> Seq<T> {
    rows.subrange(
        chunk_start(max_lines, index) as int,
        chunk_end(rows.len(), max_lines, index) as int,
    )
}

/// The rows of the first `count` chunks, one chunk after another.
pub open spec fn chunks_joined<T>(rows: Seq<T>, max_lines: nat, count: nat) -> Seq<T>
    decreases count,
{
    if count == 0 {
        Seq::empty()
    } else {
        chunks_joined(rows, max_lines, (count - 1) as nat) + chunk_rows(
            rows,
            max_lines,
            (count - 1) as nat,
        )
    }
}

/// Every chunk starts inside the rows and holds at least one row and at most
/// `max_lines`; every chunk but the last holds exactly `max_lines`, and the last
/// ends where the rows end.
pub proof fn lemma_chunk_bounds(total: nat, max_lines: nat, index: nat)
    requires
        max_lines > 0,
        index < spec_chunk_count(total, max_lines),
    ensures
        chunk_start(max_lines, index) < chunk_end(total, max_lines, index) <= total,
        chunk_end(total, max_lines, index) - chunk_start(max_lines, index) <= max_lines,
        index + 1 < spec_chunk_count(total, max_lines) ==> chunk_end(total, max_lines, index)
            - chunk_start(max_lines, index) == max_lines,
        index + 1 < spec_chunk_count(total, max_lines) ==> chunk_end(total, max_lines, index)
            == chunk_start(max_lines, index + 1),
        index + 1 == spec_chunk_count(total, max_lines) ==> chunk_end(total, max_lines, index)
            == total,
{
    lemma_chunk_count_split(total, max_lines);
    let k = max_lines as int;
    let t = total as int;
    let q = t / k;
    let r = t % k;
    let i = index as int;
    assert(t == q * k + r && 0 <= r < k) by (nonlinear_arith)
        requires
            k > 0,
            t >= 0,
            q == t / k,
            r == t % k,
    ;
    assert((i + 1) * k == i * k + k) by (nonlinear_arith);
    if i < q {
        assert(i * k + k <= q * k) by (nonlinear_arith)
            requires
                i < q,
                k > 0,
        ;
    } else {
        assert(i * k == q * k);
    }
    if i + 1 < spec_chunk_count(total, max_lines) {
        if i + 1 < q {
            assert((i + 1) * k + k <= q * k) by (nonlinear_arith)
                requires
                    i + 1 < q,
                    k > 0,
            ;
        }
    }
}

/// The chunks, one after another, are the rows: each row lies in one chunk and
/// the order is kept.
pub proof fn lemma_chunks_cover<T>(rows: Seq<T>, max_lines: nat)
    requires
        max_lines > 0,
    ensures
        chunks_joined(rows, max_lines, spec_chunk_count(rows.len(), max_lines)) == rows,
{
    let count = spec_chunk_count(rows.len(), max_lines);
    if count == 0 {
        lemma_chunk_count_split(rows.len(), max_lines);
        if rows.len() > 0 {
            let k = max_lines as int;
            let t = rows.len() as int;
            assert(t / k > 0 || t % k != 0) by (nonlinear_arith)
                requires
                    k > 0,
                    t > 0,
            ;
        }
        assert(rows =~= Seq::empty());
    } else {
        lemma_chunks_prefix(rows, max_lines, count);
        lemma_chunk_bounds(rows.len(), max_lines, (count - 1) as nat);
        assert(rows.take(rows.len() as int) =~= rows);
    }
}

/// The first `count` chunks, one after another, are the rows up to the end of
/// the last of them.
pub proof fn lemma_chunks_prefix<T>(rows: Seq<T>, max_lines: nat, count: nat)
    requires
        max_lines > 0,
        0 < count <= spec_chunk_count(rows.len(), max_lines),
    ensures
        chunks_joined(rows, max_lines, count) == rows.take(
            chunk_end(rows.len(), max_lines, (count - 1) as nat) as int,
        ),
    decreases count,
{
    let last = (count - 1) as nat;
    lemma_chunk_bounds(rows.len(), max_lines, last);
    if count == 1 {
        assert(chunks_joined(rows, max_lines, 0) =~= Seq::empty());
        assert(0 * max_lines == 0) by (nonlinear_arith);
        assert(chunks_joined(rows, max_lines, 1) =~= rows.take(
            chunk_end(rows.len(), max_lines, 0) as int,
        ));
    } else {
        lemma_chunks_prefix(rows, max_lines, last);
        lemma_chunk_bounds(rows.len(), max_lines, (last - 1) as nat);
        assert(chunks_joined(rows, max_lines, count) =~= rows.take(
            chunk_end(rows.len(), max_lines, last) as int,
        ));
    }
}

/// Computes where chunk `index` starts and ends among `total` rows.
pub fn chunk_bounds(total: usize, max_lines: usize, index: usize) -> (bounds: (usize, usize))
    requires
        max_lines > 0,
        index < spec_chunk_count(total as nat, max_lines as nat),
    ensures
        bounds.0 == chunk_start(max_lines as nat, index as nat),
        bounds.1 == chunk_end(total as nat, max_lines as nat, index as nat),
        bounds.0 < bounds.1 <= total,
        bounds.1 - bounds.0 <= max_lines,
{
    proof {
        lemma_chunk_bounds(total as nat, max_lines as nat, index as nat);
        assert((index + 1) * max_lines == index * max_lines + max_lines) by (nonlinear_arith);
    }
    let start: usize = index * max_lines;
    let end: usize = if total - start > max_lines {
        start + max_lines
    } else {
        total
    };
    (start, end)
}

/// Computes the bounds of every chunk, in order.
pub fn chunk_ranges(total: usize, max_lines: usize) -> (ranges: Vec<(usize, usize)>)
    requires
        max_lines > 0,
    ensures
        ranges.len() == spec_chunk_count(total as nat, max_lines as nat),
        forall|i: int|
            0 <= i < ranges.len() ==> (#[trigger] ranges[i]).0 == chunk_start(
                max_lines as nat,
                i as nat,
            ) && ranges[i].1 == chunk_end(total as nat, max_lines as nat, i as nat),
{
    let count = chunk_count(total, max_lines);
    let mut ranges: Vec<(usize, usize)> = Vec::new();
    let mut index: usize = 0;
    while index < count
        invariant
            max_lines > 0,
            count == spec_chunk_count(total as nat, max_lines as nat),
            index <= count,
            ranges.len() == index,
            forall|i: int|
                0 <= i < index ==> (#[trigger] ranges[i]).0 == chunk_start(
                    max_lines as nat,
                    i as nat,
                ) && ranges[i].1 == chunk_end(total as nat, max_lines as nat, i as nat),
        decreases count - index,
    {
        ranges.push(chunk_bounds(total, max_lines, index));
        index += 1;
    }
    ranges
}

} // verus!
