//! The vectorized hash-join probe engine: given a probe-side batch and the
//! build-side hash table, produce result batches under a join-type policy.
//!
//! The no-conjunct anti and semi joins test chain membership per probe row.
//! With a conjunct, matching proceeds in bounded chunks of at most
//! `max_block_size` candidate pairs; each chunk gathers probe and build
//! columns, evaluates the conjunct on the materialized pair block, and folds
//! the outcome into a per-probe-row matched state; the final result is read
//! off that state only after every chunk of the batch is resolved.

use vstd::prelude::*;
use crate::batch::BlockEntry;
use crate::batch::Column;
use crate::batch::DataBlock;
use crate::batch::Scalar;
use crate::batch::Value;
use crate::batch::clone_data_type;
use crate::batch::col_cell;
use crate::batch::col_len;
use crate::batch::col_wf;
use crate::batch::value_cell;
use crate::batch::value_wf;
use crate::error::CODE_ABORTED_QUERY;
use crate::error::ErrorCodes;
use crate::hash_table::HashJoinTable;
use crate::hash_table::RowPtr;
use vstd::pervasive::unreached;

verus! {

/// The cancellation token handed to every probe call: set once when the
/// query is aborted or the server shuts down, polled at chunk boundaries.
pub struct Interrupt {
    pub flag: bool,
}

impl Interrupt {
    pub fn new() -> (r: Interrupt)
        ensures
            !r.flag,
    {
        Interrupt { flag: false }
    }

    /// Whether cancellation was requested.
    pub fn is_set(&self) -> (r: bool)
        ensures
            r == self.flag,
    {
        self.flag
    }

    /// Requests cancellation; the flag never clears.
    pub fn trip(&mut self)
        ensures
            final(self).flag,
    {
        self.flag = true;
    }
}

/// The cell of build column `c` at the row a pointer locates.
pub open spec fn build_cell(chunks: Seq<DataBlock>, c: int, p: RowPtr) -> Scalar {
    chunks[p.chunk_index as int].cell(c, p.row_index as int)
}

/// Two entry values hold columns of the same representation.
pub open spec fn value_same_kind(a: Value, b: Value) -> bool {
    match (a, b) {
        (Value::Column(Column::Int64(_)), Value::Column(Column::Int64(_))) => true,
        (Value::Column(Column::UInt64(_)), Value::Column(Column::UInt64(_))) => true,
        (
            Value::Column(Column::NullableUInt64 { .. }),
            Value::Column(Column::NullableUInt64 { .. }),
        ) => true,
        (Value::Column(Column::Str(_)), Value::Column(Column::Str(_))) => true,
        _ => false,
    }
}

/// The pinned build batches share one schema: equal entry counts, equal
/// declared types, and per-entry columns of one representation. Build
/// batches are fully materialized, so no entry is a broadcast scalar.
pub open spec fn uniform_chunks(chunks: Seq<DataBlock>) -> bool {
    forall|ci: int|
        0 <= ci < chunks.len() ==> {
            &&& (#[trigger] chunks[ci]).wf()
            &&& chunks[ci].entries@.len() == chunks[0].entries@.len()
            &&& forall|c: int|
                0 <= c < chunks[ci].entries@.len() ==> {
                    &&& value_same_kind(
                        (#[trigger] chunks[ci].entries@[c]).value,
                        chunks[0].entries@[c].value,
                    )
                    &&& chunks[ci].entries@[c].data_type == chunks[0].entries@[c].data_type
                }
        }
}

/// The per-batch row counts of the build side.
pub open spec fn chunk_rows(chunks: Seq<DataBlock>) -> Seq<nat> {
    chunks.map_values(|b: DataBlock| b.num_rows as nat)
}

/// A row pointer stays inside the build side.
pub open spec fn ptr_in_bounds(chunks: Seq<DataBlock>, p: RowPtr) -> bool {
    p.chunk_index < chunks.len() && p.row_index < chunks[p.chunk_index as int].num_rows
}

/// Gathers one build column at the given row pointers, in order.
fn gather_build_column(chunks: &Vec<DataBlock>, c: usize, ptrs: &Vec<RowPtr>) -> (r: Column)
    requires
        chunks@.len() > 0,
        uniform_chunks(chunks@),
        c < chunks@[0].entries@.len(),
        forall|j: int| 0 <= j < ptrs@.len() ==> ptr_in_bounds(chunks@, #[trigger] ptrs@[j]),
    ensures
        col_wf(r),
        col_len(r) == ptrs@.len(),
        forall|j: int| 0 <= j < ptrs@.len() ==> col_cell(r, j) == build_cell(chunks@, c as int, ptrs@[j]),
        value_same_kind(Value::Column(r), chunks@[0].entries@[c as int].value),
{
    let n = ptrs.len();
    match &chunks[0].entries[c].value {
        Value::Column(Column::Int64(_)) => {
            let mut out: Vec<i64> = Vec::new();
            for j in 0..n
                invariant
                    n == ptrs@.len(),
                    chunks@.len() > 0,
                    uniform_chunks(chunks@),
                    c < chunks@[0].entries@.len(),
                    chunks@[0].entries@[c as int].value matches Value::Column(Column::Int64(_)),
                    forall|jj: int| 0 <= jj < ptrs@.len() ==> ptr_in_bounds(chunks@, #[trigger] ptrs@[jj]),
                    out@.len() == j,
                    forall|jj: int|
                        0 <= jj < j ==> Scalar::Int64(out@[jj]) == build_cell(
                            chunks@,
                            c as int,
                            ptrs@[jj],
                        ),
            {
                let p = ptrs[j];
                match &chunks[p.chunk_index as usize].entries[c].value {
                    Value::Column(Column::Int64(v)) => {
                        out.push(v[p.row_index as usize]);
                    },
                    _ => {
                        return unreached();
                    },
                }
            }
            Column::Int64(out)
        },
        Value::Column(Column::UInt64(_)) => {
            let mut out: Vec<u64> = Vec::new();
            for j in 0..n
                invariant
                    n == ptrs@.len(),
                    chunks@.len() > 0,
                    uniform_chunks(chunks@),
                    c < chunks@[0].entries@.len(),
                    chunks@[0].entries@[c as int].value matches Value::Column(Column::UInt64(_)),
                    forall|jj: int| 0 <= jj < ptrs@.len() ==> ptr_in_bounds(chunks@, #[trigger] ptrs@[jj]),
                    out@.len() == j,
                    forall|jj: int|
                        0 <= jj < j ==> Scalar::UInt64(out@[jj]) == build_cell(
                            chunks@,
                            c as int,
                            ptrs@[jj],
                        ),
            {
                let p = ptrs[j];
                match &chunks[p.chunk_index as usize].entries[c].value {
                    Value::Column(Column::UInt64(v)) => {
                        out.push(v[p.row_index as usize]);
                    },
                    _ => {
                        return unreached();
                    },
                }
            }
            Column::UInt64(out)
        },
        Value::Column(Column::NullableUInt64 { .. }) => {
            let mut out_values: Vec<u64> = Vec::new();
            let mut out_validity: Vec<bool> = Vec::new();
            for j in 0..n
                invariant
                    n == ptrs@.len(),
                    chunks@.len() > 0,
                    uniform_chunks(chunks@),
                    c < chunks@[0].entries@.len(),
                    chunks@[0].entries@[c as int].value matches Value::Column(
                        Column::NullableUInt64 { .. },
                    ),
                    forall|jj: int| 0 <= jj < ptrs@.len() ==> ptr_in_bounds(chunks@, #[trigger] ptrs@[jj]),
                    out_values@.len() == j,
                    out_validity@.len() == j,
                    forall|jj: int|
                        0 <= jj < j ==> (if out_validity@[jj] {
                            Scalar::UInt64(out_values@[jj])
                        } else {
                            Scalar::Null
                        }) == build_cell(chunks@, c as int, ptrs@[jj]),
            {
                let p = ptrs[j];
                match &chunks[p.chunk_index as usize].entries[c].value {
                    Value::Column(Column::NullableUInt64 { values, validity }) => {
                        out_values.push(values[p.row_index as usize]);
                        out_validity.push(validity[p.row_index as usize]);
                    },
                    _ => {
                        return unreached();
                    },
                }
            }
            Column::NullableUInt64 { values: out_values, validity: out_validity }
        },
        Value::Column(Column::Str(_)) => {
            let mut out: Vec<String> = Vec::new();
            for j in 0..n
                invariant
                    n == ptrs@.len(),
                    chunks@.len() > 0,
                    uniform_chunks(chunks@),
                    c < chunks@[0].entries@.len(),
                    chunks@[0].entries@[c as int].value matches Value::Column(Column::Str(_)),
                    forall|jj: int| 0 <= jj < ptrs@.len() ==> ptr_in_bounds(chunks@, #[trigger] ptrs@[jj]),
                    out@.len() == j,
                    forall|jj: int|
                        0 <= jj < j ==> Scalar::Str(out@[jj]) == build_cell(
                            chunks@,
                            c as int,
                            ptrs@[jj],
                        ),
            {
                let p = ptrs[j];
                match &chunks[p.chunk_index as usize].entries[c].value {
                    Value::Column(Column::Str(v)) => {
                        out.push(v[p.row_index as usize].clone());
                    },
                    _ => {
                        return unreached();
                    },
                }
            }
            Column::Str(out)
        },
        Value::Scalar(_) => unreached(),
    }
}

/// Gathers the build rows at the given pointers into one batch: the
/// build-side half of a matched-pair block.
pub fn gather_build_block(chunks: &Vec<DataBlock>, ptrs: &Vec<RowPtr>) -> (r: DataBlock)
    requires
        chunks@.len() > 0,
        uniform_chunks(chunks@),
        forall|j: int| 0 <= j < ptrs@.len() ==> ptr_in_bounds(chunks@, #[trigger] ptrs@[j]),
    ensures
        r.wf(),
        r.num_rows == ptrs@.len(),
        r.entries@.len() == chunks@[0].entries@.len(),
        r.meta.is_none(),
        forall|c: int|
            0 <= c < r.entries@.len() ==> r.entries@[c].data_type == chunks@[0].entries@[c].data_type,
        forall|c: int, j: int|
            0 <= c < r.entries@.len() && 0 <= j < ptrs@.len() ==> r.cell(c, j) == build_cell(
                chunks@,
                c,
                ptrs@[j],
            ),
{
    let ncols = chunks[0].entries.len();
    let mut entries: Vec<BlockEntry> = Vec::new();
    for c in 0..ncols
        invariant
            ncols == chunks@[0].entries@.len(),
            chunks@.len() > 0,
            uniform_chunks(chunks@),
            forall|j: int| 0 <= j < ptrs@.len() ==> ptr_in_bounds(chunks@, #[trigger] ptrs@[j]),
            entries@.len() == c,
            forall|k: int| 0 <= k < c ==> entries@[k].data_type == chunks@[0].entries@[k].data_type,
            forall|k: int| 0 <= k < c ==> value_wf(#[trigger] entries@[k].value, ptrs@.len()),
            forall|k: int, j: int|
                0 <= k < c && 0 <= j < ptrs@.len() ==> value_cell(entries@[k].value, j)
                    == build_cell(chunks@, k, ptrs@[j]),
    {
        let col = gather_build_column(chunks, c, ptrs);
        let dt = clone_data_type(&chunks[0].entries[c].data_type);
        entries.push(BlockEntry { data_type: dt, value: Value::Column(col) });
    }
    DataBlock { entries, num_rows: ptrs.len(), meta: Option::None }
}

/// Concatenates the gathered probe-side and build-side halves of a matched
/// pair block into one batch over the pair rows.
pub fn merge_eq_block(probe_block: DataBlock, build_block: DataBlock) -> (r: DataBlock)
    requires
        probe_block.wf(),
        build_block.wf(),
        probe_block.num_rows == build_block.num_rows,
    ensures
        r.wf(),
        r.num_rows == probe_block.num_rows,
        r.entries@ == probe_block.entries@ + build_block.entries@,
        r.meta.is_none(),
{
    let mut entries = probe_block.entries;
    let mut rest = build_block.entries;
    entries.append(&mut rest);
    DataBlock { entries, num_rows: probe_block.num_rows, meta: Option::None }
}

/// Equality of two cells by value, strings by their characters.
pub open spec fn scalar_view_eq(a: Scalar, b: Scalar) -> bool {
    match (a, b) {
        (Scalar::Null, Scalar::Null) => true,
        (Scalar::Boolean(x), Scalar::Boolean(y)) => x == y,
        (Scalar::Int64(x), Scalar::Int64(y)) => x == y,
        (Scalar::UInt64(x), Scalar::UInt64(y)) => x == y,
        (Scalar::Decimal128(x, s), Scalar::Decimal128(y, t)) => x == y && s == t,
        (Scalar::Str(x), Scalar::Str(y)) => x@ == y@,
        _ => false,
    }
}

/// Strict order of two cells; false wherever the cells are not both numbers
/// of one kind.
pub open spec fn scalar_lt(a: Scalar, b: Scalar) -> bool {
    match (a, b) {
        (Scalar::Int64(x), Scalar::Int64(y)) => x < y,
        (Scalar::UInt64(x), Scalar::UInt64(y)) => x < y,
        _ => false,
    }
}

/// Decides `scalar_view_eq`.
pub fn scalar_eq(a: &Scalar, b: &Scalar) -> (r: bool)
    ensures
        r == scalar_view_eq(*a, *b),
{
    match (a, b) {
        (Scalar::Null, Scalar::Null) => true,
        (Scalar::Boolean(x), Scalar::Boolean(y)) => *x == *y,
        (Scalar::Int64(x), Scalar::Int64(y)) => *x == *y,
        (Scalar::UInt64(x), Scalar::UInt64(y)) => *x == *y,
        (Scalar::Decimal128(x, s), Scalar::Decimal128(y, t)) => *x == *y && s.precision
            == t.precision && s.scale == t.scale,
        (Scalar::Str(x), Scalar::Str(y)) => crate::text::str_eq(x.as_str(), y.as_str()),
        _ => false,
    }
}

/// Decides `scalar_lt`.
pub fn scalar_less(a: &Scalar, b: &Scalar) -> (r: bool)
    ensures
        r == scalar_lt(*a, *b),
{
    match (a, b) {
        (Scalar::Int64(x), Scalar::Int64(y)) => *x < *y,
        (Scalar::UInt64(x), Scalar::UInt64(y)) => *x < *y,
        _ => false,
    }
}

/// The residual predicate evaluated on a matched pair after key equality:
/// a closed set of comparisons between one probe column and one build
/// column, or a constant.
#[derive(Clone, Copy, PartialEq, Eq, Structural, Debug)]
pub enum Conjunct {
    ConstBool(bool),
    ColumnsEq { probe_col: usize, build_col: usize },
    ColumnsLt { probe_col: usize, build_col: usize },
}

impl Conjunct {
    /// Column references stay inside the probe and build schemas.
    pub open spec fn wf(&self, n_probe_cols: int, n_build_cols: int) -> bool {
        match *self {
            Conjunct::ConstBool(_) => true,
            Conjunct::ColumnsEq { probe_col, build_col } => probe_col < n_probe_cols && build_col
                < n_build_cols,
            Conjunct::ColumnsLt { probe_col, build_col } => probe_col < n_probe_cols && build_col
                < n_build_cols,
        }
    }
}

/// Whether the conjunct holds of probe row `i` paired with the build row at
/// `p`.
pub open spec fn conjunct_holds(
    c: Conjunct,
    probe: DataBlock,
    i: int,
    chunks: Seq<DataBlock>,
    p: RowPtr,
) -> bool {
    match c {
        Conjunct::ConstBool(v) => v,
        Conjunct::ColumnsEq { probe_col, build_col } => scalar_view_eq(
            probe.cell(probe_col as int, i),
            build_cell(chunks, build_col as int, p),
        ),
        Conjunct::ColumnsLt { probe_col, build_col } => scalar_lt(
            probe.cell(probe_col as int, i),
            build_cell(chunks, build_col as int, p),
        ),
    }
}

/// Whether the conjunct holds of row `j` of a merged pair block whose first
/// `np` entries are the gathered probe columns and whose remaining entries
/// are the gathered build columns.
pub open spec fn conjunct_holds_merged(c: Conjunct, merged: DataBlock, np: int, j: int) -> bool {
    match c {
        Conjunct::ConstBool(v) => v,
        Conjunct::ColumnsEq { probe_col, build_col } => scalar_view_eq(
            merged.cell(probe_col as int, j),
            merged.cell(np + build_col, j),
        ),
        Conjunct::ColumnsLt { probe_col, build_col } => scalar_lt(
            merged.cell(probe_col as int, j),
            merged.cell(np + build_col, j),
        ),
    }
}

/// Evaluates the conjunct on one row of a merged pair block.
pub fn eval_conjunct_merged(conj: &Conjunct, merged: &DataBlock, np: usize, j: usize) -> (r: bool)
    requires
        merged.wf(),
        j < merged.num_rows,
        np <= merged.entries@.len(),
        conj.wf(np as int, merged.entries@.len() - np),
    ensures
        r == conjunct_holds_merged(*conj, *merged, np as int, j as int),
{
    let ncols = merged.num_columns();
    match conj {
        Conjunct::ConstBool(v) => *v,
        Conjunct::ColumnsEq { probe_col, build_col } => {
            let a = merged.get_cell(*probe_col, j);
            assert(np + *build_col < ncols);
            let b = merged.get_cell(np + *build_col, j);
            scalar_eq(&a, &b)
        },
        Conjunct::ColumnsLt { probe_col, build_col } => {
            let a = merged.get_cell(*probe_col, j);
            assert(np + *build_col < ncols);
            let b = merged.get_cell(np + *build_col, j);
            scalar_less(&a, &b)
        },
    }
}

/// The candidate pairs of the first `m` slots of the index buffers: probe
/// row index paired with build row pointer.
pub open spec fn pairs_of(ps: Seq<u32>, bs: Seq<RowPtr>, m: int) -> Seq<(int, RowPtr)> {
    Seq::new(m as nat, |j: int| (ps[j] as int, bs[j]))
}

/// Probe row `i` is matched by some candidate pair whose conjunct holds.
pub open spec fn matched_in(
    pairs: Seq<(int, RowPtr)>,
    conj: Conjunct,
    probe: DataBlock,
    chunks: Seq<DataBlock>,
    i: int,
) -> bool {
    exists|j: int|
        0 <= j < pairs.len() && (#[trigger] pairs[j]).0 == i && conjunct_holds(
            conj,
            probe,
            i,
            chunks,
            pairs[j].1,
        )
}

/// Matched state distributes over splitting the candidate pairs anywhere: a
/// row is matched by the combined pairs exactly when one of the two parts
/// matches it. This is why chunked conjunct evaluation resolves to the same
/// final state as one unbounded chunk.
pub proof fn lemma_matched_in_add(
    a: Seq<(int, RowPtr)>,
    b: Seq<(int, RowPtr)>,
    conj: Conjunct,
    probe: DataBlock,
    chunks: Seq<DataBlock>,
    i: int,
)
    ensures
        matched_in(a + b, conj, probe, chunks, i) == (matched_in(a, conj, probe, chunks, i)
            || matched_in(b, conj, probe, chunks, i)),
{
    if matched_in(a + b, conj, probe, chunks, i) {
        let j = choose|j: int|
            0 <= j < (a + b).len() && (#[trigger] (a + b)[j]).0 == i && conjunct_holds(
                conj,
                probe,
                i,
                chunks,
                (a + b)[j].1,
            );
        if j < a.len() {
            assert((a + b)[j] == a[j]);
            assert(matched_in(a, conj, probe, chunks, i));
        } else {
            assert((a + b)[j] == b[j - a.len()]);
            assert(matched_in(b, conj, probe, chunks, i));
        }
    }
    if matched_in(a, conj, probe, chunks, i) {
        let j = choose|j: int|
            0 <= j < a.len() && (#[trigger] a[j]).0 == i && conjunct_holds(
                conj,
                probe,
                i,
                chunks,
                a[j].1,
            );
        assert((a + b)[j] == a[j]);
        assert(matched_in(a + b, conj, probe, chunks, i));
    }
    if matched_in(b, conj, probe, chunks, i) {
        let j = choose|j: int|
            0 <= j < b.len() && (#[trigger] b[j]).0 == i && conjunct_holds(
                conj,
                probe,
                i,
                chunks,
                b[j].1,
            );
        assert((a + b)[a.len() + j] == b[j]);
        assert(matched_in(a + b, conj, probe, chunks, i));
    }
}

/// Appending one candidate pair matches one more row state.
pub proof fn lemma_matched_in_push(
    s: Seq<(int, RowPtr)>,
    e: (int, RowPtr),
    conj: Conjunct,
    probe: DataBlock,
    chunks: Seq<DataBlock>,
    i: int,
)
    ensures
        matched_in(s.push(e), conj, probe, chunks, i) == (matched_in(s, conj, probe, chunks, i)
            || (e.0 == i && conjunct_holds(conj, probe, i, chunks, e.1))),
{
    assert(s.push(e) =~= s + seq![e]);
    lemma_matched_in_add(s, seq![e], conj, probe, chunks, i);
    assert(matched_in(seq![e], conj, probe, chunks, i) == (e.0 == i && conjunct_holds(
        conj,
        probe,
        i,
        chunks,
        e.1,
    ))) by {
        if e.0 == i && conjunct_holds(conj, probe, i, chunks, e.1) {
            assert(seq![e][0] == e);
            assert(matched_in(seq![e], conj, probe, chunks, i));
        }
        if matched_in(seq![e], conj, probe, chunks, i) {
            let j = choose|j: int|
                0 <= j < seq![e].len() && (#[trigger] seq![e][j]).0 == i && conjunct_holds(
                    conj,
                    probe,
                    i,
                    chunks,
                    seq![e][j].1,
                );
            assert(j == 0);
        }
    }
}

/// All candidate pairs of the first `n` probe rows, row by row, each row's
/// matches in chain order.
pub open spec fn pair_seq(table: HashJoinTable, keys: Seq<u64>, n: int) -> Seq<(int, RowPtr)>
    decreases n,
{
    if n <= 0 {
        Seq::empty()
    } else {
        pair_seq(table, keys, n - 1) + table.matches_of(keys[n - 1]).map_values(
            |p: RowPtr| ((n - 1) as int, p),
        )
    }
}

/// The pair sequence only grows as more probe rows are considered.
pub proof fn lemma_pair_seq_len_mono(table: HashJoinTable, keys: Seq<u64>, m: int, n: int)
    requires
        m <= n,
    ensures
        pair_seq(table, keys, m).len() <= pair_seq(table, keys, n).len(),
    decreases n,
{
    if m < n && n > 0 {
        lemma_pair_seq_len_mono(table, keys, m, n - 1);
    }
}

/// The probe rows the conjunct anti join keeps: indices matched by no
/// candidate pair whose conjunct holds, in ascending order.
pub open spec fn conj_anti_kept(
    pairs: Seq<(int, RowPtr)>,
    conj: Conjunct,
    probe: DataBlock,
    chunks: Seq<DataBlock>,
    n: int,
) -> Seq<int>
    decreases n,
{
    if n <= 0 {
        Seq::empty()
    } else {
        let rest = conj_anti_kept(pairs, conj, probe, chunks, n - 1);
        if !matched_in(pairs, conj, probe, chunks, n - 1) {
            rest.push(n - 1)
        } else {
            rest
        }
    }
}

/// `i` is kept by the conjunct anti join exactly when it is a probe row no
/// candidate pair matches.
pub proof fn lemma_conj_anti_kept_member(
    pairs: Seq<(int, RowPtr)>,
    conj: Conjunct,
    probe: DataBlock,
    chunks: Seq<DataBlock>,
    n: int,
    i: int,
)
    ensures
        conj_anti_kept(pairs, conj, probe, chunks, n).contains(i) == (0 <= i < n && !matched_in(
            pairs,
            conj,
            probe,
            chunks,
            i,
        )),
    decreases n,
{
    if n > 0 {
        lemma_conj_anti_kept_member(pairs, conj, probe, chunks, n - 1, i);
        let rest = conj_anti_kept(pairs, conj, probe, chunks, n - 1);
        if !matched_in(pairs, conj, probe, chunks, n - 1) {
            if i == n - 1 {
                assert(rest.push(n - 1)[rest.len() as int] == n - 1);
            } else {
                assert(rest.push(n - 1).contains(i) == rest.contains(i)) by {
                    if rest.push(n - 1).contains(i) {
                        let j = choose|j: int|
                            0 <= j < rest.push(n - 1).len() && (#[trigger] rest.push(n - 1)[j])
                                == i;
                        assert(j < rest.len());
                        assert(rest[j] == i);
                    }
                    if rest.contains(i) {
                        let j = choose|j: int| 0 <= j < rest.len() && (#[trigger] rest[j]) == i;
                        assert(rest.push(n - 1)[j] == i);
                    }
                }
            }
        }
    }
}

/// One emitted inner-join block covers the given candidate pairs: the
/// gathered probe columns first, then the gathered build columns, one row
/// per pair, in pair order.
pub open spec fn block_matches_pairs(
    b: DataBlock,
    ps: Seq<(int, RowPtr)>,
    probe: DataBlock,
    chunks: Seq<DataBlock>,
    nb: int,
) -> bool {
    &&& b.wf()
    &&& b.num_rows == ps.len()
    &&& b.entries@.len() == probe.entries@.len() + nb
    &&& forall|c: int|
        0 <= c < probe.entries@.len() ==> (#[trigger] b.entries@[c]).data_type
            == probe.entries@[c].data_type
    &&& forall|c: int, j: int|
        0 <= c < probe.entries@.len() && 0 <= j < ps.len() ==> #[trigger] b.cell(c, j)
            == probe.cell(c, ps[j].0)
    &&& forall|c: int, j: int|
        probe.entries@.len() <= c < b.entries@.len() && 0 <= j < ps.len() ==> #[trigger] b.cell(
            c,
            j,
        ) == build_cell(chunks, c - probe.entries@.len(), ps[j].1)
}

/// The emitted blocks partition the candidate pairs in order, each block of
/// at most `m` pairs and every block before the last of exactly `m`.
pub open spec fn blocks_cover_pairs(
    blocks: Seq<DataBlock>,
    ps: Seq<(int, RowPtr)>,
    probe: DataBlock,
    chunks: Seq<DataBlock>,
    nb: int,
    m: int,
) -> bool
    decreases blocks.len(),
{
    if blocks.len() == 0 {
        ps.len() == 0
    } else {
        let take_n = if ps.len() < m {
            ps.len() as int
        } else {
            m
        };
        &&& take_n > 0
        &&& block_matches_pairs(blocks[0], ps.take(take_n), probe, chunks, nb)
        &&& blocks_cover_pairs(blocks.drop_first(), ps.skip(take_n), probe, chunks, nb, m)
    }
}

/// The emitted blocks partition the candidate pairs in order in blocks of
/// exactly `m`.
pub open spec fn full_blocks_cover(
    blocks: Seq<DataBlock>,
    ps: Seq<(int, RowPtr)>,
    probe: DataBlock,
    chunks: Seq<DataBlock>,
    nb: int,
    m: int,
) -> bool
    decreases blocks.len(),
{
    if blocks.len() == 0 {
        ps.len() == 0
    } else {
        &&& ps.len() >= m
        &&& m > 0
        &&& block_matches_pairs(blocks[0], ps.take(m), probe, chunks, nb)
        &&& full_blocks_cover(blocks.drop_first(), ps.skip(m), probe, chunks, nb, m)
    }
}

/// Appending one more full block extends a full cover by its pairs.
pub proof fn lemma_full_cover_append(
    blocks: Seq<DataBlock>,
    ps: Seq<(int, RowPtr)>,
    nb_block: DataBlock,
    q: Seq<(int, RowPtr)>,
    probe: DataBlock,
    chunks: Seq<DataBlock>,
    nb: int,
    m: int,
)
    requires
        m > 0,
        full_blocks_cover(blocks, ps, probe, chunks, nb, m),
        q.len() == m,
        block_matches_pairs(nb_block, q, probe, chunks, nb),
    ensures
        full_blocks_cover(blocks.push(nb_block), ps + q, probe, chunks, nb, m),
    decreases blocks.len(),
{
    if blocks.len() == 0 {
        assert(ps.len() == 0);
        assert(ps + q =~= q);
        assert(blocks.push(nb_block)[0] == nb_block);
        assert((ps + q).take(m) =~= q);
        assert((ps + q).skip(m) =~= Seq::empty());
        assert(blocks.push(nb_block).drop_first() =~= Seq::empty());
        assert(full_blocks_cover(
            Seq::<DataBlock>::empty(),
            Seq::<(int, RowPtr)>::empty(),
            probe,
            chunks,
            nb,
            m,
        ));
    } else {
        assert(blocks.push(nb_block)[0] == blocks[0]);
        assert((ps + q).take(m) =~= ps.take(m));
        assert(blocks.push(nb_block).drop_first() =~= blocks.drop_first().push(nb_block));
        assert((ps + q).skip(m) =~= ps.skip(m) + q);
        lemma_full_cover_append(
            blocks.drop_first(),
            ps.skip(m),
            nb_block,
            q,
            probe,
            chunks,
            nb,
            m,
        );
    }
}

/// A full cover is a cover.
pub proof fn lemma_full_cover_is_cover(
    blocks: Seq<DataBlock>,
    ps: Seq<(int, RowPtr)>,
    probe: DataBlock,
    chunks: Seq<DataBlock>,
    nb: int,
    m: int,
)
    requires
        m > 0,
        full_blocks_cover(blocks, ps, probe, chunks, nb, m),
    ensures
        blocks_cover_pairs(blocks, ps, probe, chunks, nb, m),
    decreases blocks.len(),
{
    if blocks.len() > 0 {
        lemma_full_cover_is_cover(blocks.drop_first(), ps.skip(m), probe, chunks, nb, m);
    }
}

/// Appending one last block of at most `m` pairs turns a full cover into a
/// cover of all the pairs.
pub proof fn lemma_full_cover_append_last(
    blocks: Seq<DataBlock>,
    ps: Seq<(int, RowPtr)>,
    nb_block: DataBlock,
    q: Seq<(int, RowPtr)>,
    probe: DataBlock,
    chunks: Seq<DataBlock>,
    nb: int,
    m: int,
)
    requires
        m > 0,
        full_blocks_cover(blocks, ps, probe, chunks, nb, m),
        0 < q.len() <= m,
        block_matches_pairs(nb_block, q, probe, chunks, nb),
    ensures
        blocks_cover_pairs(blocks.push(nb_block), ps + q, probe, chunks, nb, m),
    decreases blocks.len(),
{
    if blocks.len() == 0 {
        assert(ps + q =~= q);
        assert(blocks.push(nb_block)[0] == nb_block);
        let take_n = if q.len() < m {
            q.len() as int
        } else {
            m
        };
        assert(take_n == q.len());
        assert(q.take(take_n) =~= q);
        assert(q.skip(take_n) =~= Seq::empty());
        assert(blocks.push(nb_block).drop_first() =~= Seq::empty());
        assert((ps + q).take(take_n) =~= q);
        assert((ps + q).skip(take_n) =~= Seq::empty());
        assert(blocks_cover_pairs(
            Seq::<DataBlock>::empty(),
            Seq::<(int, RowPtr)>::empty(),
            probe,
            chunks,
            nb,
            m,
        ));
    } else {
        assert(blocks.push(nb_block)[0] == blocks[0]);
        assert((ps + q).len() >= m);
        assert((ps + q).take(m) =~= ps.take(m));
        assert(blocks.push(nb_block).drop_first() =~= blocks.drop_first().push(nb_block));
        assert((ps + q).skip(m) =~= ps.skip(m) + q);
        lemma_full_cover_append_last(
            blocks.drop_first(),
            ps.skip(m),
            nb_block,
            q,
            probe,
            chunks,
            nb,
            m,
        );
    }
}

/// The probe rows kept by the anti join: indices whose key has no build
/// match, in ascending order.
pub open spec fn anti_kept(table: HashJoinTable, keys: Seq<u64>, n: int) -> Seq<int>
    decreases n,
{
    if n <= 0 {
        Seq::empty()
    } else {
        let rest = anti_kept(table, keys, n - 1);
        if !table.spec_contains_key(keys[n - 1]) {
            rest.push(n - 1)
        } else {
            rest
        }
    }
}

/// The probe rows kept by the semi join: indices whose key has at least one
/// build match, in ascending order.
pub open spec fn semi_kept(table: HashJoinTable, keys: Seq<u64>, n: int) -> Seq<int>
    decreases n,
{
    if n <= 0 {
        Seq::empty()
    } else {
        let rest = semi_kept(table, keys, n - 1);
        if table.spec_contains_key(keys[n - 1]) {
            rest.push(n - 1)
        } else {
            rest
        }
    }
}

/// `i` is kept by the anti join exactly when it is a probe row whose key has
/// no build match.
pub proof fn lemma_anti_kept_member(table: HashJoinTable, keys: Seq<u64>, n: int, i: int)
    ensures
        anti_kept(table, keys, n).contains(i) == (0 <= i < n && !table.spec_contains_key(keys[i])),
    decreases n,
{
    if n > 0 {
        lemma_anti_kept_member(table, keys, n - 1, i);
        let rest = anti_kept(table, keys, n - 1);
        if !table.spec_contains_key(keys[n - 1]) {
            assert(anti_kept(table, keys, n) == rest.push(n - 1));
            if i == n - 1 {
                assert(rest.push(n - 1)[rest.len() as int] == n - 1);
                assert(anti_kept(table, keys, n).contains(i));
            } else {
                assert(rest.push(n - 1).contains(i) == rest.contains(i)) by {
                    if rest.push(n - 1).contains(i) {
                        let j = choose|j: int|
                            0 <= j < rest.push(n - 1).len() && (#[trigger] rest.push(n - 1)[j])
                                == i;
                        assert(j < rest.len());
                        assert(rest[j] == i);
                    }
                    if rest.contains(i) {
                        let j = choose|j: int| 0 <= j < rest.len() && (#[trigger] rest[j]) == i;
                        assert(rest.push(n - 1)[j] == i);
                    }
                }
            }
        }
    }
}

/// `i` is kept by the semi join exactly when it is a probe row whose key has
/// a build match.
pub proof fn lemma_semi_kept_member(table: HashJoinTable, keys: Seq<u64>, n: int, i: int)
    ensures
        semi_kept(table, keys, n).contains(i) == (0 <= i < n && table.spec_contains_key(keys[i])),
    decreases n,
{
    if n > 0 {
        lemma_semi_kept_member(table, keys, n - 1, i);
        let rest = semi_kept(table, keys, n - 1);
        if table.spec_contains_key(keys[n - 1]) {
            assert(semi_kept(table, keys, n) == rest.push(n - 1));
            if i == n - 1 {
                assert(rest.push(n - 1)[rest.len() as int] == n - 1);
                assert(semi_kept(table, keys, n).contains(i));
            } else {
                assert(rest.push(n - 1).contains(i) == rest.contains(i)) by {
                    if rest.push(n - 1).contains(i) {
                        let j = choose|j: int|
                            0 <= j < rest.push(n - 1).len() && (#[trigger] rest.push(n - 1)[j])
                                == i;
                        assert(j < rest.len());
                        assert(rest[j] == i);
                    }
                    if rest.contains(i) {
                        let j = choose|j: int| 0 <= j < rest.len() && (#[trigger] rest[j]) == i;
                        assert(rest.push(n - 1)[j] == i);
                    }
                }
            }
        }
    }
}

/// `i` is the probe row of some candidate pair exactly when it is a probe
/// row whose key has a build match.
pub proof fn lemma_pair_seq_rows(table: HashJoinTable, keys: Seq<u64>, n: int, i: int)
    ensures
        (exists|j: int|
            0 <= j < pair_seq(table, keys, n).len() && (#[trigger] pair_seq(table, keys, n)[j]).0
                == i) == (0 <= i < n && table.spec_contains_key(keys[i])),
    decreases n,
{
    if n <= 0 {
    } else {
        lemma_pair_seq_rows(table, keys, n - 1, i);
        let a = pair_seq(table, keys, n - 1);
        let b = table.matches_of(keys[n - 1]).map_values(|p: RowPtr| ((n - 1) as int, p));
        assert(pair_seq(table, keys, n) == a + b);
        assert(forall|j: int| 0 <= j < b.len() ==> (#[trigger] b[j]).0 == n - 1);
        if exists|j: int| 0 <= j < (a + b).len() && (#[trigger] (a + b)[j]).0 == i {
            let j = choose|j: int| 0 <= j < (a + b).len() && (#[trigger] (a + b)[j]).0 == i;
            if j < a.len() {
                assert((a + b)[j] == a[j]);
            } else {
                assert((a + b)[j] == b[j - a.len()]);
                assert(i == n - 1);
                assert(b.len() > 0);
            }
        }
        if 0 <= i < n && table.spec_contains_key(keys[i]) {
            if i < n - 1 {
                let j = choose|j: int| 0 <= j < a.len() && (#[trigger] a[j]).0 == i;
                assert((a + b)[j] == a[j]);
                assert((a + b)[j].0 == i);
            } else {
                assert(b.len() == table.matches_of(keys[n - 1]).len());
                assert(b.len() > 0);
                assert((a + b)[a.len() as int] == b[0]);
                assert((a + b)[a.len() as int].0 == i);
            }
        }
    }
}

/// The inner, semi and anti joins agree: the probe rows that appear in the
/// inner join's candidate pairs are exactly the semi join's rows, and the
/// anti join keeps exactly the complement of the semi join's rows over the
/// probe batch.
pub proof fn lemma_inner_semi_anti_agree(table: HashJoinTable, keys: Seq<u64>, n: int)
    ensures
        forall|i: int|
            (exists|j: int|
                0 <= j < pair_seq(table, keys, n).len() && (#[trigger] pair_seq(
                    table,
                    keys,
                    n,
                )[j]).0 == i) == #[trigger] semi_kept(table, keys, n).contains(i),
        forall|i: int|
            0 <= i < n ==> #[trigger] anti_kept(table, keys, n).contains(i) == !semi_kept(
                table,
                keys,
                n,
            ).contains(i),
{
    assert forall|i: int|
        (exists|j: int|
            0 <= j < pair_seq(table, keys, n).len() && (#[trigger] pair_seq(table, keys, n)[j]).0
                == i) == #[trigger] semi_kept(table, keys, n).contains(i) by {
        lemma_pair_seq_rows(table, keys, n, i);
        lemma_semi_kept_member(table, keys, n, i);
    }
    assert forall|i: int| 0 <= i < n implies #[trigger] anti_kept(table, keys, n).contains(i)
        == !semi_kept(table, keys, n).contains(i) by {
        lemma_anti_kept_member(table, keys, n, i);
        lemma_semi_kept_member(table, keys, n, i);
    }
}

/// The concatenation of a sequence of candidate-pair chunks, in order.
pub open spec fn concat_pairs(chunking: Seq<Seq<(int, RowPtr)>>) -> Seq<(int, RowPtr)>
    decreases chunking.len(),
{
    if chunking.len() == 0 {
        Seq::empty()
    } else {
        concat_pairs(chunking.drop_last()) + chunking.last()
    }
}

/// Resolving the matched state chunk by chunk reaches the same state as one
/// unbounded chunk over the concatenated pairs: conjunct evaluation is
/// associative across chunk boundaries.
pub proof fn lemma_chunked_conjunct_resolution(
    chunking: Seq<Seq<(int, RowPtr)>>,
    conj: Conjunct,
    probe: DataBlock,
    chunks: Seq<DataBlock>,
    i: int,
)
    ensures
        (exists|b: int|
            0 <= b < chunking.len() && matched_in(
                #[trigger] chunking[b],
                conj,
                probe,
                chunks,
                i,
            )) == matched_in(concat_pairs(chunking), conj, probe, chunks, i),
    decreases chunking.len(),
{
    if chunking.len() == 0 {
    } else {
        let rest = chunking.drop_last();
        lemma_chunked_conjunct_resolution(rest, conj, probe, chunks, i);
        lemma_matched_in_add(concat_pairs(rest), chunking.last(), conj, probe, chunks, i);
        if exists|b: int|
            0 <= b < chunking.len() && matched_in(#[trigger] chunking[b], conj, probe, chunks, i) {
            let b = choose|b: int|
                0 <= b < chunking.len() && matched_in(
                    #[trigger] chunking[b],
                    conj,
                    probe,
                    chunks,
                    i,
                );
            if b < rest.len() {
                assert(rest[b] == chunking[b]);
            } else {
                assert(chunking[b] == chunking.last());
            }
        }
        if matched_in(concat_pairs(rest), conj, probe, chunks, i) {
            let b = choose|b: int|
                0 <= b < rest.len() && matched_in(#[trigger] rest[b], conj, probe, chunks, i);
            assert(chunking[b] == rest[b]);
            assert(matched_in(chunking[b], conj, probe, chunks, i));
        }
        if matched_in(chunking.last(), conj, probe, chunks, i) {
            assert(matched_in(chunking[chunking.len() - 1], conj, probe, chunks, i));
        }
    }
}

/// The rows the conjunct anti join keeps depend only on the concatenation
/// of the chunks: any chunking of the candidate pairs, resolved chunk by
/// chunk, yields the anti result of the unbounded chunk.
pub proof fn lemma_chunking_preserves_anti_result(
    chunking: Seq<Seq<(int, RowPtr)>>,
    pairs: Seq<(int, RowPtr)>,
    conj: Conjunct,
    probe: DataBlock,
    chunks: Seq<DataBlock>,
    n: int,
)
    requires
        concat_pairs(chunking) == pairs,
    ensures
        forall|i: int|
            (exists|b: int|
                0 <= b < chunking.len() && matched_in(#[trigger] chunking[b], conj, probe, chunks, i))
                == #[trigger] matched_in(pairs, conj, probe, chunks, i),
        forall|i: int|
            #[trigger] conj_anti_kept(pairs, conj, probe, chunks, n).contains(i) == (0 <= i < n
                && !matched_in(pairs, conj, probe, chunks, i)),
{
    assert forall|i: int|
        (exists|b: int|
            0 <= b < chunking.len() && matched_in(#[trigger] chunking[b], conj, probe, chunks, i))
            == #[trigger] matched_in(pairs, conj, probe, chunks, i) by {
        lemma_chunked_conjunct_resolution(chunking, conj, probe, chunks, i);
    }
    assert forall|i: int|
        #[trigger] conj_anti_kept(pairs, conj, probe, chunks, n).contains(i) == (0 <= i < n
            && !matched_in(pairs, conj, probe, chunks, i)) by {
        lemma_conj_anti_kept_member(pairs, conj, probe, chunks, n, i);
    }
}

/// `out` holds exactly the rows of `input` at the indices `idxs`, in order,
/// with the column types preserved.
pub open spec fn is_gather_of(out: DataBlock, input: DataBlock, idxs: Seq<int>) -> bool {
    &&& out.wf()
    &&& out.num_rows == idxs.len()
    &&& out.entries@.len() == input.entries@.len()
    &&& forall|c: int|
        0 <= c < input.entries@.len() ==> (#[trigger] out.entries@[c]).data_type
            == input.entries@[c].data_type
    &&& forall|c: int, j: int|
        0 <= c < input.entries@.len() && 0 <= j < idxs.len() ==> out.cell(c, j) == input.cell(
            c,
            idxs[j],
        )
}

/// The probe engine's shared state: the cancellation token, the pinned
/// build-side batches, the optional residual conjunct, and the chunk bound.
pub struct HashJoinProbeState {
    pub interrupt: Interrupt,
    pub build_chunks: Vec<DataBlock>,
    pub other_predicate: Option<Conjunct>,
    pub max_block_size: usize,
}

impl HashJoinProbeState {
    /// The build side is uniformly laid out and chunks are addressable by
    /// `u32` row pointers; at least one pair fits in a chunk.
    pub open spec fn wf(&self) -> bool {
        &&& self.max_block_size >= 1
        &&& uniform_chunks(self.build_chunks@)
        &&& self.build_chunks@.len() <= u32::MAX
        &&& forall|ci: int|
            0 <= ci < self.build_chunks@.len() ==> (#[trigger] self.build_chunks@[ci]).num_rows
                <= u32::MAX
    }

    /// Anti join without a conjunct: a probe row is retained exactly when no
    /// build row carries an equal key. Aborts with the distinguished
    /// cancellation error when the interrupt is set; otherwise emits one
    /// gathered batch of the retained rows, or none when no row is retained.
    pub fn left_anti_join(
        &self,
        input: &DataBlock,
        keys: &Vec<u64>,
        hash_table: &HashJoinTable,
    ) -> (r: Result<Vec<DataBlock>, ErrorCodes>)
        requires
            input.wf(),
            keys@.len() == input.num_rows,
            input.num_rows <= u32::MAX,
            hash_table.wf(),
        ensures
            self.interrupt.flag == r.is_err(),
            r matches Err(e) ==> e.spec_code() == CODE_ABORTED_QUERY,
            r matches Ok(blocks) ==> {
                let kept = anti_kept(*hash_table, keys@, input.num_rows as int);
                &&& kept.len() == 0 ==> blocks@.len() == 0
                &&& kept.len() > 0 ==> blocks@.len() == 1 && is_gather_of(blocks@[0], *input, kept)
            },
    {
        let n = input.num_rows();
        let mut probe_indexes: Vec<u32> = Vec::new();
        let mut result_blocks: Vec<DataBlock> = Vec::new();
        for idx in 0..n
            invariant
                n == input.num_rows,
                n <= u32::MAX,
                keys@.len() == n,
                input.wf(),
                hash_table.wf(),
                probe_indexes@.len() == anti_kept(*hash_table, keys@, idx as int).len(),
                forall|j: int|
                    0 <= j < probe_indexes@.len() ==> #[trigger] probe_indexes@[j] as int
                        == anti_kept(*hash_table, keys@, idx as int)[j],
                forall|j: int| 0 <= j < probe_indexes@.len() ==> #[trigger] probe_indexes@[j] < idx,
        {
            if !hash_table.probe_contains(keys[idx]) {
                probe_indexes.push(idx as u32);
            }
        }
        if self.interrupt.is_set() {
            return Err(
                ErrorCodes::AbortedQuery(
                    "Aborted query, because the server is shutting down or the query was killed.".to_owned(),
                ),
            );
        }
        if probe_indexes.len() > 0 {
            let block = input.take(&probe_indexes);
            proof {
                let kept = anti_kept(*hash_table, keys@, n as int);
                assert forall|c: int, j: int|
                    0 <= c < input.entries@.len() && 0 <= j < kept.len() implies block.cell(c, j)
                    == input.cell(c, kept[j]) by {
                    assert(probe_indexes@[j] as int == kept[j]);
                }
            }
            result_blocks.push(block);
        }
        Ok(result_blocks)
    }

    /// The number of build-side columns; zero when the build side is empty.
    pub open spec fn build_ncols(&self) -> int {
        if self.build_chunks@.len() > 0 {
            self.build_chunks@[0].entries@.len() as int
        } else {
            0
        }
    }

    /// Resolves one bounded chunk of candidate pairs: checks the interrupt,
    /// gathers the probe and build rows of the first `matched_idx` pairs,
    /// evaluates the conjunct over the merged pair block, and marks every
    /// probe row one of whose pairs satisfied it.
    fn process_left_anti_join_block(
        &self,
        matched_idx: usize,
        input: &DataBlock,
        probe_indexes: &Vec<u32>,
        build_indexes: &Vec<RowPtr>,
        other_predicate: &Conjunct,
        row_state: &mut Vec<bool>,
    ) -> (r: Result<(), ErrorCodes>)
        requires
            self.wf(),
            input.wf(),
            matched_idx >= 1,
            matched_idx <= probe_indexes@.len(),
            matched_idx <= build_indexes@.len(),
            forall|j: int|
                0 <= j < matched_idx ==> #[trigger] probe_indexes@[j] < input.num_rows,
            forall|j: int|
                0 <= j < matched_idx ==> ptr_in_bounds(
                    self.build_chunks@,
                    #[trigger] build_indexes@[j],
                ),
            old(row_state)@.len() == input.num_rows,
            other_predicate.wf(input.entries@.len() as int, self.build_ncols()),
        ensures
            r.is_err() == self.interrupt.flag,
            r matches Err(e) ==> e.spec_code() == CODE_ABORTED_QUERY && *final(row_state) == *old(
                row_state,
            ),
            r matches Ok(u) ==> {
                &&& final(row_state)@.len() == old(row_state)@.len()
                &&& forall|i: int|
                    0 <= i < old(row_state)@.len() ==> final(row_state)@[i] == (old(
                        row_state,
                    )@[i] || matched_in(
                        pairs_of(probe_indexes@, build_indexes@, matched_idx as int),
                        *other_predicate,
                        *input,
                        self.build_chunks@,
                        i,
                    ))
            },
    {
        if self.interrupt.is_set() {
            return Err(
                ErrorCodes::AbortedQuery(
                    "Aborted query, because the server is shutting down or the query was killed.".to_owned(),
                ),
            );
        }
        let mut pp: Vec<u32> = Vec::new();
        let mut pb: Vec<RowPtr> = Vec::new();
        for j in 0..matched_idx
            invariant
                matched_idx <= probe_indexes@.len(),
                matched_idx <= build_indexes@.len(),
                pp@ =~= probe_indexes@.subrange(0, j as int),
                pb@ =~= build_indexes@.subrange(0, j as int),
        {
            pp.push(probe_indexes[j]);
            pb.push(build_indexes[j]);
            proof {
                assert(pp@ =~= probe_indexes@.subrange(0, j as int + 1));
                assert(pb@ =~= build_indexes@.subrange(0, j as int + 1));
            }
        }
        proof {
            assert(ptr_in_bounds(self.build_chunks@, build_indexes@[0]));
            assert(self.build_chunks@.len() > 0);
            assert forall|j: int| 0 <= j < pb@.len() implies ptr_in_bounds(
                self.build_chunks@,
                #[trigger] pb@[j],
            ) by {
                assert(pb@[j] == build_indexes@[j]);
            }
            assert forall|j: int| 0 <= j < pp@.len() implies #[trigger] pp@[j]
                < input.num_rows by {
                assert(pp@[j] == probe_indexes@[j]);
            }
        }
        let probe_block = input.take(&pp);
        let build_block = gather_build_block(&self.build_chunks, &pb);
        let np = input.num_columns();
        let result_block = merge_eq_block(probe_block, build_block);
        let ghost pairs = pairs_of(probe_indexes@, build_indexes@, matched_idx as int);
        proof {
            assert forall|c: int, j: int|
                0 <= c < np && 0 <= j < matched_idx implies #[trigger] result_block.cell(c, j)
                == input.cell(c, probe_indexes@[j] as int) by {
                assert(result_block.entries@[c] == probe_block.entries@[c]);
                assert(probe_block.cell(c, j) == input.cell(c, pp@[j] as int));
                assert(pp@[j] == probe_indexes@[j]);
            }
            assert forall|c: int, j: int|
                np <= c < result_block.entries@.len() && 0 <= j < matched_idx
                implies #[trigger] result_block.cell(c, j) == build_cell(
                self.build_chunks@,
                c - np,
                build_indexes@[j],
            ) by {
                assert(result_block.entries@[c] == build_block.entries@[c - np]);
                assert(build_block.cell(c - np, j) == build_cell(
                    self.build_chunks@,
                    c - np,
                    pb@[j],
                ));
                assert(pb@[j] == build_indexes@[j]);
            }
        }
        for j in 0..matched_idx
            invariant
                self.wf(),
                input.wf(),
                result_block.wf(),
                matched_idx >= 1,
                matched_idx <= probe_indexes@.len(),
                matched_idx <= build_indexes@.len(),
                matched_idx == result_block.num_rows,
                np == input.entries@.len(),
                np <= result_block.entries@.len(),
                result_block.entries@.len() == np + self.build_ncols(),
                other_predicate.wf(np as int, self.build_ncols()),
                forall|jj: int|
                    0 <= jj < matched_idx ==> #[trigger] probe_indexes@[jj] < input.num_rows,
                row_state@.len() == old(row_state)@.len(),
                old(row_state)@.len() == input.num_rows,
                pairs == pairs_of(probe_indexes@, build_indexes@, matched_idx as int),
                forall|c: int, jj: int|
                    0 <= c < np && 0 <= jj < matched_idx ==> #[trigger] result_block.cell(c, jj)
                        == input.cell(c, probe_indexes@[jj] as int),
                forall|c: int, jj: int|
                    np <= c < result_block.entries@.len() && 0 <= jj < matched_idx
                        ==> #[trigger] result_block.cell(c, jj) == build_cell(
                        self.build_chunks@,
                        c - np,
                        build_indexes@[jj],
                    ),
                forall|i: int|
                    0 <= i < old(row_state)@.len() ==> #[trigger] row_state@[i] == (old(
                        row_state,
                    )@[i] || matched_in(
                        pairs.subrange(0, j as int),
                        *other_predicate,
                        *input,
                        self.build_chunks@,
                        i,
                    )),
        {
            let hit = eval_conjunct_merged(other_predicate, &result_block, np, j);
            proof {
                let pr = probe_indexes@[j as int] as int;
                assert(conjunct_holds_merged(*other_predicate, result_block, np as int, j as int)
                    == conjunct_holds(
                    *other_predicate,
                    *input,
                    pr,
                    self.build_chunks@,
                    build_indexes@[j as int],
                ));
            }
            if hit {
                let target = probe_indexes[j] as usize;
                row_state[target] = true;
            }
            proof {
                let pr = probe_indexes@[j as int] as int;
                let e = pairs[j as int];
                assert(pairs.subrange(0, j as int + 1) =~= pairs.subrange(0, j as int).push(e));
                assert forall|i: int| 0 <= i < old(row_state)@.len() implies #[trigger] row_state@[i]
                    == (old(row_state)@[i] || matched_in(
                    pairs.subrange(0, j as int + 1),
                    *other_predicate,
                    *input,
                    self.build_chunks@,
                    i,
                )) by {
                    lemma_matched_in_push(
                        pairs.subrange(0, j as int),
                        e,
                        *other_predicate,
                        *input,
                        self.build_chunks@,
                        i,
                    );
                }
            }
        }
        proof {
            assert(pairs.subrange(0, matched_idx as int) =~= pairs);
        }
        Ok(())
    }

    /// Materializes one inner-join output block from the buffered pairs:
    /// the probe rows gathered at the pair indices, beside the build rows
    /// gathered at the pair pointers.
    fn emit_inner_block(
        &self,
        input: &DataBlock,
        probe_indexes: &Vec<u32>,
        build_indexes: &Vec<RowPtr>,
    ) -> (r: DataBlock)
        requires
            self.wf(),
            input.wf(),
            probe_indexes@.len() == build_indexes@.len(),
            probe_indexes@.len() >= 1,
            forall|j: int|
                0 <= j < probe_indexes@.len() ==> #[trigger] probe_indexes@[j] < input.num_rows,
            forall|j: int|
                0 <= j < build_indexes@.len() ==> ptr_in_bounds(
                    self.build_chunks@,
                    #[trigger] build_indexes@[j],
                ),
        ensures
            block_matches_pairs(
                r,
                pairs_of(probe_indexes@, build_indexes@, probe_indexes@.len() as int),
                *input,
                self.build_chunks@,
                self.build_ncols(),
            ),
    {
        proof {
            assert(ptr_in_bounds(self.build_chunks@, build_indexes@[0]));
            assert(self.build_chunks@.len() > 0);
        }
        let probe_block = input.take(probe_indexes);
        let build_block = gather_build_block(&self.build_chunks, build_indexes);
        let np = input.num_columns();
        let result_block = merge_eq_block(probe_block, build_block);
        proof {
            let m = probe_indexes@.len() as int;
            let pairs = pairs_of(probe_indexes@, build_indexes@, m);
            assert forall|c: int, j: int|
                0 <= c < np && 0 <= j < m implies #[trigger] result_block.cell(c, j) == input.cell(
                c,
                pairs[j].0,
            ) by {
                assert(result_block.entries@[c] == probe_block.entries@[c]);
                assert(probe_block.cell(c, j) == input.cell(c, probe_indexes@[j] as int));
            }
            assert forall|c: int, j: int|
                np <= c < result_block.entries@.len() && 0 <= j < m
                implies #[trigger] result_block.cell(c, j) == build_cell(
                self.build_chunks@,
                c - np,
                pairs[j].1,
            ) by {
                assert(result_block.entries@[c] == build_block.entries@[c - np]);
                assert(build_block.cell(c - np, j) == build_cell(
                    self.build_chunks@,
                    c - np,
                    build_indexes@[j],
                ));
            }
        }
        result_block
    }

    /// Inner join: every (probe row, matching build row) pair yields one
    /// output row holding the probe columns beside the build columns. Pairs
    /// are emitted in probe-row order and materialized in bounded blocks of
    /// at most `max_block_size` rows. A set interrupt aborts the batch
    /// before any block is emitted.
    pub fn inner_join(
        &self,
        input: &DataBlock,
        keys: &Vec<u64>,
        hash_table: &HashJoinTable,
    ) -> (r: Result<Vec<DataBlock>, ErrorCodes>)
        requires
            self.wf(),
            input.wf(),
            keys@.len() == input.num_rows,
            input.num_rows <= u32::MAX,
            hash_table.wf(),
            hash_table.in_bounds(chunk_rows(self.build_chunks@)),
        ensures
            r.is_err() == self.interrupt.flag,
            r matches Err(e) ==> e.spec_code() == CODE_ABORTED_QUERY,
            r matches Ok(blocks) ==> blocks_cover_pairs(
                blocks@,
                pair_seq(*hash_table, keys@, input.num_rows as int),
                *input,
                self.build_chunks@,
                self.build_ncols(),
                self.max_block_size as int,
            ),
    {
        if self.interrupt.is_set() {
            return Err(
                ErrorCodes::AbortedQuery(
                    "Aborted query, because the server is shutting down or the query was killed.".to_owned(),
                ),
            );
        }
        let n = input.num_rows();
        let max_block_size = self.max_block_size;
        let ghost chunks = self.build_chunks@;
        let mut probe_indexes: Vec<u32> = Vec::new();
        let mut build_indexes: Vec<RowPtr> = Vec::new();
        let ghost mut processed: Seq<(int, RowPtr)> = Seq::empty();
        let mut result_blocks: Vec<DataBlock> = Vec::new();
        proof {
            assert(processed + pairs_of(probe_indexes@, build_indexes@, 0) =~= pair_seq(
                *hash_table,
                keys@,
                0,
            ));
            assert(full_blocks_cover(
                Seq::<DataBlock>::empty(),
                Seq::<(int, RowPtr)>::empty(),
                *input,
                chunks,
                self.build_ncols(),
                max_block_size as int,
            ));
        }
        for idx in 0..n
            invariant
                self.wf(),
                input.wf(),
                hash_table.wf(),
                hash_table.in_bounds(chunk_rows(chunks)),
                chunks == self.build_chunks@,
                n == input.num_rows,
                n <= u32::MAX,
                keys@.len() == n,
                max_block_size == self.max_block_size,
                max_block_size >= 1,
                probe_indexes@.len() == build_indexes@.len(),
                probe_indexes@.len() < max_block_size,
                forall|j: int|
                    0 <= j < probe_indexes@.len() ==> #[trigger] probe_indexes@[j] < n,
                forall|j: int|
                    0 <= j < build_indexes@.len() ==> ptr_in_bounds(
                        chunks,
                        #[trigger] build_indexes@[j],
                    ),
                processed + pairs_of(probe_indexes@, build_indexes@, probe_indexes@.len() as int)
                    == pair_seq(*hash_table, keys@, idx as int),
                full_blocks_cover(
                    result_blocks@,
                    processed,
                    *input,
                    chunks,
                    self.build_ncols(),
                    max_block_size as int,
                ),
        {
            let matches = hash_table.probe_all(keys[idx]);
            proof {
                assert forall|t: int| 0 <= t < matches@.len() implies ptr_in_bounds(
                    chunks,
                    #[trigger] matches@[t],
                ) by {
                    hash_table.lemma_matches_in_bounds(chunk_rows(chunks), keys@[idx as int], t);
                }
            }
            let mcount = matches.len();
            for t in 0..mcount
                invariant
                    self.wf(),
                    input.wf(),
                    hash_table.wf(),
                    hash_table.in_bounds(chunk_rows(chunks)),
                    chunks == self.build_chunks@,
                    n == input.num_rows,
                    n <= u32::MAX,
                    keys@.len() == n,
                    idx < n,
                    max_block_size == self.max_block_size,
                    max_block_size >= 1,
                    mcount == matches@.len(),
                    matches@ == hash_table.matches_of(keys@[idx as int]),
                    forall|tt: int|
                        0 <= tt < matches@.len() ==> ptr_in_bounds(chunks, #[trigger] matches@[tt]),
                    probe_indexes@.len() == build_indexes@.len(),
                    probe_indexes@.len() < max_block_size,
                    forall|j: int|
                        0 <= j < probe_indexes@.len() ==> #[trigger] probe_indexes@[j] < n,
                    forall|j: int|
                        0 <= j < build_indexes@.len() ==> ptr_in_bounds(
                            chunks,
                            #[trigger] build_indexes@[j],
                        ),
                    processed + pairs_of(
                        probe_indexes@,
                        build_indexes@,
                        probe_indexes@.len() as int,
                    ) == pair_seq(*hash_table, keys@, idx as int) + matches@.subrange(
                        0,
                        t as int,
                    ).map_values(|p: RowPtr| (idx as int, p)),
                    full_blocks_cover(
                        result_blocks@,
                        processed,
                        *input,
                        chunks,
                        self.build_ncols(),
                        max_block_size as int,
                    ),
            {
                let ghost ps0 = probe_indexes@;
                let ghost bs0 = build_indexes@;
                probe_indexes.push(idx as u32);
                build_indexes.push(matches[t]);
                proof {
                    let m = probe_indexes@.len() as int;
                    let e = (idx as int, matches@[t as int]);
                    assert(pairs_of(probe_indexes@, build_indexes@, m) =~= pairs_of(
                        ps0,
                        bs0,
                        m - 1,
                    ).push(e));
                    assert(matches@.subrange(0, t as int + 1) =~= matches@.subrange(
                        0,
                        t as int,
                    ).push(matches@[t as int]));
                    assert(matches@.subrange(0, t as int + 1).map_values(
                        |p: RowPtr| (idx as int, p),
                    ) =~= matches@.subrange(0, t as int).map_values(|p: RowPtr| (idx as int, p)).push(
                        e,
                    ));
                    assert(processed + pairs_of(probe_indexes@, build_indexes@, m) =~= (processed
                        + pairs_of(ps0, bs0, m - 1)).push(e));
                    assert((pair_seq(*hash_table, keys@, idx as int) + matches@.subrange(
                        0,
                        t as int,
                    ).map_values(|p: RowPtr| (idx as int, p))).push(e) =~= pair_seq(
                        *hash_table,
                        keys@,
                        idx as int,
                    ) + matches@.subrange(0, t as int + 1).map_values(|p: RowPtr| (idx as int, p)));
                }
                if probe_indexes.len() == max_block_size {
                    let block = self.emit_inner_block(input, &probe_indexes, &build_indexes);
                    let ghost pend = pairs_of(
                        probe_indexes@,
                        build_indexes@,
                        probe_indexes@.len() as int,
                    );
                    proof {
                        lemma_full_cover_append(
                            result_blocks@,
                            processed,
                            block,
                            pend,
                            *input,
                            chunks,
                            self.build_ncols(),
                            max_block_size as int,
                        );
                        processed = processed + pend;
                    }
                    result_blocks.push(block);
                    probe_indexes.clear();
                    build_indexes.clear();
                    proof {
                        assert(pairs_of(probe_indexes@, build_indexes@, 0) =~= Seq::empty());
                        assert(processed + pairs_of(probe_indexes@, build_indexes@, 0)
                            =~= processed);
                    }
                }
            }
            proof {
                assert(matches@.subrange(0, mcount as int) =~= matches@);
                assert(pair_seq(*hash_table, keys@, idx as int + 1) == pair_seq(
                    *hash_table,
                    keys@,
                    idx as int,
                ) + matches@.map_values(|p: RowPtr| (idx as int, p)));
            }
        }
        if probe_indexes.len() > 0 {
            let block = self.emit_inner_block(input, &probe_indexes, &build_indexes);
            let ghost pend = pairs_of(probe_indexes@, build_indexes@, probe_indexes@.len() as int);
            proof {
                lemma_full_cover_append_last(
                    result_blocks@,
                    processed,
                    block,
                    pend,
                    *input,
                    chunks,
                    self.build_ncols(),
                    max_block_size as int,
                );
                processed = processed + pend;
            }
            result_blocks.push(block);
        } else {
            proof {
                assert(processed + pairs_of(probe_indexes@, build_indexes@, 0) =~= processed);
                lemma_full_cover_is_cover(
                    result_blocks@,
                    processed,
                    *input,
                    chunks,
                    self.build_ncols(),
                    max_block_size as int,
                );
            }
        }
        Ok(result_blocks)
    }

    /// Anti join with a residual conjunct. Raw key matching fills bounded
    /// chunks of at most `max_block_size` candidate pairs; each chunk is
    /// resolved by `process_left_anti_join_block`; a probe row is retained
    /// exactly when no candidate pair of the whole batch satisfied the
    /// conjunct. A set interrupt aborts at the first chunk boundary, so a
    /// batch with any candidate pair never returns a partial result.
    pub fn left_anti_join_with_conjunct(
        &self,
        input: &DataBlock,
        keys: &Vec<u64>,
        hash_table: &HashJoinTable,
    ) -> (r: Result<Vec<DataBlock>, ErrorCodes>)
        requires
            self.wf(),
            input.wf(),
            keys@.len() == input.num_rows,
            input.num_rows <= u32::MAX,
            hash_table.wf(),
            hash_table.in_bounds(chunk_rows(self.build_chunks@)),
            self.other_predicate matches Option::Some(c) ==> c.wf(
                input.entries@.len() as int,
                self.build_ncols(),
            ),
            self.other_predicate.is_some(),
        ensures
            ({
                let n = input.num_rows as int;
                let conj = self.other_predicate.unwrap();
                let pairs = pair_seq(*hash_table, keys@, n);
                &&& r.is_err() == self.interrupt.flag
                &&& r matches Err(e) ==> e.spec_code() == CODE_ABORTED_QUERY
                &&& r matches Ok(blocks) ==> {
                    let kept = conj_anti_kept(pairs, conj, *input, self.build_chunks@, n);
                    &&& kept.len() == 0 ==> blocks@.len() == 0
                    &&& kept.len() > 0 ==> blocks@.len() == 1 && is_gather_of(
                        blocks@[0],
                        *input,
                        kept,
                    )
                }
            }),
    {
        if self.interrupt.is_set() {
            return Err(
                ErrorCodes::AbortedQuery(
                    "Aborted query, because the server is shutting down or the query was killed.".to_owned(),
                ),
            );
        }
        let n = input.num_rows();
        let max_block_size = self.max_block_size;
        let other_predicate = match &self.other_predicate {
            Option::Some(c) => c,
            Option::None => {
                return unreached();
            },
        };
        let ghost conj = *other_predicate;
        let ghost chunks = self.build_chunks@;

        // For anti join, every row starts unmatched.
        let mut row_state: Vec<bool> = Vec::new();
        for i in 0..n
            invariant
                row_state@.len() == i,
                forall|j: int| 0 <= j < i ==> !(#[trigger] row_state@[j]),
        {
            row_state.push(false);
        }

        let mut probe_indexes: Vec<u32> = Vec::new();
        let mut build_indexes: Vec<RowPtr> = Vec::new();
        let ghost mut processed: Seq<(int, RowPtr)> = Seq::empty();

        proof {
            assert(processed + pairs_of(probe_indexes@, build_indexes@, 0) =~= pair_seq(
                *hash_table,
                keys@,
                0,
            ));
        }

        for idx in 0..n
            invariant
                self.wf(),
                input.wf(),
                hash_table.wf(),
                hash_table.in_bounds(chunk_rows(chunks)),
                conj == self.other_predicate.unwrap(),
                self.other_predicate.is_some(),
                conj.wf(input.entries@.len() as int, self.build_ncols()),
                chunks == self.build_chunks@,
                n == input.num_rows,
                n <= u32::MAX,
                keys@.len() == n,
                max_block_size == self.max_block_size,
                max_block_size >= 1,
                row_state@.len() == n,
                probe_indexes@.len() == build_indexes@.len(),
                probe_indexes@.len() < max_block_size,
                forall|j: int|
                    0 <= j < probe_indexes@.len() ==> #[trigger] probe_indexes@[j] < n,
                forall|j: int|
                    0 <= j < build_indexes@.len() ==> ptr_in_bounds(
                        chunks,
                        #[trigger] build_indexes@[j],
                    ),
                processed + pairs_of(probe_indexes@, build_indexes@, probe_indexes@.len() as int)
                    == pair_seq(*hash_table, keys@, idx as int),
                forall|i: int|
                    0 <= i < n ==> #[trigger] row_state@[i] == matched_in(
                        processed,
                        conj,
                        *input,
                        chunks,
                        i,
                    ),
                *other_predicate == conj,
                !self.interrupt.flag,
        {
            let matches = hash_table.probe_all(keys[idx]);
            proof {
                assert forall|t: int| 0 <= t < matches@.len() implies ptr_in_bounds(
                    chunks,
                    #[trigger] matches@[t],
                ) by {
                    hash_table.lemma_matches_in_bounds(chunk_rows(chunks), keys@[idx as int], t);
                }
            }
            let mcount = matches.len();
            for t in 0..mcount
                invariant
                    self.wf(),
                    input.wf(),
                    hash_table.wf(),
                    hash_table.in_bounds(chunk_rows(chunks)),
                    conj == self.other_predicate.unwrap(),
                    self.other_predicate.is_some(),
                    conj.wf(input.entries@.len() as int, self.build_ncols()),
                    chunks == self.build_chunks@,
                    n == input.num_rows,
                    n <= u32::MAX,
                    keys@.len() == n,
                    idx < n,
                    max_block_size == self.max_block_size,
                    max_block_size >= 1,
                    mcount == matches@.len(),
                    matches@ == hash_table.matches_of(keys@[idx as int]),
                    forall|tt: int|
                        0 <= tt < matches@.len() ==> ptr_in_bounds(chunks, #[trigger] matches@[tt]),
                    row_state@.len() == n,
                    probe_indexes@.len() == build_indexes@.len(),
                    probe_indexes@.len() < max_block_size,
                    forall|j: int|
                        0 <= j < probe_indexes@.len() ==> #[trigger] probe_indexes@[j] < n,
                    forall|j: int|
                        0 <= j < build_indexes@.len() ==> ptr_in_bounds(
                            chunks,
                            #[trigger] build_indexes@[j],
                        ),
                    processed + pairs_of(
                        probe_indexes@,
                        build_indexes@,
                        probe_indexes@.len() as int,
                    ) == pair_seq(*hash_table, keys@, idx as int) + matches@.subrange(
                        0,
                        t as int,
                    ).map_values(|p: RowPtr| (idx as int, p)),
                    forall|i: int|
                        0 <= i < n ==> #[trigger] row_state@[i] == matched_in(
                            processed,
                            conj,
                            *input,
                            chunks,
                            i,
                        ),
                    *other_predicate == conj,
                    !self.interrupt.flag,
            {
                let ghost ps0 = probe_indexes@;
                let ghost bs0 = build_indexes@;
                probe_indexes.push(idx as u32);
                build_indexes.push(matches[t]);
                proof {
                    let m = probe_indexes@.len() as int;
                    let e = (idx as int, matches@[t as int]);
                    assert(pairs_of(probe_indexes@, build_indexes@, m) =~= pairs_of(
                        ps0,
                        bs0,
                        m - 1,
                    ).push(e));
                    assert(matches@.subrange(0, t as int + 1) =~= matches@.subrange(
                        0,
                        t as int,
                    ).push(matches@[t as int]));
                    assert(matches@.subrange(0, t as int + 1).map_values(
                        |p: RowPtr| (idx as int, p),
                    ) =~= matches@.subrange(0, t as int).map_values(|p: RowPtr| (idx as int, p)).push(
                        e,
                    ));
                    assert(processed + pairs_of(probe_indexes@, build_indexes@, m) =~= (processed
                        + pairs_of(ps0, bs0, m - 1)).push(e));
                    assert((pair_seq(*hash_table, keys@, idx as int) + matches@.subrange(
                        0,
                        t as int,
                    ).map_values(|p: RowPtr| (idx as int, p))).push(e) =~= pair_seq(
                        *hash_table,
                        keys@,
                        idx as int,
                    ) + matches@.subrange(0, t as int + 1).map_values(|p: RowPtr| (idx as int, p)));
                }
                if probe_indexes.len() == max_block_size {
                    let flush = self.process_left_anti_join_block(
                        max_block_size,
                        input,
                        &probe_indexes,
                        &build_indexes,
                        other_predicate,
                        &mut row_state,
                    );
                    match flush {
                        Result::Err(e) => {
                            proof {
                                let pend = pairs_of(
                                    probe_indexes@,
                                    build_indexes@,
                                    probe_indexes@.len() as int,
                                );
                                assert((processed + pend).len() >= 1);
                                lemma_pair_seq_len_mono(
                                    *hash_table,
                                    keys@,
                                    idx as int + 1,
                                    n as int,
                                );
                                assert(pair_seq(*hash_table, keys@, idx as int + 1).len() >= (
                                processed + pend).len()) by {
                                    assert(pair_seq(*hash_table, keys@, idx as int + 1) == pair_seq(
                                        *hash_table,
                                        keys@,
                                        idx as int,
                                    ) + matches@.map_values(|p: RowPtr| (idx as int, p)));
                                    assert(matches@.subrange(0, t as int + 1).len()
                                        <= matches@.map_values(
                                        |p: RowPtr| (idx as int, p),
                                    ).len());
                                }
                                assert(pair_seq(*hash_table, keys@, n as int).len() > 0);
                            }
                            return Result::Err(e);
                        },
                        Result::Ok(_) => {},
                    }
                    proof {
                        let pend = pairs_of(
                            probe_indexes@,
                            build_indexes@,
                            probe_indexes@.len() as int,
                        );
                        assert forall|i: int| 0 <= i < n implies #[trigger] row_state@[i]
                            == matched_in(processed + pend, conj, *input, chunks, i) by {
                            lemma_matched_in_add(processed, pend, conj, *input, chunks, i);
                        }
                        processed = processed + pend;
                    }
                    probe_indexes.clear();
                    build_indexes.clear();
                    proof {
                        assert(pairs_of(probe_indexes@, build_indexes@, 0) =~= Seq::empty());
                        assert(processed + pairs_of(probe_indexes@, build_indexes@, 0)
                            =~= processed);
                    }
                }
            }
            proof {
                assert(matches@.subrange(0, mcount as int) =~= matches@);
                assert(pair_seq(*hash_table, keys@, idx as int + 1) == pair_seq(
                    *hash_table,
                    keys@,
                    idx as int,
                ) + matches@.map_values(|p: RowPtr| (idx as int, p)));
            }
        }

        if probe_indexes.len() > 0 {
            let m = probe_indexes.len();
            let flush = self.process_left_anti_join_block(
                m,
                input,
                &probe_indexes,
                &build_indexes,
                other_predicate,
                &mut row_state,
            );
            match flush {
                Result::Err(e) => {
                    proof {
                        let pend = pairs_of(probe_indexes@, build_indexes@, m as int);
                        assert((processed + pend).len() >= 1);
                        assert(pair_seq(*hash_table, keys@, n as int).len() > 0);
                    }
                    return Result::Err(e);
                },
                Result::Ok(_) => {},
            }
            proof {
                let pend = pairs_of(probe_indexes@, build_indexes@, m as int);
                assert forall|i: int| 0 <= i < n implies #[trigger] row_state@[i] == matched_in(
                    processed + pend,
                    conj,
                    *input,
                    chunks,
                    i,
                ) by {
                    lemma_matched_in_add(processed, pend, conj, *input, chunks, i);
                }
                processed = processed + pend;
            }
        }
        proof {
            assert(processed == pair_seq(*hash_table, keys@, n as int));
        }

        // Read the final per-row matched state off and keep the unmatched
        // rows.
        let ghost pairs = pair_seq(*hash_table, keys@, n as int);
        let mut unmatched: Vec<u32> = Vec::new();
        for i in 0..n
            invariant
                n == input.num_rows,
                n <= u32::MAX,
                input.wf(),
                row_state@.len() == n,
                forall|j: int|
                    0 <= j < n ==> #[trigger] row_state@[j] == matched_in(
                        pairs,
                        conj,
                        *input,
                        chunks,
                        j,
                    ),
                unmatched@.len() == conj_anti_kept(pairs, conj, *input, chunks, i as int).len(),
                forall|j: int|
                    0 <= j < unmatched@.len() ==> #[trigger] unmatched@[j] as int == conj_anti_kept(
                        pairs,
                        conj,
                        *input,
                        chunks,
                        i as int,
                    )[j],
                forall|j: int| 0 <= j < unmatched@.len() ==> #[trigger] unmatched@[j] < i,
        {
            if !row_state[i] {
                unmatched.push(i as u32);
            }
        }
        let mut result_blocks: Vec<DataBlock> = Vec::new();
        if unmatched.len() > 0 {
            let block = input.take(&unmatched);
            proof {
                let kept = conj_anti_kept(pairs, conj, *input, chunks, n as int);
                assert forall|c: int, j: int|
                    0 <= c < input.entries@.len() && 0 <= j < kept.len() implies block.cell(c, j)
                    == input.cell(c, kept[j]) by {
                    assert(unmatched@[j] as int == kept[j]);
                }
            }
            result_blocks.push(block);
        }
        Ok(result_blocks)
    }

    /// Semi join without a conjunct: a probe row is retained exactly when at
    /// least one build row carries an equal key. Cancellation and output
    /// shape as in the anti join.
    pub fn left_semi_join(
        &self,
        input: &DataBlock,
        keys: &Vec<u64>,
        hash_table: &HashJoinTable,
    ) -> (r: Result<Vec<DataBlock>, ErrorCodes>)
        requires
            input.wf(),
            keys@.len() == input.num_rows,
            input.num_rows <= u32::MAX,
            hash_table.wf(),
        ensures
            self.interrupt.flag == r.is_err(),
            r matches Err(e) ==> e.spec_code() == CODE_ABORTED_QUERY,
            r matches Ok(blocks) ==> {
                let kept = semi_kept(*hash_table, keys@, input.num_rows as int);
                &&& kept.len() == 0 ==> blocks@.len() == 0
                &&& kept.len() > 0 ==> blocks@.len() == 1 && is_gather_of(blocks@[0], *input, kept)
            },
    {
        let n = input.num_rows();
        let mut probe_indexes: Vec<u32> = Vec::new();
        let mut result_blocks: Vec<DataBlock> = Vec::new();
        for idx in 0..n
            invariant
                n == input.num_rows,
                n <= u32::MAX,
                keys@.len() == n,
                input.wf(),
                hash_table.wf(),
                probe_indexes@.len() == semi_kept(*hash_table, keys@, idx as int).len(),
                forall|j: int|
                    0 <= j < probe_indexes@.len() ==> #[trigger] probe_indexes@[j] as int
                        == semi_kept(*hash_table, keys@, idx as int)[j],
                forall|j: int| 0 <= j < probe_indexes@.len() ==> #[trigger] probe_indexes@[j] < idx,
        {
            if hash_table.probe_contains(keys[idx]) {
                probe_indexes.push(idx as u32);
            }
        }
        if self.interrupt.is_set() {
            return Err(
                ErrorCodes::AbortedQuery(
                    "Aborted query, because the server is shutting down or the query was killed.".to_owned(),
                ),
            );
        }
        if probe_indexes.len() > 0 {
            let block = input.take(&probe_indexes);
            proof {
                let kept = semi_kept(*hash_table, keys@, n as int);
                assert forall|c: int, j: int|
                    0 <= c < input.entries@.len() && 0 <= j < kept.len() implies block.cell(c, j)
                    == input.cell(c, kept[j]) by {
                    assert(probe_indexes@[j] as int == kept[j]);
                }
            }
            result_blocks.push(block);
        }
        Ok(result_blocks)
    }
}

} // verus!
