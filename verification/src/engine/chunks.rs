//! How checkpoint rows are cut into tables, by their worst-case encoded lengths.

use vstd::prelude::*;

use crate::domain::bounds::{SST_ARCHIVE_FIXED_BYTES_MAX, SST_TABLE_TARGET_BYTES};

verus! {

/// The most rows that one store's plan is made for: one for every lifetime occupancy.
pub const CHECKPOINT_ROWS_MAX: usize = 10_000_000;

/// The worst-case lengths of rows together.
pub open spec fn weight_sum(weights: Seq<u64>) -> nat
    decreases weights.len(),
{
    if weights.len() == 0 {
        0
    } else {
        weight_sum(weights.drop_last()) + weights.last() as nat
    }
}

/// One table of a plan: it ends before row `end` and is charged `bytes`.
#[derive(Debug, Clone, Copy, PartialEq, Eq, Structural)]
pub struct Chunk {
    pub end: usize,
    pub bytes: u64,
}

/// Tables that are complete, and the first row and charge of the open one.
#[verifier::ext_equal]
pub struct Chunking {
    pub closed: Seq<Chunk>,
    pub start: nat,
    pub bytes: nat,
}

/// One row fits the table target.
pub open spec fn weights_fit(weights: Seq<u64>) -> bool {
    &&& weights.len() <= CHECKPOINT_ROWS_MAX
    &&& forall|i: int|
        0 <= i < weights.len() ==> SST_ARCHIVE_FIXED_BYTES_MAX + #[trigger] weights[i]
            <= SST_TABLE_TARGET_BYTES
}

/// Rows fill the open table until the next one would exceed the target.
pub open spec fn chunking(weights: Seq<u64>) -> Chunking
    decreases weights.len(),
{
    if weights.len() == 0 {
        Chunking { closed: Seq::empty(), start: 0, bytes: SST_ARCHIVE_FIXED_BYTES_MAX as nat }
    } else {
        let before = chunking(weights.drop_last());
        let row = (weights.len() - 1) as nat;
        let additional = weights.last() as nat;
        if before.start < row && before.bytes + additional > SST_TABLE_TARGET_BYTES {
            Chunking {
                closed: before.closed.push(
                    Chunk { end: row as usize, bytes: before.bytes as u64 },
                ),
                start: row,
                bytes: SST_ARCHIVE_FIXED_BYTES_MAX as nat + additional,
            }
        } else {
            Chunking {
                closed: before.closed,
                start: before.start,
                bytes: before.bytes + additional,
            }
        }
    }
}

/// The tables that rows of these worst-case lengths are cut into.
pub open spec fn chunk_plan(weights: Seq<u64>) -> Seq<Chunk> {
    if weights.len() == 0 {
        Seq::empty()
    } else {
        let last = chunking(weights);
        last.closed.push(Chunk { end: weights.len() as usize, bytes: last.bytes as u64 })
    }
}

/// The first row of a planned table.
pub open spec fn chunk_start(plan: Seq<Chunk>, i: int) -> int {
    if i == 0 {
        0
    } else {
        plan[i - 1].end as int
    }
}

/// The rows of a planned table.
pub open spec fn chunk_rows<Row>(rows: Seq<Row>, plan: Seq<Chunk>, i: int) -> Seq<Row> {
    rows.subrange(chunk_start(plan, i), plan[i].end as int)
}

/// A table's rows are some, its charge is exact and inside the target.
pub open spec fn chunk_exact(weights: Seq<u64>, plan: Seq<Chunk>, i: int) -> bool {
    &&& 0 <= chunk_start(plan, i) < plan[i].end <= weights.len()
    &&& plan[i].bytes == SST_ARCHIVE_FIXED_BYTES_MAX + weight_sum(chunk_rows(weights, plan, i))
    &&& plan[i].bytes <= SST_TABLE_TARGET_BYTES
}

/// The tables follow one another without a gap and each is charged exactly.
pub open spec fn chunks_exact(weights: Seq<u64>, plan: Seq<Chunk>) -> bool {
    forall|i: int| 0 <= i < plan.len() ==> #[trigger] chunk_exact(weights, plan, i)
}

/// Rows that lie before a table's end stand in its plan as they do in a longer one.
proof fn lemma_chunk_prefix(
    weights: Seq<u64>,
    longer: Seq<u64>,
    plan: Seq<Chunk>,
    extended: Seq<Chunk>,
    i: int,
)
    requires
        weights.len() <= longer.len(),
        longer.take(weights.len() as int) == weights,
        plan.len() <= extended.len(),
        extended.take(plan.len() as int) == plan,
        0 <= i < plan.len(),
        chunk_exact(weights, plan, i),
    ensures
        chunk_exact(longer, extended, i),
{
    assert(extended[i] == plan[i]);
    if i > 0 {
        assert(extended[i - 1] == plan[i - 1]);
    }
    assert(chunk_rows(longer, extended, i) =~= chunk_rows(weights, plan, i)) by {
        assert forall|k: int|
            chunk_start(plan, i) <= k < plan[i].end implies longer[k] == weights[k] by {
            assert(longer.take(weights.len() as int)[k] == longer[k]);
        }
    }
}

/// What the recursion keeps: closed tables are exact, the open one is charged for its
/// rows and inside the target.
proof fn lemma_chunking(weights: Seq<u64>)
    requires
        weights_fit(weights),
    ensures
        ({
            let state = chunking(weights);
            &&& chunks_exact(weights, state.closed)
            &&& state.start == chunk_start(state.closed, state.closed.len() as int)
            &&& weights.len() > 0 ==> state.start < weights.len()
            &&& weights.len() == 0 ==> state.start == 0
            &&& state.bytes == SST_ARCHIVE_FIXED_BYTES_MAX + weight_sum(
                weights.subrange(state.start as int, weights.len() as int),
            )
            &&& state.bytes <= SST_TABLE_TARGET_BYTES
            &&& state.closed.len() <= weights.len()
        }),
    decreases weights.len(),
{
    if weights.len() == 0 {
        assert(weights.subrange(0, 0) =~= Seq::<u64>::empty());
    } else {
        let rest = weights.drop_last();
        let row = weights.len() - 1;
        assert forall|i: int| 0 <= i < rest.len() implies SST_ARCHIVE_FIXED_BYTES_MAX
            + #[trigger] rest[i] <= SST_TABLE_TARGET_BYTES by {
            assert(rest[i] == weights[i]);
        }
        assert(SST_ARCHIVE_FIXED_BYTES_MAX + weights[row] <= SST_TABLE_TARGET_BYTES);
        lemma_chunking(rest);
        let before = chunking(rest);
        let state = chunking(weights);
        assert(weights.take(rest.len() as int) =~= rest);
        assert(state.closed.take(before.closed.len() as int) =~= before.closed);
        assert forall|i: int| 0 <= i < before.closed.len() implies #[trigger] chunk_exact(
            weights,
            state.closed,
            i,
        ) by {
            assert(chunk_exact(rest, before.closed, i));
            lemma_chunk_prefix(rest, weights, before.closed, state.closed, i);
        }
        if state.start == row && before.start < row {
            let i = before.closed.len() as int;
            assert(state.closed[i].end == row);
            assert(chunk_start(state.closed, i) == before.start) by {
                if i > 0 {
                    assert(state.closed[i - 1] == before.closed[i - 1]);
                }
            }
            assert(chunk_rows(weights, state.closed, i) =~= rest.subrange(
                before.start as int,
                row,
            ));
            assert(chunk_exact(weights, state.closed, i));
            let one = weights.subrange(row, weights.len() as int);
            assert(one.drop_last() =~= Seq::<u64>::empty());
            assert(weight_sum(one) == weights[row]) by {
                assert(one.last() == weights[row]);
                reveal_with_fuel(weight_sum, 2);
            }
        } else {
            assert(state.closed =~= before.closed);
            let open = weights.subrange(state.start as int, weights.len() as int);
            assert(open.drop_last() =~= rest.subrange(state.start as int, row));
            assert(open.last() == weights[row]);
            if before.start == row {
                assert(rest.subrange(row, row) =~= Seq::<u64>::empty());
            }
        }
    }
}

/// The planned tables hold all rows, in order, without a gap or an overlap; each is
/// charged exactly for its rows and stays inside the target.
pub proof fn law_chunks_hold_every_row_once(weights: Seq<u64>)
    requires
        weights_fit(weights),
    ensures
        chunks_exact(weights, chunk_plan(weights)),
        chunk_start(chunk_plan(weights), chunk_plan(weights).len() as int) == weights.len(),
        (chunk_plan(weights).len() == 0) == (weights.len() == 0),
        chunk_plan(weights).len() <= weights.len() + 1,
{
    if weights.len() > 0 {
        lemma_chunking(weights);
        let state = chunking(weights);
        let plan = chunk_plan(weights);
        let last = state.closed.len() as int;
        assert(plan.take(last) =~= state.closed);
        assert(weights.take(weights.len() as int) =~= weights);
        assert forall|i: int| 0 <= i < plan.len() implies #[trigger] chunk_exact(
            weights,
            plan,
            i,
        ) by {
            if i < last {
                assert(chunk_exact(weights, state.closed, i));
                lemma_chunk_prefix(weights, weights, state.closed, plan, i);
            } else {
                if last > 0 {
                    assert(plan[last - 1] == state.closed[last - 1]);
                }
                assert(chunk_start(plan, i) == state.start);
            }
        }
    }
}

/// No table could have taken one row more: the next table's first row would have
/// exceeded the target.
pub proof fn law_chunks_are_filled(weights: Seq<u64>, i: int)
    requires
        weights_fit(weights),
        0 <= i < chunk_plan(weights).len() - 1,
    ensures
        chunk_plan(weights)[i].end < weights.len(),
        chunk_plan(weights)[i].bytes + weights[chunk_plan(weights)[i].end as int]
            > SST_TABLE_TARGET_BYTES,
{
    lemma_closed_filled(weights, i);
    assert(chunk_plan(weights)[i] == chunking(weights).closed[i]);
}

proof fn lemma_closed_filled(weights: Seq<u64>, i: int)
    requires
        weights_fit(weights),
        0 <= i < chunking(weights).closed.len(),
    ensures
        chunking(weights).closed[i].end < weights.len(),
        chunking(weights).closed[i].bytes + weights[chunking(weights).closed[i].end as int]
            > SST_TABLE_TARGET_BYTES,
    decreases weights.len(),
{
    let rest = weights.drop_last();
    let before = chunking(rest);
    assert forall|k: int| 0 <= k < rest.len() implies SST_ARCHIVE_FIXED_BYTES_MAX + #[trigger] rest[k]
        <= SST_TABLE_TARGET_BYTES by {
        assert(rest[k] == weights[k]);
    }
    lemma_chunking(rest);
    if i < before.closed.len() {
        lemma_closed_filled(rest, i);
        assert(chunking(weights).closed[i] == before.closed[i]);
    } else {
        assert(chunking(weights).closed[i].end == rest.len());
        assert(chunking(weights).closed[i].bytes == before.bytes);
    }
}

/// What a plan comes to: how many tables, and their charges together.
#[derive(Debug, Clone, Copy, PartialEq, Eq, Structural)]
pub struct ChunkAccounting {
    pub tables: usize,
    pub bytes: u64,
}

/// The charges of tables together.
pub open spec fn plan_bytes(plan: Seq<Chunk>) -> nat
    decreases plan.len(),
{
    if plan.len() == 0 {
        0
    } else {
        plan_bytes(plan.drop_last()) + plan.last().bytes as nat
    }
}

/// The account of rows of these worst-case lengths.
pub open spec fn accounted(weights: Seq<u64>) -> ChunkAccounting {
    ChunkAccounting {
        tables: chunk_plan(weights).len() as usize,
        bytes: plan_bytes(chunk_plan(weights)) as u64,
    }
}

/// The account is the rows' worst-case lengths and one frame for each table; and where
/// no row is longer than `longest`, all tables but the last are nearly full.
pub proof fn law_account_is_bounded(weights: Seq<u64>, longest: u64)
    requires
        weights_fit(weights),
        forall|i: int| 0 <= i < weights.len() ==> #[trigger] weights[i] <= longest,
        SST_ARCHIVE_FIXED_BYTES_MAX + longest <= SST_TABLE_TARGET_BYTES,
    ensures
        plan_bytes(chunk_plan(weights)) == weight_sum(weights) + chunk_plan(weights).len()
            * SST_ARCHIVE_FIXED_BYTES_MAX,
        chunk_plan(weights).len() > 0 ==> (chunk_plan(weights).len() - 1) * (
        SST_TABLE_TARGET_BYTES - SST_ARCHIVE_FIXED_BYTES_MAX - longest) <= weight_sum(weights),
{
    lemma_account(weights, longest);
    if weights.len() > 0 {
        lemma_chunking(weights);
        let state = chunking(weights);
        let plan = chunk_plan(weights);
        assert(plan.drop_last() =~= state.closed);
        assert((state.closed.len() + 1) * SST_ARCHIVE_FIXED_BYTES_MAX == state.closed.len()
            * SST_ARCHIVE_FIXED_BYTES_MAX + SST_ARCHIVE_FIXED_BYTES_MAX) by (nonlinear_arith);
    }
}

proof fn lemma_account(weights: Seq<u64>, longest: u64)
    requires
        weights_fit(weights),
        forall|i: int| 0 <= i < weights.len() ==> #[trigger] weights[i] <= longest,
        SST_ARCHIVE_FIXED_BYTES_MAX + longest <= SST_TABLE_TARGET_BYTES,
    ensures
        ({
            let state = chunking(weights);
            let closed = state.closed.len() as int;
            &&& plan_bytes(state.closed) + state.bytes == weight_sum(weights) + closed
                * SST_ARCHIVE_FIXED_BYTES_MAX + SST_ARCHIVE_FIXED_BYTES_MAX
            &&& closed * (SST_TABLE_TARGET_BYTES - SST_ARCHIVE_FIXED_BYTES_MAX - longest) + (
            state.bytes - SST_ARCHIVE_FIXED_BYTES_MAX) <= weight_sum(weights)
            &&& state.bytes >= SST_ARCHIVE_FIXED_BYTES_MAX
        }),
    decreases weights.len(),
{
    if weights.len() > 0 {
        let rest = weights.drop_last();
        assert forall|i: int| 0 <= i < rest.len() implies SST_ARCHIVE_FIXED_BYTES_MAX
            + #[trigger] rest[i] <= SST_TABLE_TARGET_BYTES && rest[i] <= longest by {
            assert(rest[i] == weights[i]);
        }
        lemma_account(rest, longest);
        lemma_chunking(rest);
        let before = chunking(rest);
        let state = chunking(weights);
        let closed = before.closed.len() as int;
        let room = SST_TABLE_TARGET_BYTES - SST_ARCHIVE_FIXED_BYTES_MAX - longest;
        assert(weights[weights.len() - 1] <= longest);
        if state.closed.len() > closed {
            assert(state.closed.drop_last() =~= before.closed);
            assert((closed + 1) * room == closed * room + room) by (nonlinear_arith);
            assert((closed + 1) * SST_ARCHIVE_FIXED_BYTES_MAX == closed
                * SST_ARCHIVE_FIXED_BYTES_MAX + SST_ARCHIVE_FIXED_BYTES_MAX) by (nonlinear_arith);
        }
    }
}

/// Cuts rows of these worst-case lengths into tables.
pub fn plan_chunks(weights: &Vec<u64>) -> (plan: Vec<Chunk>)
    requires
        weights_fit(weights@),
    ensures
        plan@ == chunk_plan(weights@),
{
    let mut plan: Vec<Chunk> = Vec::new();
    let mut start: usize = 0;
    let mut bytes: u64 = SST_ARCHIVE_FIXED_BYTES_MAX;
    let mut at: usize = 0;
    assert(plan@ =~= chunking(weights@.take(0)).closed);
    while at < weights.len()
        invariant
            at <= weights.len(),
            weights_fit(weights@),
            plan@ == chunking(weights@.take(at as int)).closed,
            start == chunking(weights@.take(at as int)).start,
            bytes == chunking(weights@.take(at as int)).bytes,
            bytes <= SST_TABLE_TARGET_BYTES,
        decreases weights.len() - at,
    {
        let ghost longer = weights@.take(at + 1);
        assert(longer.drop_last() =~= weights@.take(at as int));
        assert(longer.last() == weights@[at as int]);
        let additional: u64 = weights[at];
        assert(SST_ARCHIVE_FIXED_BYTES_MAX + weights@[at as int] <= SST_TABLE_TARGET_BYTES);
        let extended: u64 = bytes + additional;
        if start < at && extended > SST_TABLE_TARGET_BYTES {
            plan.push(Chunk { end: at, bytes });
            start = at;
            bytes = SST_ARCHIVE_FIXED_BYTES_MAX + additional;
        } else {
            proof {
                assert forall|i: int| 0 <= i < longer.len() implies SST_ARCHIVE_FIXED_BYTES_MAX
                    + #[trigger] longer[i] <= SST_TABLE_TARGET_BYTES by {
                    assert(longer[i] == weights@[i]);
                }
                lemma_chunking(longer);
            }
            bytes = extended;
        }
        at += 1;
    }
    assert(weights@.take(at as int) =~= weights@);
    if weights.len() > 0 {
        plan.push(Chunk { end: weights.len(), bytes });
    }
    plan
}

/// The account of rows of these worst-case lengths.
pub fn account_rows(weights: &Vec<u64>) -> (account: ChunkAccounting)
    requires
        weights_fit(weights@),
    ensures
        account == accounted(weights@),
        account.tables == chunk_plan(weights@).len(),
        account.bytes == plan_bytes(chunk_plan(weights@)),
{
    let plan = plan_chunks(weights);
    let mut bytes: u64 = 0;
    let mut at: usize = 0;
    proof {
        law_chunks_hold_every_row_once(weights@);
    }
    assert(plan@.take(0) =~= Seq::<Chunk>::empty());
    while at < plan.len()
        invariant
            at <= plan.len(),
            plan@.len() <= weights@.len() + 1,
            weights@.len() <= CHECKPOINT_ROWS_MAX,
            chunks_exact(weights@, plan@),
            bytes == plan_bytes(plan@.take(at as int)),
            bytes <= at * 0x400_0000,
        decreases plan.len() - at,
    {
        assert(chunk_exact(weights@, plan@, at as int));
        assert(SST_TABLE_TARGET_BYTES == 0x400_0000);
        assert(plan@.take(at + 1).drop_last() =~= plan@.take(at as int));
        bytes = bytes + plan[at].bytes;
        at += 1;
    }
    assert(plan@.take(at as int) =~= plan@);
    ChunkAccounting { tables: plan.len(), bytes }
}

} // verus!
