//! The distributed exchange layer: parameters of the shuffle and merge
//! stages, the deterministic scatter that partitions a batch across the
//! destination nodes, and the wiring of the merge stage's source readers
//! into a pipeline.

use vstd::prelude::*;
use crate::batch::DataBlock;
use crate::batch::Scalar;
use crate::error::CODE_INTERNAL;
use crate::error::ErrorCodes;
use crate::join::is_gather_of;
use crate::schema::DataSchema;
use crate::schema::clone_schema;

verus! {

/// Options of the wire encoding of an outgoing batch.
#[derive(Clone, Copy, PartialEq, Eq, Structural, Debug)]
pub struct WireOptions {
    pub compress: bool,
}

/// Per-field wire metadata, enough to reconstruct the column types on the
/// receiving side.
#[derive(PartialEq, Eq, Debug)]
pub struct IpcField {
    pub name: String,
}

/// Parameters of the batch serializer of a shuffle stage.
pub struct SerializeParams {
    pub options: WireOptions,
    pub ipc_fields: Vec<IpcField>,
    pub local_executor_pos: usize,
}

/// The scatter that assigns every row of an outgoing batch to a
/// destination, as a closed union of the known partitioning policies.
#[derive(Clone, Copy, PartialEq, Eq, Structural, Debug)]
pub enum FlightScatter {
    /// Every destination receives the whole batch.
    Broadcast { n_destinations: usize },
    /// Each row goes to the destination its key column hashes to.
    Hash { key_column: usize, n_destinations: usize },
}

/// The offset basis of the string hash.
pub const STR_HASH_BASIS: u64 = 0xcbf29ce484222325;

/// The multiplier of the string hash.
pub const STR_HASH_PRIME: u64 = 0x100000001b3;

/// The hash of a string, folded character by character.
pub open spec fn str_hash(s: Seq<char>) -> u64
    decreases s.len(),
{
    if s.len() == 0 {
        STR_HASH_BASIS
    } else {
        (str_hash(s.drop_last()) ^ (s.last() as u64)).wrapping_mul(STR_HASH_PRIME)
    }
}

/// Computes the string hash.
pub fn str_hash_exec(s: &str) -> (r: u64)
    ensures
        r == str_hash(s@),
{
    let n = s.unicode_len();
    let mut h: u64 = STR_HASH_BASIS;
    for i in 0..n
        invariant
            n == s@.len(),
            h == str_hash(s@.subrange(0, i as int)),
    {
        let c = s.get_char(i);
        proof {
            assert(s@.subrange(0, i as int + 1).drop_last() =~= s@.subrange(0, i as int));
            assert(s@.subrange(0, i as int + 1).last() == s@[i as int]);
        }
        h = (h ^ (c as u64)).wrapping_mul(STR_HASH_PRIME);
    }
    proof {
        assert(s@.subrange(0, n as int) =~= s@);
    }
    h
}

/// The scatter key of one cell: a deterministic function of the cell's
/// value alone.
pub open spec fn scalar_scatter_key(s: Scalar) -> u64 {
    match s {
        Scalar::Null => 0,
        Scalar::Boolean(b) => if b {
            1
        } else {
            0
        },
        Scalar::Int64(x) => if x >= 0 {
            x as u64
        } else {
            (x + 0x1_0000_0000_0000_0000) as u64
        },
        Scalar::UInt64(x) => x,
        Scalar::Decimal128(_, _) => 0,
        Scalar::Str(t) => str_hash(t@),
    }
}

/// Computes the scatter key of a cell.
pub fn scalar_scatter_key_exec(s: &Scalar) -> (r: u64)
    ensures
        r == scalar_scatter_key(*s),
{
    match s {
        Scalar::Null => 0,
        Scalar::Boolean(b) => if *b {
            1
        } else {
            0
        },
        Scalar::Int64(x) => if *x >= 0 {
            *x as u64
        } else {
            ((*x as i128) + 0x1_0000_0000_0000_0000i128) as u64
        },
        Scalar::UInt64(x) => *x,
        Scalar::Decimal128(_, _) => 0,
        Scalar::Str(t) => str_hash_exec(t.as_str()),
    }
}

/// The destination index of row `i` under a hash scatter.
pub open spec fn hash_dest_of(block: DataBlock, key_column: int, n_destinations: int, i: int) -> int {
    scalar_scatter_key(block.cell(key_column, i)) as int % n_destinations
}

/// The rows of the first `upto` rows that a hash scatter assigns to
/// destination `d`, in row order.
pub open spec fn hash_dest_rows(
    block: DataBlock,
    key_column: int,
    n_destinations: int,
    upto: int,
    d: int,
) -> Seq<int>
    decreases upto,
{
    if upto <= 0 {
        Seq::empty()
    } else {
        let rest = hash_dest_rows(block, key_column, n_destinations, upto - 1, d);
        if hash_dest_of(block, key_column, n_destinations, upto - 1) == d {
            rest.push(upto - 1)
        } else {
            rest
        }
    }
}

/// Every row is assigned to exactly one destination: it appears in the row
/// list of its own destination and of no other.
pub proof fn lemma_hash_dest_rows_member(
    block: DataBlock,
    key_column: int,
    n_destinations: int,
    upto: int,
    d: int,
    i: int,
)
    ensures
        hash_dest_rows(block, key_column, n_destinations, upto, d).contains(i) == (0 <= i < upto
            && hash_dest_of(block, key_column, n_destinations, i) == d),
    decreases upto,
{
    if upto > 0 {
        lemma_hash_dest_rows_member(block, key_column, n_destinations, upto - 1, d, i);
        let rest = hash_dest_rows(block, key_column, n_destinations, upto - 1, d);
        if hash_dest_of(block, key_column, n_destinations, upto - 1) == d {
            if i == upto - 1 {
                assert(rest.push(upto - 1)[rest.len() as int] == upto - 1);
            } else {
                assert(rest.push(upto - 1).contains(i) == rest.contains(i)) by {
                    if rest.push(upto - 1).contains(i) {
                        let j = choose|j: int|
                            0 <= j < rest.push(upto - 1).len() && (#[trigger] rest.push(
                                upto - 1,
                            )[j]) == i;
                        assert(j < rest.len());
                        assert(rest[j] == i);
                    }
                    if rest.contains(i) {
                        let j = choose|j: int| 0 <= j < rest.len() && (#[trigger] rest[j]) == i;
                        assert(rest.push(upto - 1)[j] == i);
                    }
                }
            }
        }
    }
}

impl FlightScatter {
    /// The number of destinations the scatter was configured with.
    pub open spec fn spec_n_destinations(&self) -> int {
        match *self {
            FlightScatter::Broadcast { n_destinations } => n_destinations as int,
            FlightScatter::Hash { key_column, n_destinations } => n_destinations as int,
        }
    }

    /// The scatter's configuration is usable against a batch.
    pub open spec fn wf_for(&self, block: DataBlock) -> bool {
        match *self {
            FlightScatter::Broadcast { n_destinations } => n_destinations >= 1,
            FlightScatter::Hash { key_column, n_destinations } => n_destinations >= 1 && key_column
                < block.entries@.len(),
        }
    }

    /// Partitions one batch over the destinations. The assignment is a
    /// function of the batch and the configuration alone, so the same batch
    /// under the same configuration always scatters the same way: under a
    /// hash scatter, destination `d` receives exactly the rows whose key
    /// column hashes to `d`, in row order; under a broadcast, every
    /// destination receives every row.
    #[verifier::rlimit(60)]
    pub fn execute(&self, block: &DataBlock) -> (r: Result<Vec<DataBlock>, ErrorCodes>)
        requires
            block.wf(),
            block.num_rows <= u32::MAX,
            self.wf_for(*block),
        ensures
            r.is_ok(),
            r matches Ok(parts) ==> {
                &&& parts@.len() == self.spec_n_destinations()
                &&& *self matches FlightScatter::Hash { key_column, n_destinations } ==> forall|
                    d: int,
                |
                    0 <= d < n_destinations ==> is_gather_of(
                        #[trigger] parts@[d],
                        *block,
                        hash_dest_rows(
                            *block,
                            key_column as int,
                            n_destinations as int,
                            block.num_rows as int,
                            d,
                        ),
                    )
                &&& *self matches FlightScatter::Broadcast { n_destinations } ==> forall|d: int|
                    0 <= d < n_destinations ==> is_gather_of(
                        #[trigger] parts@[d],
                        *block,
                        Seq::new(block.num_rows as nat, |i: int| i),
                    )
            },
    {
        let n_rows = block.num_rows();
        match self {
            FlightScatter::Broadcast { n_destinations } => {
                let mut identity: Vec<u32> = Vec::new();
                for i in 0..n_rows
                    invariant
                        n_rows == block.num_rows,
                        n_rows <= u32::MAX,
                        identity@.len() == i,
                        forall|j: int| 0 <= j < i ==> #[trigger] identity@[j] == j,
                {
                    identity.push(i as u32);
                }
                let mut parts: Vec<DataBlock> = Vec::new();
                let nd = *n_destinations;
                for d in 0..nd
                    invariant
                        n_rows == block.num_rows,
                        block.wf(),
                        identity@.len() == n_rows,
                        forall|j: int| 0 <= j < n_rows ==> #[trigger] identity@[j] == j,
                        parts@.len() == d,
                        forall|dd: int|
                            0 <= dd < d ==> is_gather_of(
                                #[trigger] parts@[dd],
                                *block,
                                Seq::new(block.num_rows as nat, |i: int| i),
                            ),
                {
                    let copy = block.take(&identity);
                    proof {
                        let ident = Seq::new(block.num_rows as nat, |i: int| i);
                        assert forall|c: int, j: int|
                            0 <= c < block.entries@.len() && 0 <= j < ident.len() implies copy.cell(
                            c,
                            j,
                        ) == block.cell(c, ident[j]) by {
                            assert(identity@[j] as int == ident[j]);
                        }
                    }
                    parts.push(copy);
                }
                Ok(parts)
            },
            FlightScatter::Hash { key_column, n_destinations } => {
                let nd = *n_destinations;
                let kc = *key_column;
                let mut index_lists: Vec<Vec<u32>> = Vec::new();
                for d in 0..nd
                    invariant
                        index_lists@.len() == d,
                        forall|dd: int| 0 <= dd < d ==> (#[trigger] index_lists@[dd])@.len() == 0,
                {
                    index_lists.push(Vec::new());
                }
                proof {
                    assert forall|dd: int| 0 <= dd < nd implies (#[trigger] index_lists@[dd])@
                        =~= hash_dest_rows(*block, kc as int, nd as int, 0, dd).map_values(
                        |x: int| x as u32,
                    ) by {
                        assert(hash_dest_rows(*block, kc as int, nd as int, 0, dd)
                            =~= Seq::<int>::empty());
                    }
                }
                for i in 0..n_rows
                    invariant
                        n_rows == block.num_rows,
                        n_rows <= u32::MAX,
                        block.wf(),
                        kc < block.entries@.len(),
                        nd >= 1,
                        index_lists@.len() == nd,
                        forall|dd: int|
                            0 <= dd < nd ==> (#[trigger] index_lists@[dd])@ == hash_dest_rows(
                                *block,
                                kc as int,
                                nd as int,
                                i as int,
                                dd,
                            ).map_values(|x: int| x as u32),
                        forall|dd: int, j: int|
                            0 <= dd < nd && 0 <= j < index_lists@[dd]@.len()
                                ==> #[trigger] (index_lists@[dd])@[j] < i,
                {
                    let cell = block.get_cell(kc, i);
                    let key = scalar_scatter_key_exec(&cell);
                    let d = (key % (nd as u64)) as usize;
                    proof {
                        assert(d as int == hash_dest_of(*block, kc as int, nd as int, i as int));
                    }
                    let ghost pre = index_lists@;
                    index_lists[d].push(i as u32);
                    proof {
                        assert forall|dd: int| 0 <= dd < nd implies (#[trigger] index_lists@[dd])@
                            == hash_dest_rows(*block, kc as int, nd as int, i as int + 1, dd).map_values(
                            |x: int| x as u32,
                        ) by {
                            let old_rows = hash_dest_rows(*block, kc as int, nd as int, i as int, dd);
                            let new_rows = hash_dest_rows(
                                *block,
                                kc as int,
                                nd as int,
                                i as int + 1,
                                dd,
                            );
                            if dd == d {
                                assert(new_rows == old_rows.push(i as int));
                                assert((index_lists@[dd])@ =~= pre[dd]@.push(i as u32));
                                assert(old_rows.push(i as int).map_values(|x: int| x as u32)
                                    =~= old_rows.map_values(|x: int| x as u32).push(i as u32));
                            } else {
                                assert(new_rows == old_rows);
                                assert(index_lists@[dd] == pre[dd]);
                            }
                        }
                    }
                }
                proof {
                    assert forall|dd: int, j: int|
                        0 <= dd < nd && 0 <= j < index_lists@[dd]@.len()
                        implies #[trigger] (index_lists@[dd])@[j] as int == hash_dest_rows(
                        *block,
                        kc as int,
                        nd as int,
                        n_rows as int,
                        dd,
                    )[j] by {
                        let rows = hash_dest_rows(*block, kc as int, nd as int, n_rows as int, dd);
                        assert((index_lists@[dd])@ == rows.map_values(|x: int| x as u32));
                        assert(rows.map_values(|x: int| x as u32)[j] == rows[j] as u32);
                        assert(0 <= rows[j] < n_rows) by {
                            lemma_hash_dest_rows_member(
                                *block,
                                kc as int,
                                nd as int,
                                n_rows as int,
                                dd,
                                rows[j],
                            );
                            assert(rows.contains(rows[j]));
                        }
                    }
                    assert forall|dd: int| 0 <= dd < nd implies (#[trigger] index_lists@[dd])@.len()
                        == hash_dest_rows(*block, kc as int, nd as int, n_rows as int, dd).len() by {
                        assert((index_lists@[dd])@ == hash_dest_rows(
                            *block,
                            kc as int,
                            nd as int,
                            n_rows as int,
                            dd,
                        ).map_values(|x: int| x as u32));
                    }
                }
                let mut parts: Vec<DataBlock> = Vec::new();
                for d in 0..nd
                    invariant
                        n_rows == block.num_rows,
                        block.wf(),
                        kc < block.entries@.len(),
                        nd >= 1,
                        index_lists@.len() == nd,
                        forall|dd: int|
                            0 <= dd < nd ==> (#[trigger] index_lists@[dd])@.len() == hash_dest_rows(
                                *block,
                                kc as int,
                                nd as int,
                                n_rows as int,
                                dd,
                            ).len(),
                        forall|dd: int, j: int|
                            0 <= dd < nd && 0 <= j < index_lists@[dd]@.len()
                                ==> #[trigger] (index_lists@[dd])@[j] as int == hash_dest_rows(
                                *block,
                                kc as int,
                                nd as int,
                                n_rows as int,
                                dd,
                            )[j],
                        forall|dd: int, j: int|
                            0 <= dd < nd && 0 <= j < index_lists@[dd]@.len()
                                ==> #[trigger] (index_lists@[dd])@[j] < n_rows,
                        parts@.len() == d,
                        forall|dd: int|
                            0 <= dd < d ==> is_gather_of(
                                #[trigger] parts@[dd],
                                *block,
                                hash_dest_rows(*block, kc as int, nd as int, n_rows as int, dd),
                            ),
                {
                    let part = block.take(&index_lists[d]);
                    proof {
                        let rows = hash_dest_rows(*block, kc as int, nd as int, n_rows as int, d as int);
                        assert((index_lists@[d as int])@.len() == rows.len());
                        assert forall|c: int, j: int|
                            0 <= c < block.entries@.len() && 0 <= j < rows.len() implies part.cell(
                            c,
                            j,
                        ) == block.cell(c, rows[j]) by {
                            assert((index_lists@[d as int])@[j] as int == rows[j]);
                        }
                    }
                    parts.push(part);
                }
                Ok(parts)
            },
        }
    }
}

/// Parameters of a shuffle stage: this node partitions its outgoing batches
/// over the destination nodes.
pub struct ShuffleExchangeParams {
    pub query_id: String,
    pub executor_id: String,
    pub fragment_id: usize,
    pub schema: DataSchema,
    pub destination_ids: Vec<String>,
    pub shuffle_scatter: FlightScatter,
}

/// Parameters of a merge stage: this node combines the outputs of the
/// upstream fragments running on other nodes.
pub struct MergeExchangeParams {
    pub query_id: String,
    pub fragment_id: usize,
    pub destination_id: String,
    pub schema: DataSchema,
    pub ignore_exchange: bool,
    pub allow_adjust_parallelism: bool,
}

/// Parameters of either exchange stage.
pub enum ExchangeParams {
    MergeExchange(MergeExchangeParams),
    ShuffleExchange(ShuffleExchangeParams),
}

impl ExchangeParams {
    /// The schema of the exchanged batches.
    pub fn get_schema(&self) -> (r: DataSchema)
        ensures
            r.fields@ == match self {
                ExchangeParams::ShuffleExchange(exchange) => exchange.schema.fields@,
                ExchangeParams::MergeExchange(exchange) => exchange.schema.fields@,
            },
    {
        match self {
            ExchangeParams::ShuffleExchange(exchange) => clone_schema(&exchange.schema),
            ExchangeParams::MergeExchange(exchange) => clone_schema(&exchange.schema),
        }
    }

    /// The query the exchange belongs to.
    pub fn get_query_id(&self) -> (r: String)
        ensures
            r@ == match self {
                ExchangeParams::ShuffleExchange(exchange) => exchange.query_id@,
                ExchangeParams::MergeExchange(exchange) => exchange.query_id@,
            },
    {
        match self {
            ExchangeParams::ShuffleExchange(exchange) => exchange.query_id.clone(),
            ExchangeParams::MergeExchange(exchange) => exchange.query_id.clone(),
        }
    }
}

} // verus!
