//! The build-side hash table of the join: buckets of (key, row pointer)
//! chains. Built once before probing starts; read-only while probing runs.

use vstd::prelude::*;

verus! {

/// A stable locator of one build-side row: the build batch it sits in and
/// its row number there.
#[derive(Clone, Copy, PartialEq, Eq, Structural, Debug)]
pub struct RowPtr {
    pub chunk_index: u32,
    pub row_index: u32,
}

/// The row pointers of the chain entries carrying key `k`, in chain order.
pub open spec fn chain_matches(chain: Seq<(u64, RowPtr)>, k: u64) -> Seq<RowPtr>
    decreases chain.len(),
{
    if chain.len() == 0 {
        Seq::empty()
    } else {
        let rest = chain_matches(chain.drop_last(), k);
        if chain.last().0 == k {
            rest.push(chain.last().1)
        } else {
            rest
        }
    }
}

/// Appending one entry extends the matches of its key by its pointer and
/// leaves every other key's matches unchanged.
pub proof fn lemma_chain_matches_push(chain: Seq<(u64, RowPtr)>, e: (u64, RowPtr), k: u64)
    ensures
        e.0 == k ==> chain_matches(chain.push(e), k) == chain_matches(chain, k).push(e.1),
        e.0 != k ==> chain_matches(chain.push(e), k) == chain_matches(chain, k),
{
    assert(chain.push(e).drop_last() =~= chain);
    assert(chain.push(e).last() == e);
}

/// Every match of `k` is the pointer of some chain entry carrying `k`.
pub proof fn lemma_chain_matches_member(chain: Seq<(u64, RowPtr)>, k: u64, j: int)
    requires
        0 <= j < chain_matches(chain, k).len(),
    ensures
        exists|i: int|
            0 <= i < chain.len() && chain[i].0 == k && chain[i].1 == chain_matches(chain, k)[j],
    decreases chain.len(),
{
    if chain.len() > 0 {
        let rest = chain_matches(chain.drop_last(), k);
        if chain.last().0 == k && j == rest.len() {
            assert(chain[chain.len() - 1].0 == k);
        } else {
            lemma_chain_matches_member(chain.drop_last(), k, j);
            let i = choose|i: int|
                0 <= i < chain.drop_last().len() && chain.drop_last()[i].0 == k
                    && chain.drop_last()[i].1 == rest[j];
            assert(chain[i] == chain.drop_last()[i]);
        }
    }
}

/// The build-side hash table: an array of buckets, each a chain of
/// (key, row pointer) entries. A key's entries all sit in the bucket the key
/// hashes to, so one chain walk finds every match.
pub struct HashJoinTable {
    pub buckets: Vec<Vec<(u64, RowPtr)>>,
}

impl HashJoinTable {
    /// The bucket a key hashes to.
    pub open spec fn spec_bucket_of(&self, k: u64) -> int {
        k as int % (self.buckets@.len() as int)
    }

    /// At least one bucket, and every entry sits in its key's bucket.
    pub open spec fn wf(&self) -> bool {
        &&& self.buckets@.len() >= 1
        &&& forall|b: int, i: int|
            0 <= b < self.buckets@.len() && 0 <= i < self.buckets@[b]@.len()
                ==> self.spec_bucket_of(#[trigger] self.buckets@[b]@[i].0) == b
    }

    /// Every row pointer stored in the table points into one of `n_chunks`
    /// build batches, with a row number under that batch's row count.
    pub open spec fn in_bounds(&self, chunk_rows: Seq<nat>) -> bool {
        forall|b: int, i: int|
            0 <= b < self.buckets@.len() && 0 <= i < self.buckets@[b]@.len() ==> {
                let p = (#[trigger] self.buckets@[b]@[i]).1;
                p.chunk_index < chunk_rows.len() && p.row_index < chunk_rows[p.chunk_index as int]
            }
    }

    /// The row pointers of the build rows whose key equals `k`, in insertion
    /// order.
    pub open spec fn matches_of(&self, k: u64) -> Seq<RowPtr> {
        chain_matches(self.buckets@[self.spec_bucket_of(k)]@, k)
    }

    /// Whether some build row carries key `k`.
    pub open spec fn spec_contains_key(&self, k: u64) -> bool {
        self.matches_of(k).len() > 0
    }

    /// An empty table with `n_buckets` buckets.
    pub fn new(n_buckets: usize) -> (r: HashJoinTable)
        requires
            n_buckets >= 1,
        ensures
            r.wf(),
            r.buckets@.len() == n_buckets,
            forall|k: u64| #[trigger] r.matches_of(k) == Seq::<RowPtr>::empty(),
            forall|b: int| 0 <= b < n_buckets ==> (#[trigger] r.buckets@[b])@.len() == 0,
    {
        let mut buckets: Vec<Vec<(u64, RowPtr)>> = Vec::new();
        for b in 0..n_buckets
            invariant
                buckets@.len() == b,
                forall|i: int| 0 <= i < b ==> buckets@[i]@.len() == 0,
        {
            buckets.push(Vec::new());
        }
        let r = HashJoinTable { buckets };
        proof {
            assert forall|k: u64| #[trigger] r.matches_of(k) == Seq::<RowPtr>::empty() by {
                assert(r.buckets@[r.spec_bucket_of(k)]@.len() == 0);
            }
        }
        r
    }

    /// Adds one build row under its key. The key's chain grows by the new
    /// pointer; every other key's matches stay as they were.
    pub fn insert(&mut self, key: u64, ptr: RowPtr)
        requires
            old(self).wf(),
        ensures
            final(self).wf(),
            final(self).buckets@.len() == old(self).buckets@.len(),
            final(self).matches_of(key) == old(self).matches_of(key).push(ptr),
            forall|k: u64|
                k != key ==> #[trigger] final(self).matches_of(k) == old(self).matches_of(k),
            forall|rows: Seq<nat>|
                old(self).in_bounds(rows) && ptr.chunk_index < rows.len() && ptr.row_index < rows[ptr.chunk_index as int]
                    ==> #[trigger] final(self).in_bounds(rows),
    {
        let nb = self.buckets.len();
        let b = (key % (nb as u64)) as usize;
        proof {
            assert(b == self.spec_bucket_of(key));
        }
        let bucket = &mut self.buckets[b];
        bucket.push((key, ptr));
        proof {
            let bi = b as int;
            let oldb = old(self).buckets@[bi]@;
            assert(self.buckets@[bi]@ =~= oldb.push((key, ptr)));
            assert forall|bb: int, i: int|
                0 <= bb < self.buckets@.len() && 0 <= i < self.buckets@[bb]@.len() implies self.spec_bucket_of(
                #[trigger] self.buckets@[bb]@[i].0,
            ) == bb by {
                if bb != bi || i < oldb.len() {
                    assert(self.buckets@[bb]@[i] == old(self).buckets@[bb]@[i]);
                }
            }
            lemma_chain_matches_push(oldb, (key, ptr), key);
            assert forall|rows: Seq<nat>|
                old(self).in_bounds(rows) && ptr.chunk_index < rows.len() && ptr.row_index
                    < rows[ptr.chunk_index as int] implies #[trigger] self.in_bounds(rows) by {
                assert forall|bb: int, i: int|
                    0 <= bb < self.buckets@.len() && 0 <= i < self.buckets@[bb]@.len() implies {
                    let p = (#[trigger] self.buckets@[bb]@[i]).1;
                    p.chunk_index < rows.len() && p.row_index < rows[p.chunk_index as int]
                } by {
                    if bb != bi || i < oldb.len() {
                        assert(self.buckets@[bb]@[i] == old(self).buckets@[bb]@[i]);
                    }
                }
            }
            assert forall|k: u64| k != key implies #[trigger] self.matches_of(k) == old(
                self,
            ).matches_of(k) by {
                if self.spec_bucket_of(k) == bi {
                    lemma_chain_matches_push(oldb, (key, ptr), k);
                } else {
                    assert(self.buckets@[self.spec_bucket_of(k)]@ == old(self).buckets@[old(
                        self,
                    ).spec_bucket_of(k)]@);
                }
            }
        }
    }

    /// Walks the key's chain and returns the pointers of all build rows with
    /// an equal key, in chain order.
    pub fn probe_all(&self, key: u64) -> (r: Vec<RowPtr>)
        requires
            self.wf(),
        ensures
            r@ == self.matches_of(key),
    {
        let nb = self.buckets.len();
        let b = (key % (nb as u64)) as usize;
        proof {
            assert(b == self.spec_bucket_of(key));
        }
        let bucket = &self.buckets[b];
        let n = bucket.len();
        let mut out: Vec<RowPtr> = Vec::new();
        for i in 0..n
            invariant
                n == bucket@.len(),
                out@ == chain_matches(bucket@.subrange(0, i as int), key),
        {
            proof {
                assert(bucket@.subrange(0, i as int + 1) =~= bucket@.subrange(0, i as int).push(
                    bucket@[i as int],
                ));
                lemma_chain_matches_push(bucket@.subrange(0, i as int), bucket@[i as int], key);
            }
            if bucket[i].0 == key {
                out.push(bucket[i].1);
            }
        }
        proof {
            assert(bucket@.subrange(0, n as int) =~= bucket@);
        }
        out
    }

    /// Whether any build row carries an equal key: one chain walk, as the
    /// anti and semi joins use it.
    pub fn probe_contains(&self, key: u64) -> (r: bool)
        requires
            self.wf(),
        ensures
            r == self.spec_contains_key(key),
    {
        let matches = self.probe_all(key);
        matches.len() > 0
    }

    /// Matches of any key point into the build batches the table was built
    /// over.
    pub proof fn lemma_matches_in_bounds(&self, chunk_rows: Seq<nat>, k: u64, j: int)
        requires
            self.wf(),
            self.in_bounds(chunk_rows),
            0 <= j < self.matches_of(k).len(),
        ensures
            self.matches_of(k)[j].chunk_index < chunk_rows.len(),
            self.matches_of(k)[j].row_index < chunk_rows[self.matches_of(k)[j].chunk_index as int],
    {
        let chain = self.buckets@[self.spec_bucket_of(k)]@;
        lemma_chain_matches_member(chain, k, j);
    }
}

/// Builds the table from the per-batch key columns of the build side:
/// row `i` of batch `c` is inserted under `chunk_keys[c][i]`.
pub fn build_table(chunk_keys: &Vec<Vec<u64>>, n_buckets: usize) -> (r: HashJoinTable)
    requires
        n_buckets >= 1,
        forall|c: int| 0 <= c < chunk_keys@.len() ==> chunk_keys@[c]@.len() <= u32::MAX,
        chunk_keys@.len() <= u32::MAX,
    ensures
        r.wf(),
        forall|c: int, i: int|
            0 <= c < chunk_keys@.len() && 0 <= i < chunk_keys@[c]@.len() ==> r.matches_of(
                #[trigger] chunk_keys@[c]@[i],
            ).contains(RowPtr { chunk_index: c as u32, row_index: i as u32 }),
        forall|k: u64, j: int|
            0 <= j < r.matches_of(k).len() ==> {
                let p = #[trigger] r.matches_of(k)[j];
                &&& p.chunk_index < chunk_keys@.len()
                &&& p.row_index < chunk_keys@[p.chunk_index as int]@.len()
                &&& chunk_keys@[p.chunk_index as int]@[p.row_index as int] == k
            },
        forall|k: u64, j1: int, j2: int|
            0 <= j1 < j2 < r.matches_of(k).len() ==> #[trigger] r.matches_of(k)[j1]
                != #[trigger] r.matches_of(k)[j2],
        r.in_bounds(chunk_keys@.map_values(|ks: Vec<u64>| ks@.len())),
{
    let ghost bounds = chunk_keys@.map_values(|ks: Vec<u64>| ks@.len());
    let mut table = HashJoinTable::new(n_buckets);
    proof {
        assert(table.in_bounds(bounds)) by {
            assert(forall|b: int|
                0 <= b < table.buckets@.len() ==> (#[trigger] table.buckets@[b])@.len() == 0);
        }
    }
    let nc = chunk_keys.len();
    for c in 0..nc
        invariant
            nc == chunk_keys@.len(),
            nc <= u32::MAX,
            forall|cc: int| 0 <= cc < nc ==> chunk_keys@[cc]@.len() <= u32::MAX,
            table.wf(),
            forall|cc: int, i: int|
                0 <= cc < c && 0 <= i < chunk_keys@[cc]@.len() ==> table.matches_of(
                    #[trigger] chunk_keys@[cc]@[i],
                ).contains(RowPtr { chunk_index: cc as u32, row_index: i as u32 }),
            forall|k: u64, j: int|
                0 <= j < table.matches_of(k).len() ==> {
                    let p = #[trigger] table.matches_of(k)[j];
                    &&& p.chunk_index < c
                    &&& p.row_index < chunk_keys@[p.chunk_index as int]@.len()
                    &&& chunk_keys@[p.chunk_index as int]@[p.row_index as int] == k
                },
            forall|k: u64, j1: int, j2: int|
                0 <= j1 < j2 < table.matches_of(k).len() ==> #[trigger] table.matches_of(k)[j1]
                    != #[trigger] table.matches_of(k)[j2],
            bounds == chunk_keys@.map_values(|ks: Vec<u64>| ks@.len()),
            table.in_bounds(bounds),
    {
        let keys = &chunk_keys[c];
        let nr = keys.len();
        for i in 0..nr
            invariant
                nc == chunk_keys@.len(),
                nc <= u32::MAX,
                forall|cc: int| 0 <= cc < nc ==> chunk_keys@[cc]@.len() <= u32::MAX,
                c < nc,
                nr == chunk_keys@[c as int]@.len(),
                keys@ == chunk_keys@[c as int]@,
                table.wf(),
                forall|cc: int, ii: int|
                    0 <= cc < c && 0 <= ii < chunk_keys@[cc]@.len() ==> table.matches_of(
                        #[trigger] chunk_keys@[cc]@[ii],
                    ).contains(RowPtr { chunk_index: cc as u32, row_index: ii as u32 }),
                forall|ii: int|
                    0 <= ii < i ==> table.matches_of(#[trigger] keys@[ii]).contains(
                        RowPtr { chunk_index: c as u32, row_index: ii as u32 },
                    ),
                forall|k: u64, j: int|
                    0 <= j < table.matches_of(k).len() ==> {
                        let p = #[trigger] table.matches_of(k)[j];
                        &&& (p.chunk_index < c || (p.chunk_index == c && p.row_index < i))
                        &&& p.row_index < chunk_keys@[p.chunk_index as int]@.len()
                        &&& chunk_keys@[p.chunk_index as int]@[p.row_index as int] == k
                    },
                forall|k: u64, j1: int, j2: int|
                    0 <= j1 < j2 < table.matches_of(k).len() ==> #[trigger] table.matches_of(
                        k,
                    )[j1] != #[trigger] table.matches_of(k)[j2],
                bounds == chunk_keys@.map_values(|ks: Vec<u64>| ks@.len()),
                table.in_bounds(bounds),
        {
            let ghost pre = table;
            table.insert(keys[i], RowPtr { chunk_index: c as u32, row_index: i as u32 });
            proof {
                let key = keys@[i as int];
                let newp = RowPtr { chunk_index: c as u32, row_index: i as u32 };
                assert(table.matches_of(key) == pre.matches_of(key).push(newp));
                assert(table.matches_of(key)[table.matches_of(key).len() - 1] == newp);
                assert(table.matches_of(key).contains(newp));
                assert forall|k: u64, j: int| 0 <= j < table.matches_of(k).len() implies {
                    let p = #[trigger] table.matches_of(k)[j];
                    &&& (p.chunk_index < c || (p.chunk_index == c && p.row_index < i + 1))
                    &&& p.row_index < chunk_keys@[p.chunk_index as int]@.len()
                    &&& chunk_keys@[p.chunk_index as int]@[p.row_index as int] == k
                } by {
                    if k == key && j == table.matches_of(k).len() - 1 {
                    } else {
                        assert(table.matches_of(k)[j] == pre.matches_of(k)[j]);
                    }
                }
                assert forall|k: u64, j1: int, j2: int|
                    0 <= j1 < j2 < table.matches_of(k).len() implies #[trigger] table.matches_of(
                    k,
                )[j1] != #[trigger] table.matches_of(k)[j2] by {
                    if k == key && j2 == table.matches_of(k).len() - 1 {
                        // Every earlier pointer sits strictly before the new
                        // row in insertion order, so the new pointer is fresh.
                        assert(table.matches_of(k)[j1] == pre.matches_of(k)[j1]);
                        let p1 = pre.matches_of(k)[j1];
                        assert(p1.chunk_index < c || (p1.chunk_index == c && p1.row_index < i));
                        assert(table.matches_of(k)[j2] == newp);
                    } else if k == key {
                        assert(table.matches_of(k)[j1] == pre.matches_of(k)[j1]);
                        assert(table.matches_of(k)[j2] == pre.matches_of(k)[j2]);
                    } else {
                        assert(table.matches_of(k) == pre.matches_of(k));
                    }
                }
                assert forall|cc: int, ii: int|
                    0 <= cc < c && 0 <= ii < chunk_keys@[cc]@.len() implies table.matches_of(
                    #[trigger] chunk_keys@[cc]@[ii],
                ).contains(RowPtr { chunk_index: cc as u32, row_index: ii as u32 }) by {
                    let k2 = chunk_keys@[cc]@[ii];
                    let p2 = RowPtr { chunk_index: cc as u32, row_index: ii as u32 };
                    assert(pre.matches_of(k2).contains(p2));
                    let jj = choose|jj: int|
                        0 <= jj < pre.matches_of(k2).len() && pre.matches_of(k2)[jj] == p2;
                    if k2 == key {
                        assert(table.matches_of(k2)[jj] == p2);
                    } else {
                        assert(table.matches_of(k2) == pre.matches_of(k2));
                    }
                    assert(table.matches_of(k2).contains(p2));
                }
                assert forall|ii: int| 0 <= ii < i + 1 implies table.matches_of(
                    #[trigger] keys@[ii],
                ).contains(RowPtr { chunk_index: c as u32, row_index: ii as u32 }) by {
                    let k2 = keys@[ii];
                    let p2 = RowPtr { chunk_index: c as u32, row_index: ii as u32 };
                    if ii < i {
                        assert(pre.matches_of(k2).contains(p2));
                        let jj = choose|jj: int|
                            0 <= jj < pre.matches_of(k2).len() && pre.matches_of(k2)[jj] == p2;
                        if k2 == key {
                            assert(table.matches_of(k2)[jj] == p2);
                        } else {
                            assert(table.matches_of(k2) == pre.matches_of(k2));
                        }
                    } else {
                        assert(table.matches_of(key).contains(newp));
                    }
                }
            }
        }
    }
    table
}

} // verus!
