//! The process table: the latest filtered snapshot and its display order.
use vstd::prelude::*;
use crate::process::{ProcessRecord, ProcessView, views, ingested, ingest};
use crate::ranking::{SortKey, stable_sort, identity, in_bounds, sort_positions, lemma_stable_sort_permutes};

verus! {

/// Whether a column is first ordered descending when it is chosen.
pub open spec fn default_descending(key: SortKey) -> bool {
    key == SortKey::Cpu || key == SortKey::Memory
}

/// The order a re-rank starts from: the current one while the snapshot keeps its
/// size, else the positions in snapshot order.
pub open spec fn rank_base(rank: Seq<usize>, n: nat) -> Seq<usize> {
    if rank.len() == n {
        rank
    } else {
        identity(n)
    }
}

/// The mathematical value of a `ProcessTable`.
pub struct TableView {
    pub records: Seq<ProcessView>,
    pub rank: Seq<usize>,
    pub key: SortKey,
    pub descending: bool,
    pub filter: Seq<char>,
}

/// The latest snapshot of processes, its rank index, and the user's sort and
/// filter settings.
pub struct ProcessTable {
    records: Vec<ProcessRecord>,
    rank: Vec<usize>,
    key: SortKey,
    descending: bool,
    filter: String,
}

impl View for ProcessTable {
    type V = TableView;

    closed spec fn view(&self) -> TableView {
        TableView {
            records: views(self.records@),
            rank: self.rank@,
            key: self.key,
            descending: self.descending,
            filter: self.filter@,
        }
    }
}

/// The positions `0..n` in order.
pub fn identity_positions(n: usize) -> (r: Vec<usize>)
    ensures
        r@ == identity(n as nat),
{
    let mut r: Vec<usize> = Vec::new();
    let mut i: usize = 0;
    while i < n
        invariant
            i <= n,
            r@ == identity(i as nat),
        decreases n - i,
    {
        r.push(i);
        i = i + 1;
        assert(r@ =~= identity(i as nat));
    }
    r
}

impl ProcessTable {
    /// The rank index holds every position of the snapshot exactly once.
    pub closed spec fn wf(&self) -> bool {
        &&& self.rank@.len() == self.records@.len()
        &&& in_bounds(self.rank@, self.records@.len())
        &&& self.rank@.to_multiset() == identity(self.records@.len()).to_multiset()
    }

    /// An empty table ordered by name, ascending, with no filter.
    pub fn new() -> (t: ProcessTable)
        ensures
            t.wf(),
            t@.records.len() == 0,
            t@.rank.len() == 0,
            t@.key == SortKey::Name,
            !t@.descending,
            t@.filter.len() == 0,
    {
        let t = ProcessTable {
            records: Vec::new(),
            rank: Vec::new(),
            key: SortKey::Name,
            descending: false,
            filter: String::new(),
        };
        assert(t.rank@ =~= identity(0));
        t
    }

    /// A well-formed table's rank index is a permutation of its positions.
    pub proof fn lemma_rank_permutation(&self)
        requires
            self.wf(),
        ensures
            self@.rank.len() == self@.records.len(),
            in_bounds(self@.rank, self@.records.len()),
            self@.rank.to_multiset() == identity(self@.records.len()).to_multiset(),
    {
    }

    /// Re-sorts the rank index, starting from `base`, by the current key and direction.
    fn rank_from(&mut self, base: Vec<usize>)
        requires
            base@.len() == old(self).records@.len(),
            in_bounds(base@, old(self).records@.len()),
            base@.to_multiset() == identity(old(self).records@.len()).to_multiset(),
        ensures
            final(self).wf(),
            final(self)@ == (TableView {
                rank: stable_sort(old(self)@.records, old(self)@.key, old(self)@.descending, base@),
                ..old(self)@
            }),
    {
        let mut positions = base;
        sort_positions(&self.records, self.key, self.descending, &mut positions);
        proof {
            lemma_stable_sort_permutes(views(self.records@), self.key, self.descending, base@);
        }
        self.rank = positions;
    }

    /// Replaces the snapshot with the filtered records of `raw` and re-ranks it.
    pub fn ingest(&mut self, raw: &Vec<ProcessRecord>)
        requires
            old(self).wf(),
        ensures
            final(self).wf(),
            final(self)@.records == ingested(views(raw@), old(self)@.filter),
            final(self)@.rank == stable_sort(
                final(self)@.records,
                old(self)@.key,
                old(self)@.descending,
                rank_base(old(self)@.rank, final(self)@.records.len()),
            ),
            final(self)@.key == old(self)@.key,
            final(self)@.descending == old(self)@.descending,
            final(self)@.filter == old(self)@.filter,
    {
        let fresh = ingest(raw, self.filter.as_str());
        let n = fresh.len();
        self.records = fresh;
        let base = if self.rank.len() == n {
            let mut b: Vec<usize> = Vec::new();
            std::mem::swap(&mut b, &mut self.rank);
            b
        } else {
            identity_positions(n)
        };
        self.rank_from(base);
    }

    /// Re-sorts the rank index by the current key and direction, from its current order.
    pub fn rerank(&mut self)
        requires
            old(self).wf(),
        ensures
            final(self).wf(),
            final(self)@ == (TableView {
                rank: stable_sort(old(self)@.records, old(self)@.key, old(self)@.descending, old(self)@.rank),
                ..old(self)@
            }),
    {
        let mut b: Vec<usize> = Vec::new();
        std::mem::swap(&mut b, &mut self.rank);
        self.rank_from(b);
    }

    /// A click on a column heading: the same column flips the direction, another
    /// column takes its own default direction. The rank index is then re-sorted.
    pub fn select_column(&mut self, key: SortKey)
        requires
            old(self).wf(),
        ensures
            final(self).wf(),
            final(self)@.key == key,
            final(self)@.descending == (if key == old(self)@.key {
                !old(self)@.descending
            } else {
                default_descending(key)
            }),
            final(self)@.rank == stable_sort(old(self)@.records, key, final(self)@.descending, old(self)@.rank),
            final(self)@.records == old(self)@.records,
            final(self)@.filter == old(self)@.filter,
    {
        if key == self.key {
            self.descending = !self.descending;
        } else {
            self.key = key;
            self.descending = key == SortKey::Cpu || key == SortKey::Memory;
        }
        self.rerank();
    }

    /// Sets the filter text; it takes effect at the next ingestion.
    pub fn set_filter(&mut self, filter: String)
        requires
            old(self).wf(),
        ensures
            final(self).wf(),
            final(self)@ == (TableView { filter: filter@, ..old(self)@ }),
    {
        self.filter = filter;
    }

    /// The records of the snapshot, in ingestion order.
    pub fn records(&self) -> (r: &Vec<ProcessRecord>)
        ensures
            views(r@) == self@.records,
    {
        &self.records
    }

    /// The rank index: positions into `records`, in display order.
    pub fn rank(&self) -> (r: &Vec<usize>)
        ensures
            r@ == self@.rank,
    {
        &self.rank
    }

    pub fn sort_key(&self) -> (k: SortKey)
        ensures
            k == self@.key,
    {
        self.key
    }

    pub fn descending(&self) -> (d: bool)
        ensures
            d == self@.descending,
    {
        self.descending
    }

    pub fn filter(&self) -> (f: &str)
        ensures
            f@ == self@.filter,
    {
        self.filter.as_str()
    }

    /// The position in the snapshot of the first record with process id `pid`, if any.
    pub fn position_of_pid(&self, pid: u32) -> (r: Option<usize>)
        ensures
            match r {
                Some(i) => i < self@.records.len() && self@.records[i as int].pid == pid
                    && forall|k: int| 0 <= k < i ==> #[trigger] self@.records[k].pid != pid,
                None => forall|k: int| 0 <= k < self@.records.len() ==> #[trigger] self@.records[k].pid != pid,
            },
    {
        let mut i: usize = 0;
        while i < self.records.len()
            invariant
                i <= self.records@.len(),
                forall|k: int| 0 <= k < i ==> #[trigger] self@.records[k].pid != pid,
            decreases self.records@.len() - i,
        {
            if self.records[i].pid == pid {
                return Some(i);
            }
            i = i + 1;
        }
        None
    }
}

} // verus!
