//! Ranking: a stable ordering of snapshot positions by one column.
use vstd::prelude::*;
use crate::process::{ProcessRecord, ProcessView, views};
use crate::text::{chars_of, compare_chars, lex_cmp, lemma_lex_cmp_antisymmetric, lemma_lex_cmp_transitive};

verus! {

/// The column a snapshot is ordered by.
#[derive(Clone, Copy, Debug, PartialEq, Eq, Structural)]
pub enum SortKey {
    Name,
    Cpu,
    Memory,
    Status,
}

/// Three-way comparison of two integers: -1, 0 or 1.
pub open spec fn num_cmp(a: int, b: int) -> int {
    if a < b {
        -1
    } else if a > b {
        1
    } else {
        0
    }
}

/// Ascending comparison of the records at positions `a` and `b` by `key`.
pub open spec fn key_cmp(recs: Seq<ProcessView>, key: SortKey, a: usize, b: usize) -> int {
    match key {
        SortKey::Name => lex_cmp(recs[a as int].name, recs[b as int].name),
        SortKey::Cpu => num_cmp(recs[a as int].cpu_centi as int, recs[b as int].cpu_centi as int),
        SortKey::Memory => num_cmp(
            recs[a as int].memory_bytes as int,
            recs[b as int].memory_bytes as int,
        ),
        SortKey::Status => lex_cmp(recs[a as int].status, recs[b as int].status),
    }
}

/// Comparison in the chosen direction: descending reverses the ascending one.
pub open spec fn ord_cmp(recs: Seq<ProcessView>, key: SortKey, desc: bool, a: usize, b: usize) -> int {
    if desc {
        -key_cmp(recs, key, a, b)
    } else {
        key_cmp(recs, key, a, b)
    }
}

/// Inserts `x` into `s` after every trailing element that does not come after it.
pub open spec fn insert_stable(
    recs: Seq<ProcessView>,
    key: SortKey,
    desc: bool,
    s: Seq<usize>,
    x: usize,
) -> Seq<usize>
    decreases s.len(),
{
    if s.len() == 0 {
        seq![x]
    } else if ord_cmp(recs, key, desc, s.last(), x) <= 0 {
        s.push(x)
    } else {
        insert_stable(recs, key, desc, s.drop_last(), x).push(s.last())
    }
}

/// The stable sort of the positions `s`: equal keys keep their relative order in `s`.
pub open spec fn stable_sort(recs: Seq<ProcessView>, key: SortKey, desc: bool, s: Seq<usize>) -> Seq<usize>
    decreases s.len(),
{
    if s.len() == 0 {
        s
    } else {
        insert_stable(recs, key, desc, stable_sort(recs, key, desc, s.drop_last()), s.last())
    }
}

/// Each position is ordered no later than the next one.
pub open spec fn is_ordered(recs: Seq<ProcessView>, key: SortKey, desc: bool, s: Seq<usize>) -> bool {
    forall|i: int| 0 <= i < s.len() - 1 ==> ord_cmp(recs, key, desc, #[trigger] s[i], s[i + 1]) <= 0
}

/// Every position names a record of the snapshot.
pub open spec fn in_bounds(s: Seq<usize>, n: nat) -> bool {
    forall|i: int| 0 <= i < s.len() ==> #[trigger] s[i] < n
}

/// The positions `0..n` in order.
pub open spec fn identity(n: nat) -> Seq<usize> {
    Seq::new(n, |i: int| i as usize)
}

pub proof fn lemma_key_cmp_antisymmetric(recs: Seq<ProcessView>, key: SortKey, desc: bool, a: usize, b: usize)
    ensures
        ord_cmp(recs, key, desc, a, b) == -ord_cmp(recs, key, desc, b, a),
{
    match key {
        SortKey::Name => lemma_lex_cmp_antisymmetric(recs[a as int].name, recs[b as int].name),
        SortKey::Status => lemma_lex_cmp_antisymmetric(recs[a as int].status, recs[b as int].status),
        _ => {},
    }
}

/// Inserting into an ordered sequence keeps it ordered; the last element is `x`
/// or the old last element.
proof fn lemma_insert_ordered(recs: Seq<ProcessView>, key: SortKey, desc: bool, s: Seq<usize>, x: usize)
    requires
        is_ordered(recs, key, desc, s),
    ensures
        is_ordered(recs, key, desc, insert_stable(recs, key, desc, s, x)),
        insert_stable(recs, key, desc, s, x).len() == s.len() + 1,
        insert_stable(recs, key, desc, s, x).last() == x || (s.len() > 0
            && insert_stable(recs, key, desc, s, x).last() == s.last()),
    decreases s.len(),
{
    if s.len() > 0 && ord_cmp(recs, key, desc, s.last(), x) > 0 {
        let t = s.drop_last();
        assert(is_ordered(recs, key, desc, t)) by {
            assert forall|i: int| 0 <= i < t.len() - 1 implies ord_cmp(recs, key, desc, #[trigger] t[i], t[i + 1]) <= 0 by {
                assert(s[i] == t[i] && s[i + 1] == t[i + 1]);
            }
        }
        lemma_insert_ordered(recs, key, desc, t, x);
        let u = insert_stable(recs, key, desc, t, x);
        lemma_key_cmp_antisymmetric(recs, key, desc, s.last(), x);
        if t.len() > 0 {
            assert(ord_cmp(recs, key, desc, s[s.len() - 2], s[s.len() - 1]) <= 0);
        }
        let w = u.push(s.last());
        assert forall|i: int| 0 <= i < w.len() - 1 implies ord_cmp(recs, key, desc, #[trigger] w[i], w[i + 1]) <= 0 by {
            if i < w.len() - 2 {
                assert(w[i] == u[i] && w[i + 1] == u[i + 1]);
            }
        }
    } else if s.len() > 0 {
        let w = s.push(x);
        assert forall|i: int| 0 <= i < w.len() - 1 implies ord_cmp(recs, key, desc, #[trigger] w[i], w[i + 1]) <= 0 by {
            if i < w.len() - 2 {
                assert(w[i] == s[i] && w[i + 1] == s[i + 1]);
            }
        }
    }
}

/// The result of `stable_sort` is ordered.
pub proof fn lemma_stable_sort_ordered(recs: Seq<ProcessView>, key: SortKey, desc: bool, s: Seq<usize>)
    ensures
        is_ordered(recs, key, desc, stable_sort(recs, key, desc, s)),
        stable_sort(recs, key, desc, s).len() == s.len(),
    decreases s.len(),
{
    if s.len() > 0 {
        lemma_stable_sort_ordered(recs, key, desc, s.drop_last());
        lemma_insert_ordered(recs, key, desc, stable_sort(recs, key, desc, s.drop_last()), s.last());
    }
}

/// Sorting a sequence that is already ordered leaves it as it is.
pub proof fn lemma_stable_sort_of_ordered(recs: Seq<ProcessView>, key: SortKey, desc: bool, s: Seq<usize>)
    requires
        is_ordered(recs, key, desc, s),
    ensures
        stable_sort(recs, key, desc, s) == s,
    decreases s.len(),
{
    if s.len() > 0 {
        let t = s.drop_last();
        assert(is_ordered(recs, key, desc, t)) by {
            assert forall|i: int| 0 <= i < t.len() - 1 implies ord_cmp(recs, key, desc, #[trigger] t[i], t[i + 1]) <= 0 by {
                assert(s[i] == t[i] && s[i + 1] == t[i + 1]);
            }
        }
        lemma_stable_sort_of_ordered(recs, key, desc, t);
        if t.len() > 0 {
            assert(ord_cmp(recs, key, desc, s[s.len() - 2], s[s.len() - 1]) <= 0);
        }
        assert(t.push(s.last()) =~= s);
    }
}

/// Ranking twice with the same key and direction gives the same order as ranking once.
pub proof fn lemma_rank_idempotent(recs: Seq<ProcessView>, key: SortKey, desc: bool, s: Seq<usize>)
    ensures
        stable_sort(recs, key, desc, stable_sort(recs, key, desc, s)) == stable_sort(recs, key, desc, s),
{
    lemma_stable_sort_ordered(recs, key, desc, s);
    lemma_stable_sort_of_ordered(recs, key, desc, stable_sort(recs, key, desc, s));
}

/// Sorting keeps the same positions, each as many times as before.
pub proof fn lemma_stable_sort_permutes(recs: Seq<ProcessView>, key: SortKey, desc: bool, s: Seq<usize>)
    ensures
        stable_sort(recs, key, desc, s).to_multiset() == s.to_multiset(),
    decreases s.len(),
{
    if s.len() > 0 {
        lemma_stable_sort_permutes(recs, key, desc, s.drop_last());
        lemma_insert_permutes(recs, key, desc, stable_sort(recs, key, desc, s.drop_last()), s.last());
        broadcast use vstd::seq_lib::group_to_multiset_ensures;
        assert(s.drop_last().push(s.last()) =~= s);
    }
}

proof fn lemma_insert_permutes(recs: Seq<ProcessView>, key: SortKey, desc: bool, s: Seq<usize>, x: usize)
    ensures
        insert_stable(recs, key, desc, s, x).to_multiset() == s.to_multiset().insert(x),
    decreases s.len(),
{
    broadcast use vstd::seq_lib::group_to_multiset_ensures;
    if s.len() == 0 {
        assert(seq![x] =~= Seq::<usize>::empty().push(x));
    } else if ord_cmp(recs, key, desc, s.last(), x) > 0 {
        lemma_insert_permutes(recs, key, desc, s.drop_last(), x);
        assert(s.drop_last().push(s.last()) =~= s);
        assert(s.to_multiset() == s.drop_last().to_multiset().insert(s.last()));
        assert(s.to_multiset().insert(x) =~= s.drop_last().to_multiset().insert(x).insert(s.last()));
    }
}

/// No two records of the snapshot have equal keys in column `key`.
pub open spec fn keys_distinct(recs: Seq<ProcessView>, key: SortKey) -> bool {
    forall|i: usize, j: usize|
        i < recs.len() && j < recs.len() && i != j ==> #[trigger] key_cmp(recs, key, i, j) != 0
}

/// Every position comes strictly before every later one.
pub open spec fn strictly_ordered(recs: Seq<ProcessView>, key: SortKey, desc: bool, t: Seq<usize>) -> bool {
    forall|i: int, j: int| 0 <= i < j < t.len() ==> #[trigger] ord_cmp(recs, key, desc, t[i], t[j]) < 0
}

/// The elements of `t` in the opposite order.
pub open spec fn reversed(t: Seq<usize>) -> Seq<usize> {
    Seq::new(t.len(), |i: int| t[t.len() - 1 - i])
}

proof fn lemma_ord_cmp_transitive(recs: Seq<ProcessView>, key: SortKey, desc: bool, a: usize, b: usize, c: usize)
    requires
        ord_cmp(recs, key, desc, a, b) < 0,
        ord_cmp(recs, key, desc, b, c) < 0,
    ensures
        ord_cmp(recs, key, desc, a, c) < 0,
{
    lemma_key_cmp_antisymmetric(recs, key, false, a, b);
    lemma_key_cmp_antisymmetric(recs, key, false, b, c);
    lemma_key_cmp_antisymmetric(recs, key, false, a, c);
    let (x, y, z) = if desc { (c, b, a) } else { (a, b, c) };
    match key {
        SortKey::Name => lemma_lex_cmp_transitive(recs[x as int].name, recs[y as int].name, recs[z as int].name),
        SortKey::Status => lemma_lex_cmp_transitive(recs[x as int].status, recs[y as int].status, recs[z as int].status),
        _ => {},
    }
}

proof fn lemma_strict_range(recs: Seq<ProcessView>, key: SortKey, desc: bool, t: Seq<usize>, i: int, j: int)
    requires
        0 <= i < j < t.len(),
        forall|k: int| 0 <= k < t.len() - 1 ==> ord_cmp(recs, key, desc, #[trigger] t[k], t[k + 1]) < 0,
    ensures
        ord_cmp(recs, key, desc, t[i], t[j]) < 0,
    decreases j - i,
{
    if j > i + 1 {
        lemma_strict_range(recs, key, desc, t, i, j - 1);
        assert(ord_cmp(recs, key, desc, t[j - 1], t[j]) < 0);
        lemma_ord_cmp_transitive(recs, key, desc, t[i], t[j - 1], t[j]);
    }
}

/// A stable sort of distinct positions with distinct keys is strictly ordered.
proof fn lemma_sorted_strict(recs: Seq<ProcessView>, key: SortKey, desc: bool, s: Seq<usize>)
    requires
        in_bounds(s, recs.len()),
        s.no_duplicates(),
        keys_distinct(recs, key),
    ensures
        strictly_ordered(recs, key, desc, stable_sort(recs, key, desc, s)),
        in_bounds(stable_sort(recs, key, desc, s), recs.len()),
        forall|e: usize| #[trigger] stable_sort(recs, key, desc, s).contains(e) ==> s.contains(e),
{
    broadcast use vstd::seq_lib::to_multiset_contains;
    let t = stable_sort(recs, key, desc, s);
    lemma_stable_sort_ordered(recs, key, desc, s);
    lemma_stable_sort_permutes(recs, key, desc, s);
    assert forall|e: usize| #[trigger] t.contains(e) implies s.contains(e) by {
        assert(t.to_multiset().count(e) > 0);
        assert(s.to_multiset().count(e) > 0);
    }
    assert forall|i: int| 0 <= i < t.len() implies #[trigger] t[i] < recs.len() by {
        assert(t.contains(t[i]));
    }
    s.lemma_multiset_has_no_duplicates();
    t.lemma_multiset_has_no_duplicates_conv();
    assert forall|k: int| 0 <= k < t.len() - 1 implies ord_cmp(recs, key, desc, #[trigger] t[k], t[k + 1]) < 0 by {
        assert(t[k] < recs.len() && t[k + 1] < recs.len());
        assert(key_cmp(recs, key, t[k], t[k + 1]) != 0);
    }
    assert forall|i: int, j: int| 0 <= i < j < t.len() implies #[trigger] ord_cmp(recs, key, desc, t[i], t[j]) < 0 by {
        lemma_strict_range(recs, key, desc, t, i, j);
    }
}

/// Where `x` goes into a strictly ordered `t`: after the elements before it and
/// before the elements after it.
proof fn split_point(recs: Seq<ProcessView>, key: SortKey, desc: bool, t: Seq<usize>, x: usize) -> (p: int)
    requires
        strictly_ordered(recs, key, desc, t),
        forall|i: int| 0 <= i < t.len() ==> ord_cmp(recs, key, desc, #[trigger] t[i], x) != 0,
    ensures
        0 <= p <= t.len(),
        forall|i: int| 0 <= i < p ==> ord_cmp(recs, key, desc, #[trigger] t[i], x) < 0,
        forall|i: int| p <= i < t.len() ==> ord_cmp(recs, key, desc, #[trigger] t[i], x) > 0,
    decreases t.len(),
{
    if t.len() == 0 {
        0
    } else {
        let u = t.drop_last();
        assert forall|i: int, j: int| 0 <= i < j < u.len() implies #[trigger] ord_cmp(recs, key, desc, u[i], u[j]) < 0 by {
            assert(ord_cmp(recs, key, desc, t[i], t[j]) < 0);
        }
        assert forall|i: int| 0 <= i < u.len() implies ord_cmp(recs, key, desc, #[trigger] u[i], x) != 0 by {
            assert(ord_cmp(recs, key, desc, t[i], x) != 0);
        }
        let q = split_point(recs, key, desc, u, x);
        let n = t.len() - 1;
        assert(ord_cmp(recs, key, desc, t[n], x) != 0);
        if ord_cmp(recs, key, desc, t[n], x) < 0 {
            assert forall|i: int| 0 <= i < t.len() implies ord_cmp(recs, key, desc, #[trigger] t[i], x) < 0 by {
                if i < n {
                    assert(ord_cmp(recs, key, desc, t[i], t[n]) < 0);
                    lemma_ord_cmp_transitive(recs, key, desc, t[i], t[n], x);
                }
            }
            t.len() as int
        } else {
            assert forall|i: int| 0 <= i < q implies ord_cmp(recs, key, desc, #[trigger] t[i], x) < 0 by {
                assert(u[i] == t[i]);
            }
            assert forall|i: int| q <= i < t.len() implies ord_cmp(recs, key, desc, #[trigger] t[i], x) > 0 by {
                if i < n {
                    assert(u[i] == t[i]);
                }
            }
            q
        }
    }
}

/// Insertion at a split point puts `x` exactly there.
proof fn lemma_insert_at_split(recs: Seq<ProcessView>, key: SortKey, desc: bool, t: Seq<usize>, x: usize, p: int)
    requires
        0 <= p <= t.len(),
        forall|i: int| 0 <= i < p ==> ord_cmp(recs, key, desc, #[trigger] t[i], x) < 0,
        forall|i: int| p <= i < t.len() ==> ord_cmp(recs, key, desc, #[trigger] t[i], x) > 0,
    ensures
        insert_stable(recs, key, desc, t, x) == t.take(p) + seq![x] + t.skip(p),
    decreases t.len(),
{
    if t.len() == 0 {
        assert(t.take(p) + seq![x] + t.skip(p) =~= seq![x]);
    } else {
        let n = t.len() - 1;
        if ord_cmp(recs, key, desc, t.last(), x) <= 0 {
            assert(p == t.len());
            assert(t.take(p) + seq![x] + t.skip(p) =~= t.push(x));
        } else {
            let u = t.drop_last();
            assert(p <= n);
            assert forall|i: int| 0 <= i < p implies ord_cmp(recs, key, desc, #[trigger] u[i], x) < 0 by {
                assert(u[i] == t[i]);
            }
            assert forall|i: int| p <= i < u.len() implies ord_cmp(recs, key, desc, #[trigger] u[i], x) > 0 by {
                assert(u[i] == t[i]);
            }
            lemma_insert_at_split(recs, key, desc, u, x, p);
            assert((u.take(p) + seq![x] + u.skip(p)).push(t.last()) =~= t.take(p) + seq![x] + t.skip(p));
        }
    }
}

/// For a snapshot whose keys in column `key` are all distinct, ranking descending
/// gives exactly the reverse of ranking ascending, from any starting order.
pub proof fn lemma_flip_reverses(recs: Seq<ProcessView>, key: SortKey, s: Seq<usize>)
    requires
        keys_distinct(recs, key),
        in_bounds(s, recs.len()),
        s.no_duplicates(),
    ensures
        stable_sort(recs, key, true, s) == reversed(stable_sort(recs, key, false, s)),
    decreases s.len(),
{
    if s.len() == 0 {
        assert(reversed(s) =~= s);
    } else {
        let u = s.drop_last();
        let x = s.last();
        assert(in_bounds(u, recs.len())) by {
            assert forall|i: int| 0 <= i < u.len() implies #[trigger] u[i] < recs.len() by {
                assert(u[i] == s[i]);
            }
        }
        assert(u.no_duplicates()) by {
            assert forall|i: int, j: int| 0 <= i < u.len() && 0 <= j < u.len() && i != j implies u[i] != u[j] by {
                assert(u[i] == s[i] && u[j] == s[j]);
            }
        }
        lemma_flip_reverses(recs, key, u);
        let t = stable_sort(recs, key, false, u);
        lemma_sorted_strict(recs, key, false, u);
        lemma_stable_sort_ordered(recs, key, false, u);
        assert(x < recs.len());
        assert forall|i: int| 0 <= i < t.len() implies ord_cmp(recs, key, false, #[trigger] t[i], x) != 0 by {
            assert(t.contains(t[i]));
            if t[i] == x {
                let k = choose|k: int| 0 <= k < u.len() && u[k] == x;
                assert(s[k] == s[s.len() - 1]);
            }
            assert(key_cmp(recs, key, t[i], x) != 0);
        }
        let p = split_point(recs, key, false, t, x);
        lemma_insert_at_split(recs, key, false, t, x, p);
        let r = reversed(t);
        let q = t.len() - p;
        assert forall|i: int| 0 <= i < q implies ord_cmp(recs, key, true, #[trigger] r[i], x) < 0 by {
            assert(r[i] == t[t.len() - 1 - i]);
            assert(ord_cmp(recs, key, false, t[t.len() - 1 - i], x) > 0);
        }
        assert forall|i: int| q <= i < r.len() implies ord_cmp(recs, key, true, #[trigger] r[i], x) > 0 by {
            assert(r[i] == t[t.len() - 1 - i]);
            assert(ord_cmp(recs, key, false, t[t.len() - 1 - i], x) < 0);
        }
        lemma_insert_at_split(recs, key, true, r, x, q);
        assert(r.take(q) + seq![x] + r.skip(q) =~= reversed(t.take(p) + seq![x] + t.skip(p)));
    }
}

/// Sort keys of one column of a snapshot, read out once before ranking.
pub struct KeyColumn {
    pub texts: Vec<Vec<char>>,
    pub nums: Vec<u64>,
}

pub open spec fn is_text_key(key: SortKey) -> bool {
    key == SortKey::Name || key == SortKey::Status
}

impl KeyColumn {
    pub open spec fn holds(&self, recs: Seq<ProcessView>, key: SortKey) -> bool {
        if is_text_key(key) {
            &&& self.texts@.len() == recs.len()
            &&& forall|i: int| 0 <= i < recs.len() ==> #[trigger] self.texts@[i]@ == (if key
                == SortKey::Name {
                recs[i].name
            } else {
                recs[i].status
            })
        } else {
            &&& self.nums@.len() == recs.len()
            &&& forall|i: int| 0 <= i < recs.len() ==> #[trigger] self.nums@[i] as int == (if key
                == SortKey::Cpu {
                recs[i].cpu_centi as int
            } else {
                recs[i].memory_bytes as int
            })
        }
    }

    /// Reads the keys of column `key` out of the records.
    pub fn build(recs: &Vec<ProcessRecord>, key: SortKey) -> (c: KeyColumn)
        ensures
            c.holds(views(recs@), key),
    {
        let mut texts: Vec<Vec<char>> = Vec::new();
        let mut nums: Vec<u64> = Vec::new();
        let mut i: usize = 0;
        let textual = key == SortKey::Name || key == SortKey::Status;
        while i < recs.len()
            invariant
                i <= recs@.len(),
                textual == is_text_key(key),
                textual ==> texts@.len() == i,
                !textual ==> nums@.len() == i,
                textual ==> forall|k: int| 0 <= k < i ==> #[trigger] texts@[k]@ == (if key == SortKey::Name {
                    recs@[k].name@
                } else {
                    recs@[k].status@
                }),
                !textual ==> forall|k: int| 0 <= k < i ==> #[trigger] nums@[k] as int == (if key == SortKey::Cpu {
                    recs@[k].cpu_centi as int
                } else {
                    recs@[k].memory_bytes as int
                }),
            decreases recs@.len() - i,
        {
            let r = &recs[i];
            match key {
                SortKey::Name => texts.push(chars_of(r.name.as_str())),
                SortKey::Status => texts.push(chars_of(r.status.as_str())),
                SortKey::Cpu => nums.push(r.cpu_centi as u64),
                SortKey::Memory => nums.push(r.memory_bytes),
            }
            i = i + 1;
        }
        KeyColumn { texts, nums }
    }

    /// Compares the keys at positions `a` and `b` in the chosen direction.
    pub fn compare(&self, key: SortKey, desc: bool, a: usize, b: usize) -> (r: i8)
        requires
            exists|recs: Seq<ProcessView>| #[trigger] self.holds(recs, key) && a < recs.len() && b < recs.len(),
        ensures
            forall|recs: Seq<ProcessView>| #[trigger] self.holds(recs, key) ==> r as int == ord_cmp(recs, key, desc, a, b),
    {
        let c: i8 = if key == SortKey::Name || key == SortKey::Status {
            compare_chars(&self.texts[a], &self.texts[b])
        } else {
            let x = self.nums[a];
            let y = self.nums[b];
            if x < y {
                -1
            } else if x > y {
                1
            } else {
                0
            }
        };
        proof {
            if is_text_key(key) {
                lemma_lex_cmp_antisymmetric(self.texts@[a as int]@, self.texts@[b as int]@);
            }
            assert(-1 <= c <= 1);
            assert forall|recs: Seq<ProcessView>| #[trigger] self.holds(recs, key) implies c as int == key_cmp(recs, key, a, b) by {
                if is_text_key(key) {
                    assert(self.texts@[a as int]@ == (if key == SortKey::Name { recs[a as int].name } else { recs[a as int].status }));
                    assert(self.texts@[b as int]@ == (if key == SortKey::Name { recs[b as int].name } else { recs[b as int].status }));
                } else {
                    assert(self.nums@[a as int] as int == (if key == SortKey::Cpu { recs[a as int].cpu_centi as int } else { recs[a as int].memory_bytes as int }));
                    assert(self.nums@[b as int] as int == (if key == SortKey::Cpu { recs[b as int].cpu_centi as int } else { recs[b as int].memory_bytes as int }));
                }
            }
        }
        if desc {
            if c < 0 { 1 } else if c > 0 { -1 } else { 0 }
        } else {
            c
        }
    }
}

/// Reorders `positions` in place by a stable insertion sort on column `key`.
pub fn sort_positions(recs: &Vec<ProcessRecord>, key: SortKey, desc: bool, positions: &mut Vec<usize>)
    requires
        in_bounds(old(positions)@, recs@.len()),
    ensures
        final(positions)@ == stable_sort(views(recs@), key, desc, old(positions)@),
        final(positions)@.len() == old(positions)@.len(),
        in_bounds(final(positions)@, recs@.len()),
{
    let ghost rv = views(recs@);
    let ghost orig = positions@;
    let col = KeyColumn::build(recs, key);
    assert(col.holds(rv, key));
    let n = positions.len();
    let mut i: usize = 0;
    assert(orig.take(0) =~= Seq::<usize>::empty());
    while i < n
        invariant
            n == positions@.len(),
            n == orig.len(),
            i <= n,
            rv == views(recs@),
            rv.len() == recs@.len(),
            col.holds(rv, key),
            in_bounds(orig, recs@.len()),
            in_bounds(positions@, recs@.len()),
            positions@.take(i as int) == stable_sort(rv, key, desc, orig.take(i as int)),
            positions@.subrange(i as int, n as int) == orig.subrange(i as int, n as int),
        decreases n - i,
    {
        let x = positions[i];
        let ghost sorted = positions@.take(i as int);
        assert(x == orig[i as int]) by {
            assert(positions@.subrange(i as int, n as int)[0] == orig.subrange(i as int, n as int)[0]);
        }
        let mut j: usize = i;
        assert forall|k: int| i + 1 <= k < n implies positions@[k] == orig[k] by {
            assert(positions@.subrange(i as int, n as int)[k - i] == orig.subrange(i as int, n as int)[k - i]);
        }
        assert(positions@.subrange(i + 1, n as int) =~= orig.subrange(i + 1, n as int));
        assert(sorted.take(i as int) =~= sorted);
        assert(positions@.subrange(i + 1, i + 1) =~= sorted.subrange(i as int, i as int));
        assert(insert_stable(rv, key, desc, sorted, x) =~= insert_stable(rv, key, desc, sorted.take(i as int), x) + sorted.subrange(i as int, i as int));
        while j > 0 && col.compare(key, desc, positions[j - 1], x) > 0
            invariant
                n == positions@.len(),
                i < n,
                j <= i,
                sorted.len() == i,
                x == orig[i as int],
                x < recs@.len(),
                rv == views(recs@),
                rv.len() == recs@.len(),
                col.holds(rv, key),
                in_bounds(positions@, recs@.len()),
                positions@.take(j as int) == sorted.take(j as int),
                positions@.subrange(j + 1, i + 1) == sorted.subrange(j as int, i as int),
                positions@.subrange(i + 1, n as int) == orig.subrange(i + 1, n as int),
                insert_stable(rv, key, desc, sorted, x) == insert_stable(rv, key, desc, sorted.take(j as int), x) + sorted.subrange(j as int, i as int),
            decreases j,
        {
            let y = positions[j - 1];
            assert(y == sorted[j - 1]) by {
                assert(positions@.take(j as int)[j - 1] == sorted.take(j as int)[j - 1]);
            }
            assert(ord_cmp(rv, key, desc, y, x) > 0);
            positions.set(j, y);
            proof {
                let t = sorted.take(j as int);
                assert(t.drop_last() =~= sorted.take(j - 1));
                assert(t.last() == y);
                assert(insert_stable(rv, key, desc, t, x) == insert_stable(rv, key, desc, sorted.take(j - 1), x).push(y));
                assert(sorted.subrange(j - 1, i as int) =~= seq![y] + sorted.subrange(j as int, i as int));
                assert(insert_stable(rv, key, desc, sorted.take(j - 1), x).push(y) + sorted.subrange(j as int, i as int) =~= insert_stable(rv, key, desc, sorted.take(j - 1), x) + sorted.subrange(j - 1, i as int));
                assert(positions@.take(j - 1) =~= sorted.take(j - 1));
                assert(positions@.subrange(j as int, i + 1) =~= sorted.subrange(j - 1, i as int));
                assert(positions@.subrange(i + 1, n as int) =~= orig.subrange(i + 1, n as int));
            }
            j = j - 1;
        }
        proof {
            let t = sorted.take(j as int);
            if j == 0 {
                assert(t =~= Seq::<usize>::empty());
            } else {
                assert(positions@[j - 1] == sorted[j - 1]) by {
                    assert(positions@.take(j as int)[j - 1] == sorted.take(j as int)[j - 1]);
                }
                assert(t.last() == sorted[j - 1]);
            }
            assert(insert_stable(rv, key, desc, t, x) =~= t.push(x));
        }
        positions.set(j, x);
        proof {
            let t = sorted.take(j as int);
            assert(orig.take(i + 1).drop_last() =~= orig.take(i as int));
            assert(orig.take(i + 1).last() == x);
            assert(positions@.take(i + 1) =~= t.push(x) + sorted.subrange(j as int, i as int));
            assert(positions@.subrange(i + 1, n as int) =~= orig.subrange(i + 1, n as int));
        }
        i = i + 1;
    }
    assert(positions@.take(n as int) =~= positions@);
    assert(orig.take(n as int) =~= orig);
    proof {
        lemma_stable_sort_permutes(rv, key, desc, orig);
    }
}

} // verus!
