//! Per-thread usage records of one process.
//!
//! A process keeps one record per thread id. Each sample of a thread adds its
//! usage to the record's cumulative usage (saturating at `u64::MAX`) and is
//! appended to the record's samples. After a batch the records are ordered by
//! cumulative usage, largest first, by a stable sort.

use crate::msg::{ThreadInfo, ThreadSample};
use vstd::prelude::*;

verus! {

/// Accumulated usage of one thread.
pub struct ThreadInfoItem {
    pub id: u64,
    pub usage_sum: u64,
    pub cpu_infos: Vec<ThreadInfo>,
}

/// Mathematical value of a `ThreadInfoItem`.
pub struct ThreadRecord {
    pub id: u64,
    pub usage_sum: u64,
    pub cpu_infos: Seq<ThreadSample>,
}

impl View for ThreadInfoItem {
    type V = ThreadRecord;

    open spec fn view(&self) -> ThreadRecord {
        ThreadRecord {
            id: self.id,
            usage_sum: self.usage_sum,
            cpu_infos: self.cpu_infos@.map_values(|t: ThreadInfo| t@),
        }
    }
}

/// The records that a vector of items stands for.
pub open spec fn records(v: Seq<ThreadInfoItem>) -> Seq<ThreadRecord> {
    v.map_values(|x: ThreadInfoItem| x@)
}

/// `a + b`, held at `u64::MAX`.
pub open spec fn sat_add(a: u64, b: u64) -> u64 {
    if a + b > u64::MAX {
        u64::MAX
    } else {
        (a + b) as u64
    }
}

pub open spec fn ids_unique(s: Seq<ThreadRecord>) -> bool {
    forall|i: int, j: int| 0 <= i < j < s.len() ==> s[i].id != s[j].id
}

pub open spec fn has_thread(s: Seq<ThreadRecord>, id: u64) -> bool {
    exists|k: int| 0 <= k < s.len() && s[k].id == id
}

/// Cumulative usage recorded for a thread id; 0 for an id without a record.
pub open spec fn thread_usage(s: Seq<ThreadRecord>, id: u64) -> u64 {
    if has_thread(s, id) {
        s[choose|k: int| 0 <= k < s.len() && s[k].id == id].usage_sum
    } else {
        0
    }
}

/// Samples recorded for a thread id; empty for an id without a record.
pub open spec fn thread_samples(s: Seq<ThreadRecord>, id: u64) -> Seq<ThreadSample> {
    if has_thread(s, id) {
        s[choose|k: int| 0 <= k < s.len() && s[k].id == id].cpu_infos
    } else {
        Seq::empty()
    }
}

/// The samples of one thread id, in order.
pub open spec fn samples_for(ts: Seq<ThreadSample>, id: u64) -> Seq<ThreadSample>
    decreases ts.len(),
{
    if ts.len() == 0 {
        Seq::empty()
    } else if ts.last().id == id {
        samples_for(ts.drop_last(), id).push(ts.last())
    } else {
        samples_for(ts.drop_last(), id)
    }
}

/// Records ordered by cumulative usage, largest first.
pub open spec fn sorted_by_usage(s: Seq<ThreadRecord>) -> bool {
    forall|i: int, j: int| 0 <= i < j < s.len() ==> s[i].usage_sum >= s[j].usage_sum
}

/// One thread sample folded into the records: an existing record of its id
/// gains its usage and the sample; otherwise a new record is appended.
pub open spec fn add_sample(s: Seq<ThreadRecord>, t: ThreadSample) -> Seq<ThreadRecord> {
    if has_thread(s, t.id) {
        let k = choose|k: int| 0 <= k < s.len() && s[k].id == t.id;
        s.update(
            k,
            ThreadRecord {
                id: t.id,
                usage_sum: sat_add(s[k].usage_sum, t.usage),
                cpu_infos: s[k].cpu_infos.push(t),
            },
        )
    } else {
        s.push(ThreadRecord { id: t.id, usage_sum: t.usage, cpu_infos: seq![t] })
    }
}

/// The thread samples folded in, in order.
pub open spec fn add_samples(s: Seq<ThreadRecord>, ts: Seq<ThreadSample>) -> Seq<ThreadRecord>
    decreases ts.len(),
{
    if ts.len() == 0 {
        s
    } else {
        add_sample(add_samples(s, ts.drop_last()), ts.last())
    }
}

/// Where a record of usage `u` goes in a list ordered largest first: after
/// every record whose usage is at least `u`.
pub open spec fn insert_pos(s: Seq<ThreadRecord>, u: u64) -> int
    decreases s.len(),
{
    if s.len() == 0 {
        0
    } else if s[0].usage_sum < u {
        0
    } else {
        1 + insert_pos(s.drop_first(), u)
    }
}

/// Stable sort by cumulative usage, largest first: each record in turn is
/// placed after all earlier records of no smaller usage.
pub open spec fn sort_by_usage(s: Seq<ThreadRecord>) -> Seq<ThreadRecord>
    decreases s.len(),
{
    if s.len() == 0 {
        s
    } else {
        let t = sort_by_usage(s.drop_last());
        t.insert(insert_pos(t, s.last().usage_sum), s.last())
    }
}

/// Sum of the usage of the samples of one thread id.
pub open spec fn usage_total(ts: Seq<ThreadSample>, id: u64) -> nat
    decreases ts.len(),
{
    if ts.len() == 0 {
        0
    } else {
        usage_total(ts.drop_last(), id) + if ts.last().id == id {
            ts.last().usage as nat
        } else {
            0
        }
    }
}

pub open spec fn capped(n: int) -> u64 {
    if n > u64::MAX {
        u64::MAX
    } else {
        n as u64
    }
}

proof fn lemma_insert_pos(s: Seq<ThreadRecord>, u: u64)
    ensures
        0 <= insert_pos(s, u) <= s.len(),
        forall|i: int| 0 <= i < insert_pos(s, u) ==> s[i].usage_sum >= u,
        insert_pos(s, u) < s.len() ==> s[insert_pos(s, u)].usage_sum < u,
    decreases s.len(),
{
    if s.len() > 0 && s[0].usage_sum >= u {
        lemma_insert_pos(s.drop_first(), u);
        assert forall|i: int| 0 <= i < insert_pos(s, u) implies s[i].usage_sum >= u by {
            if i > 0 {
                assert(s[i] == s.drop_first()[i - 1]);
            }
        }
    }
}

proof fn lemma_insert_pos_unique(s: Seq<ThreadRecord>, u: u64, k: int)
    requires
        0 <= k <= s.len(),
        forall|i: int| 0 <= i < k ==> s[i].usage_sum >= u,
        k < s.len() ==> s[k].usage_sum < u,
    ensures
        insert_pos(s, u) == k,
    decreases s.len(),
{
    if s.len() > 0 && k > 0 {
        assert(s[0].usage_sum >= u);
        let t = s.drop_first();
        assert forall|i: int| 0 <= i < k - 1 implies t[i].usage_sum >= u by {
            assert(t[i] == s[i + 1]);
        }
        if k - 1 < t.len() {
            assert(t[k - 1] == s[k]);
        }
        lemma_insert_pos_unique(t, u, k - 1);
    }
}

/// Placing a record at its position keeps a list ordered.
proof fn lemma_insert_sorted(s: Seq<ThreadRecord>, x: ThreadRecord)
    requires
        sorted_by_usage(s),
    ensures
        sorted_by_usage(s.insert(insert_pos(s, x.usage_sum), x)),
{
    lemma_insert_pos(s, x.usage_sum);
    let p = insert_pos(s, x.usage_sum);
    let r = s.insert(p, x);
    assert forall|i: int, j: int| 0 <= i < j < r.len() implies r[i].usage_sum
        >= r[j].usage_sum by {
        if j < p {
        } else if j == p {
        } else if i < p {
            assert(r[j] == s[j - 1]);
        } else if i == p {
            assert(r[j] == s[j - 1]);
            assert(s[p].usage_sum >= s[j - 1].usage_sum);
        } else {
            assert(r[j] == s[j - 1]);
            assert(r[i] == s[i - 1]);
        }
    }
}

proof fn lemma_insert_contains(s: Seq<ThreadRecord>, p: int, x: ThreadRecord, r: ThreadRecord)
    requires
        0 <= p <= s.len(),
    ensures
        s.insert(p, x).contains(r) <==> (r == x || s.contains(r)),
{
    let t = s.insert(p, x);
    if t.contains(r) {
        let i = choose|i: int| 0 <= i < t.len() && t[i] == r;
        if i > p {
            assert(s[i - 1] == r);
        } else if i < p {
            assert(s[i] == r);
        }
    }
    if r == x {
        assert(t[p] == r);
    } else if s.contains(r) {
        let i = choose|i: int| 0 <= i < s.len() && s[i] == r;
        if i < p {
            assert(t[i] == r);
        } else {
            assert(t[i + 1] == r);
        }
    }
}

/// The sort keeps exactly the records it was given, and orders them.
pub proof fn lemma_sort_by_usage(s: Seq<ThreadRecord>)
    ensures
        sort_by_usage(s).len() == s.len(),
        sorted_by_usage(sort_by_usage(s)),
        forall|r: ThreadRecord| sort_by_usage(s).contains(r) <==> s.contains(r),
    decreases s.len(),
{
    if s.len() > 0 {
        let d = s.drop_last();
        lemma_sort_by_usage(d);
        let t = sort_by_usage(d);
        lemma_insert_pos(t, s.last().usage_sum);
        lemma_insert_sorted(t, s.last());
        assert forall|r: ThreadRecord| s.contains(r) <==> (r == s.last() || d.contains(r)) by {
            if s.contains(r) {
                let i = choose|i: int| 0 <= i < s.len() && s[i] == r;
                if i < s.len() - 1 {
                    assert(d[i] == r);
                }
            }
            if d.contains(r) {
                let i = choose|i: int| 0 <= i < d.len() && d[i] == r;
                assert(s[i] == r);
            }
            if r == s.last() {
                assert(s[s.len() - 1] == r);
            }
        }
        assert forall|r: ThreadRecord| sort_by_usage(s).contains(r) <==> s.contains(r) by {
            let p = insert_pos(t, s.last().usage_sum);
            assert(sort_by_usage(s) == t.insert(p, s.last()));
            lemma_insert_contains(t, p, s.last(), r);
            assert(t.insert(p, s.last()).contains(r) <==> (r == s.last() || t.contains(r)));
            assert(t.contains(r) <==> d.contains(r));
        }
    }
}

/// Position of the record of a thread id.
pub open spec fn index_of_id(s: Seq<ThreadRecord>, id: u64) -> int {
    choose|k: int| 0 <= k < s.len() && s[k].id == id
}

proof fn lemma_index_of_id(s: Seq<ThreadRecord>, k: int)
    requires
        ids_unique(s),
        0 <= k < s.len(),
    ensures
        index_of_id(s, s[k].id) == k,
{
    let m = index_of_id(s, s[k].id);
    assert(0 <= m < s.len() && s[m].id == s[k].id);
}

/// The sort is stable: records of equal usage keep the order they had.
pub proof fn lemma_sort_stable(s: Seq<ThreadRecord>)
    requires
        ids_unique(s),
    ensures
        forall|i: int, j: int|
            0 <= i < j < sort_by_usage(s).len() && sort_by_usage(s)[i].usage_sum == sort_by_usage(
                s,
            )[j].usage_sum ==> index_of_id(s, sort_by_usage(s)[i].id) < index_of_id(
                s,
                sort_by_usage(s)[j].id,
            ),
    decreases s.len(),
{
    if s.len() > 0 {
        let d = s.drop_last();
        let x = s.last();
        assert(ids_unique(d));
        lemma_sort_stable(d);
        lemma_sort_by_usage(d);
        lemma_sort_ids_unique(d);
        let t = sort_by_usage(d);
        let p = insert_pos(t, x.usage_sum);
        lemma_insert_pos(t, x.usage_sum);
        let r = t.insert(p, x);
        assert(r == sort_by_usage(s));
        // where each record of t sits in s
        assert forall|k: int| 0 <= k < t.len() implies index_of_id(s, #[trigger] t[k].id)
            == index_of_id(d, t[k].id) && index_of_id(d, t[k].id) < d.len() by {
            assert(t.contains(t[k]));
            assert(d.contains(t[k]));
            let m = choose|m: int| 0 <= m < d.len() && d[m] == t[k];
            assert(s[m] == d[m]);
            lemma_index_of_id(d, m);
            lemma_index_of_id(s, m);
        }
        lemma_index_of_id(s, s.len() - 1);
        assert forall|i: int, j: int|
            0 <= i < j < r.len() && r[i].usage_sum == r[j].usage_sum implies index_of_id(
            s,
            r[i].id,
        ) < index_of_id(s, r[j].id) by {
            if i == p {
                assert(r[j] == t[j - 1]);
                assert(t[p].usage_sum < x.usage_sum);
                assert(t[p].usage_sum >= t[j - 1].usage_sum);
            } else if j == p {
                assert(r[i] == t[i]);
            } else {
                let ti = if i < p {
                    i
                } else {
                    i - 1
                };
                let tj = if j < p {
                    j
                } else {
                    j - 1
                };
                assert(r[i] == t[ti]);
                assert(r[j] == t[tj]);
            }
        }
    }
}

/// Two lists that hold the same records, with unique ids, agree on each
/// thread's usage and on which ids they hold.
proof fn lemma_same_records(s: Seq<ThreadRecord>, t: Seq<ThreadRecord>, id: u64)
    requires
        ids_unique(s),
        ids_unique(t),
        forall|r: ThreadRecord| s.contains(r) <==> t.contains(r),
    ensures
        has_thread(s, id) == has_thread(t, id),
        thread_usage(s, id) == thread_usage(t, id),
        thread_samples(s, id) == thread_samples(t, id),
{
    if has_thread(s, id) {
        let k = choose|k: int| 0 <= k < s.len() && s[k].id == id;
        assert(s.contains(s[k]));
        let m = choose|m: int| 0 <= m < t.len() && t[m] == s[k];
        assert(t[m].id == id);
        let m2 = choose|m: int| 0 <= m < t.len() && t[m].id == id;
        assert(m2 == m);
    }
    if has_thread(t, id) {
        let k = choose|k: int| 0 <= k < t.len() && t[k].id == id;
        assert(t.contains(t[k]));
        let m = choose|m: int| 0 <= m < s.len() && s[m] == t[k];
        assert(s[m].id == id);
    }
}

/// Records with unique ids keep them unique once sorted.
proof fn lemma_sort_ids_unique(s: Seq<ThreadRecord>)
    requires
        ids_unique(s),
    ensures
        ids_unique(sort_by_usage(s)),
    decreases s.len(),
{
    if s.len() > 0 {
        let d = s.drop_last();
        assert(ids_unique(d));
        lemma_sort_ids_unique(d);
        lemma_sort_by_usage(d);
        let t = sort_by_usage(d);
        let x = s.last();
        let p = insert_pos(t, x.usage_sum);
        lemma_insert_pos(t, x.usage_sum);
        let r = t.insert(p, x);
        assert forall|k: int| 0 <= k < t.len() implies t[k].id != x.id by {
            assert(t.contains(t[k]));
            assert(d.contains(t[k]));
            let i = choose|i: int| 0 <= i < d.len() && d[i] == t[k];
            assert(s[i] == d[i]);
            assert(s[i].id != s[s.len() - 1].id);
        }
        assert forall|i: int, j: int| 0 <= i < j < r.len() implies r[i].id != r[j].id by {
            if j < p {
            } else if j == p {
            } else if i < p {
                assert(r[j] == t[j - 1]);
            } else if i == p {
                assert(r[j] == t[j - 1]);
            } else {
                assert(r[j] == t[j - 1]);
                assert(r[i] == t[i - 1]);
            }
        }
    }
}

proof fn lemma_add_sample(s: Seq<ThreadRecord>, t: ThreadSample, id: u64)
    requires
        ids_unique(s),
    ensures
        ids_unique(add_sample(s, t)),
        has_thread(add_sample(s, t), id) == (has_thread(s, id) || t.id == id),
        thread_usage(add_sample(s, t), id) == if t.id == id {
            sat_add(thread_usage(s, id), t.usage)
        } else {
            thread_usage(s, id)
        },
        thread_samples(add_sample(s, t), id) == if t.id == id {
            thread_samples(s, id).push(t)
        } else {
            thread_samples(s, id)
        },
{
    let r = add_sample(s, t);
    if has_thread(s, t.id) {
        let k = choose|k: int| 0 <= k < s.len() && s[k].id == t.id;
        assert(r.len() == s.len());
        assert forall|i: int| 0 <= i < r.len() implies r[i].id == s[i].id by {}
        if has_thread(s, id) {
            let m = choose|m: int| 0 <= m < s.len() && s[m].id == id;
            assert(r[m].id == id);
            let m2 = choose|m: int| 0 <= m < r.len() && r[m].id == id;
            assert(m2 == m);
        }
        if has_thread(r, id) {
            let m = choose|m: int| 0 <= m < r.len() && r[m].id == id;
            assert(s[m].id == id);
        }
    } else {
        assert forall|i: int, j: int| 0 <= i < j < r.len() implies r[i].id != r[j].id by {
            if j == s.len() {
                assert(s[i].id != t.id);
            }
        }
        if has_thread(s, id) {
            let m = choose|m: int| 0 <= m < s.len() && s[m].id == id;
            assert(r[m].id == id);
            let m2 = choose|m: int| 0 <= m < r.len() && r[m].id == id;
            assert(m2 == m);
        }
        if has_thread(r, id) {
            let m = choose|m: int| 0 <= m < r.len() && r[m].id == id;
            if m < s.len() {
                assert(s[m].id == id);
            }
        }
        if t.id == id {
            assert(r[s.len() as int].id == id);
            let m2 = choose|m: int| 0 <= m < r.len() && r[m].id == id;
            assert(m2 == s.len());
        }
    }
}

/// Cumulative usage after a batch is the usage before it plus the exact sum
/// of the batch's samples of that thread, held at `u64::MAX`; its samples are
/// followed by the batch's samples of it, in order; the records keep unique
/// ids and end ordered by usage, largest first.
pub proof fn lemma_thread_usage_accumulates(s: Seq<ThreadRecord>, ts: Seq<ThreadSample>, id: u64)
    requires
        ids_unique(s),
    ensures
        ids_unique(sort_by_usage(add_samples(s, ts))),
        sorted_by_usage(sort_by_usage(add_samples(s, ts))),
        thread_usage(sort_by_usage(add_samples(s, ts)), id) == capped(
            thread_usage(s, id) + usage_total(ts, id),
        ),
        thread_samples(sort_by_usage(add_samples(s, ts)), id) == thread_samples(s, id)
            + samples_for(ts, id),
{
    lemma_add_samples(s, ts, id);
    let a = add_samples(s, ts);
    lemma_sort_by_usage(a);
    lemma_sort_ids_unique(a);
    lemma_same_records(a, sort_by_usage(a), id);
}

/// The records after a sequence of batches, each folded in and then sorted.
pub open spec fn apply_batches(s: Seq<ThreadRecord>, bs: Seq<Seq<ThreadSample>>) -> Seq<ThreadRecord>
    decreases bs.len(),
{
    if bs.len() == 0 {
        s
    } else {
        sort_by_usage(add_samples(apply_batches(s, bs.drop_last()), bs.last()))
    }
}

/// Sum of the usage of one thread id over a sequence of batches.
pub open spec fn batches_total(bs: Seq<Seq<ThreadSample>>, id: u64) -> nat
    decreases bs.len(),
{
    if bs.len() == 0 {
        0
    } else {
        batches_total(bs.drop_last(), id) + usage_total(bs.last(), id)
    }
}

/// Over any sequence of batches, a thread's cumulative usage is its usage
/// before them plus the exact sum of all usage submitted for its id (held at
/// `u64::MAX`), and the records stay sorted, largest first, with unique ids.
pub proof fn lemma_batches_accumulate(s: Seq<ThreadRecord>, bs: Seq<Seq<ThreadSample>>, id: u64)
    requires
        ids_unique(s),
        sorted_by_usage(s),
    ensures
        ids_unique(apply_batches(s, bs)),
        sorted_by_usage(apply_batches(s, bs)),
        thread_usage(apply_batches(s, bs), id) == capped(
            thread_usage(s, id) + batches_total(bs, id),
        ),
    decreases bs.len(),
{
    if bs.len() > 0 {
        let d = bs.drop_last();
        lemma_batches_accumulate(s, d, id);
        lemma_thread_usage_accumulates(apply_batches(s, d), bs.last(), id);
    }
}

proof fn lemma_add_samples(s: Seq<ThreadRecord>, ts: Seq<ThreadSample>, id: u64)
    requires
        ids_unique(s),
    ensures
        ids_unique(add_samples(s, ts)),
        thread_usage(add_samples(s, ts), id) == capped(
            thread_usage(s, id) + usage_total(ts, id),
        ),
        thread_samples(add_samples(s, ts), id) == thread_samples(s, id) + samples_for(ts, id),
    decreases ts.len(),
{
    if ts.len() == 0 {
        assert(thread_samples(s, id) + samples_for(ts, id) =~= thread_samples(s, id));
    } else {
        let d = ts.drop_last();
        lemma_add_samples(s, d, id);
        lemma_add_sample(add_samples(s, d), ts.last(), id);
        if ts.last().id == id {
            assert((thread_samples(s, id) + samples_for(d, id)).push(ts.last()) =~= thread_samples(s, id)
                + samples_for(d, id).push(ts.last()));
        }
    }
}

/// Index of the record of a thread id, if there is one.
pub fn find_thread(v: &Vec<ThreadInfoItem>, id: u64) -> (r: Option<usize>)
    ensures
        match r {
            Some(k) => k < v.len() && v@[k as int].id == id,
            None => !has_thread(records(v@), id),
        },
{
    let mut k: usize = 0;
    while k < v.len()
        invariant
            k <= v.len(),
            forall|i: int| 0 <= i < k ==> v@[i].id != id,
        decreases v.len() - k,
    {
        if v[k].id == id {
            return Some(k);
        }
        k = k + 1;
    }
    assert(!has_thread(records(v@), id)) by {
        if has_thread(records(v@), id) {
            let m = choose|m: int| 0 <= m < records(v@).len() && records(v@)[m].id == id;
            assert(v@[m].id == id);
        }
    }
    None
}

/// Folds one thread sample into the records.
pub fn add_thread_sample(v: &mut Vec<ThreadInfoItem>, t: ThreadInfo)
    requires
        ids_unique(records(old(v)@)),
    ensures
        records(final(v)@) == add_sample(records(old(v)@), t@),
        ids_unique(records(final(v)@)),
{
    let ghost s = records(v@);
    proof {
        lemma_add_sample(s, t@, t.id);
    }
    let ghost tv = t@;
    match find_thread(v, t.id) {
        Some(k) => {
            let mut item = v.remove(k);
            proof {
                assert(s[k as int].id == t.id);
                let c = choose|c: int| 0 <= c < s.len() && s[c].id == t.id;
                assert(c == k);
            }
            item.usage_sum = item.usage_sum.saturating_add(t.usage);
            let ghost old_infos = item.cpu_infos@;
            item.cpu_infos.push(t);
            assert(item.cpu_infos@.map_values(|x: ThreadInfo| x@) =~= old_infos.map_values(
                |x: ThreadInfo| x@,
            ).push(tv));
            v.insert(k, item);
            assert(records(v@) =~= add_sample(s, tv));
        },
        None => {
            let id = t.id;
            let usage = t.usage;
            let mut samples: Vec<ThreadInfo> = Vec::new();
            samples.push(t);
            v.push(ThreadInfoItem { id, usage_sum: usage, cpu_infos: samples });
            assert(samples@.map_values(|x: ThreadInfo| x@) =~= seq![tv]);
            assert(records(v@) =~= add_sample(s, tv));
        },
    }
}

/// Stable sort of the records by cumulative usage, largest first.
pub fn sort_threads(v: Vec<ThreadInfoItem>) -> (r: Vec<ThreadInfoItem>)
    ensures
        records(r@) == sort_by_usage(records(v@)),
{
    let ghost s = records(v@);
    let mut rest = v;
    let mut out: Vec<ThreadInfoItem> = Vec::new();
    let ghost mut n: int = 0;
    while rest.len() > 0
        invariant
            0 <= n <= s.len(),
            records(rest@) == s.skip(n),
            records(out@) == sort_by_usage(s.take(n)),
        decreases rest.len(),
    {
        let ghost old_rest = rest@;
        let x = rest.remove(0);
        proof {
            assert(records(old_rest).len() == old_rest.len());
            assert(records(old_rest)[0] == x@);
            assert(n < s.len());
            assert(s.skip(n)[0] == s[n]);
            assert forall|i: int| 0 <= i < rest@.len() implies records(rest@)[i] == s.skip(n + 1)[i] by {
                assert(rest@[i] == old_rest[i + 1]);
                assert(records(old_rest)[i + 1] == s.skip(n)[i + 1]);
            }
            assert(records(rest@) =~= s.skip(n + 1));
            assert(x@ == s[n]);
            lemma_insert_pos(records(out@), x.usage_sum);
        }
        let mut k: usize = 0;
        while k < out.len() && out[k].usage_sum >= x.usage_sum
            invariant
                k <= out.len(),
                forall|i: int| 0 <= i < k ==> out@[i].usage_sum >= x.usage_sum,
            decreases out.len() - k,
        {
            k = k + 1;
        }
        proof {
            lemma_insert_pos_unique(records(out@), x.usage_sum, k as int);
            assert(s.take(n + 1).drop_last() =~= s.take(n));
            assert(s.take(n + 1).last() == x@);
        }
        let ghost before = out@;
        out.insert(k, x);
        proof {
            assert(records(out@) =~= records(before).insert(k as int, x@));
            n = n + 1;
        }
    }
    assert(s.take(n) =~= s);
    out
}

} // verus!
