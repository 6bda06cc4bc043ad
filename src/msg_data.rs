//! The aggregated telemetry model and the operations that fold samples into it.

use std::collections::BTreeMap;

use crate::msg::{
    CpuMsg, CpuMsgView, MemInfo, PluginMsgMalloc, PluginMsgMemInfo, ProcessInfo, ProcessMsg,
    ProcessMsgView, ProcessSample, ThreadInfo, ThreadSample,
};
use crate::plugin::PluginSample;
use crate::threads::{
    add_samples, add_thread_sample, capped, ids_unique, lemma_thread_usage_accumulates, records,
    samples_for, sort_by_usage, sort_threads, sorted_by_usage, thread_samples, thread_usage,
    usage_total, ThreadInfoItem,
    ThreadRecord,
};
use vstd::prelude::*;

verus! {

broadcast use vstd::std_specs::btree::group_btree_axioms, vstd::laws_cmp::group_laws_cmp;

/// Everything known of one process.
pub struct ProcessValue {
    pub name: String,
    pub thread_infos: Vec<ThreadInfoItem>,
    pub mem_infos: Vec<MemInfo>,
    pub max_rss: u64,
}

/// Mathematical value of a `ProcessValue`.
pub struct ProcessRecord {
    pub name: Seq<char>,
    pub threads: Seq<ThreadRecord>,
    pub mem_infos: Seq<MemInfo>,
    pub max_rss: u64,
}

impl View for ProcessValue {
    type V = ProcessRecord;

    open spec fn view(&self) -> ProcessRecord {
        ProcessRecord {
            name: self.name@,
            threads: records(self.thread_infos@),
            mem_infos: self.mem_infos@,
            max_rss: self.max_rss,
        }
    }
}

impl ProcessValue {
    /// Thread ids are unique and records are ordered by usage, largest first.
    pub open spec fn wf(&self) -> bool {
        ids_unique(records(self.thread_infos@)) && sorted_by_usage(records(self.thread_infos@))
    }

    pub fn new() -> (r: ProcessValue)
        ensures
            r.wf(),
            r@ == empty_process(),
    {
        let r = ProcessValue {
            name: String::new(),
            thread_infos: Vec::new(),
            mem_infos: Vec::new(),
            max_rss: 0,
        };
        assert(records(r.thread_infos@) =~= Seq::<ThreadRecord>::empty());
        r
    }
}

pub open spec fn empty_process() -> ProcessRecord {
    ProcessRecord { name: Seq::empty(), threads: Seq::empty(), mem_infos: Seq::empty(), max_rss: 0 }
}

/// Mathematical value of the whole model.
pub struct MsgDataView {
    pub cpus: Seq<CpuMsgView>,
    pub pids: Map<u64, ProcessRecord>,
    pub thread_nums: Map<u64, u32>,
    pub plugin_mem_info: Seq<Map<Seq<char>, u64>>,
    pub plugin_malloc: Seq<Map<Seq<char>, u64>>,
    pub locked: bool,
}

pub open spec fn empty_view() -> MsgDataView {
    MsgDataView {
        cpus: Seq::empty(),
        pids: Map::empty(),
        thread_nums: Map::empty(),
        plugin_mem_info: Seq::empty(),
        plugin_malloc: Seq::empty(),
        locked: false,
    }
}

pub open spec fn samples_view(s: Seq<PluginSample>) -> Seq<Map<Seq<char>, u64>> {
    s.map_values(|x: PluginSample| x@)
}

/// The larger of two values.
pub open spec fn max_u64(a: u64, b: u64) -> u64 {
    if a >= b {
        a
    } else {
        b
    }
}

/// One process record folded into a process's history.
pub open spec fn fold_process(old: ProcessRecord, p: ProcessSample) -> ProcessRecord {
    ProcessRecord {
        name: p.name,
        threads: sort_by_usage(add_samples(old.threads, p.thread_infos)),
        mem_infos: old.mem_infos.push(p.mem_info),
        max_rss: max_u64(old.max_rss, p.mem_info.rss),
    }
}

pub open spec fn process_or_empty(pids: Map<u64, ProcessRecord>, id: u64) -> ProcessRecord {
    if pids.contains_key(id) {
        pids[id]
    } else {
        empty_process()
    }
}

/// The process records of a batch folded in, in order.
pub open spec fn fold_processes(pids: Map<u64, ProcessRecord>, ps: Seq<ProcessSample>) -> Map<
    u64,
    ProcessRecord,
>
    decreases ps.len(),
{
    if ps.len() == 0 {
        pids
    } else {
        let m = fold_processes(pids, ps.drop_last());
        let p = ps.last();
        m.insert(p.id, fold_process(process_or_empty(m, p.id), p))
    }
}

/// The current thread count of each process of a batch, the later record
/// winning.
pub open spec fn fold_thread_nums(nums: Map<u64, u32>, ps: Seq<ProcessSample>) -> Map<u64, u32>
    decreases ps.len(),
{
    if ps.len() == 0 {
        nums
    } else {
        fold_thread_nums(nums, ps.drop_last()).insert(
            ps.last().id,
            ps.last().thread_infos.len() as u32,
        )
    }
}

/// The model after a process sample is taken in.
pub open spec fn ingest_process_msg(v: MsgDataView, msg: ProcessMsgView) -> MsgDataView {
    MsgDataView {
        pids: fold_processes(v.pids, msg.infos),
        thread_nums: fold_thread_nums(v.thread_nums, msg.infos),
        ..v
    }
}

/// Value stored under a key, 0 where there is none.
pub open spec fn value_or_zero(m: Map<Seq<char>, u64>, k: Seq<char>) -> u64 {
    if m.contains_key(k) {
        m[k]
    } else {
        0
    }
}

/// A memory information sample with `SwapUsed = SwapTotal - SwapFree` added
/// (a missing figure counts as 0; the difference stops at 0).
pub open spec fn with_swap_used(m: Map<Seq<char>, u64>) -> Map<Seq<char>, u64> {
    let total = value_or_zero(m, "SwapTotal"@);
    let free = value_or_zero(m, "SwapFree"@);
    m.insert("SwapUsed"@, if total >= free { (total - free) as u64 } else { 0 })
}

/// Largest of `start` and the values of `s`, taken in order.
pub open spec fn fold_max(start: u64, s: Seq<u64>) -> u64
    decreases s.len(),
{
    if s.len() == 0 {
        start
    } else {
        max_u64(fold_max(start, s.drop_last()), s.last())
    }
}

/// Resident set sizes of the records of process `id` in a batch, in order.
pub open spec fn rss_of(ps: Seq<ProcessSample>, id: u64) -> Seq<u64>
    decreases ps.len(),
{
    if ps.len() == 0 {
        Seq::empty()
    } else if ps.last().id == id {
        rss_of(ps.drop_last(), id).push(ps.last().mem_info.rss)
    } else {
        rss_of(ps.drop_last(), id)
    }
}

proof fn lemma_fold_max_bounds(start: u64, s: Seq<u64>)
    ensures
        fold_max(start, s) >= start,
        forall|i: int| 0 <= i < s.len() ==> fold_max(start, s) >= s[i],
        fold_max(start, s) == start || s.contains(fold_max(start, s)),
    decreases s.len(),
{
    if s.len() > 0 {
        let d = s.drop_last();
        lemma_fold_max_bounds(start, d);
        assert forall|i: int| 0 <= i < s.len() implies fold_max(start, s) >= s[i] by {
            if i < s.len() - 1 {
                assert(d[i] == s[i]);
            }
        }
        if fold_max(start, s) != start {
            if fold_max(start, s) == s.last() {
                assert(s[s.len() - 1] == s.last());
            } else {
                let j = choose|j: int| 0 <= j < d.len() && d[j] == fold_max(start, d);
                assert(s[j] == d[j]);
            }
        }
    }
}

/// The maximum resident set size is independent of the order of the values
/// folded in: the same multiset of values gives the same maximum.
pub proof fn lemma_max_rss_order_free(start: u64, a: Seq<u64>, b: Seq<u64>)
    requires
        a.to_multiset() == b.to_multiset(),
    ensures
        fold_max(start, a) == fold_max(start, b),
{
    broadcast use vstd::seq_lib::group_to_multiset_ensures;

    lemma_fold_max_bounds(start, a);
    lemma_fold_max_bounds(start, b);
    let x = fold_max(start, a);
    let y = fold_max(start, b);
    if x != start {
        assert(a.to_multiset().count(x) > 0);
        assert(b.contains(x));
    }
    if y != start {
        assert(b.to_multiset().count(y) > 0);
        assert(a.contains(y));
    }
}

/// Folding a batch in raises each process's maximum resident set size to the
/// largest of its records' sizes.
pub proof fn lemma_max_rss_folds(pids: Map<u64, ProcessRecord>, ps: Seq<ProcessSample>, id: u64)
    ensures
        process_or_empty(fold_processes(pids, ps), id).max_rss == fold_max(
            process_or_empty(pids, id).max_rss,
            rss_of(ps, id),
        ),
    decreases ps.len(),
{
    if ps.len() > 0 {
        let d = ps.drop_last();
        lemma_max_rss_folds(pids, d, id);
        if ps.last().id == id {
            assert(rss_of(ps, id).drop_last() =~= rss_of(d, id));
        }
    }
}

/// A process's maximum resident set size after a batch depends only on the
/// multiset of its records' sizes, not on their order.
pub proof fn lemma_max_rss_reordered(
    pids: Map<u64, ProcessRecord>,
    ps: Seq<ProcessSample>,
    qs: Seq<ProcessSample>,
    id: u64,
)
    requires
        rss_of(ps, id).to_multiset() == rss_of(qs, id).to_multiset(),
    ensures
        process_or_empty(fold_processes(pids, ps), id).max_rss == process_or_empty(
            fold_processes(pids, qs),
            id,
        ).max_rss,
{
    lemma_max_rss_folds(pids, ps, id);
    lemma_max_rss_folds(pids, qs, id);
    lemma_max_rss_order_free(process_or_empty(pids, id).max_rss, rss_of(ps, id), rss_of(qs, id));
}

/// The model after a sequence of process samples, each taken in.
pub open spec fn ingest_process_msgs(v: MsgDataView, ms: Seq<ProcessMsgView>) -> MsgDataView
    decreases ms.len(),
{
    if ms.len() == 0 {
        v
    } else {
        ingest_process_msg(ingest_process_msgs(v, ms.drop_last()), ms.last())
    }
}

/// Resident set sizes of process `id` over a sequence of samples, in order.
pub open spec fn msgs_rss(ms: Seq<ProcessMsgView>, id: u64) -> Seq<u64>
    decreases ms.len(),
{
    if ms.len() == 0 {
        Seq::empty()
    } else {
        msgs_rss(ms.drop_last(), id) + rss_of(ms.last().infos, id)
    }
}

/// Thread entries submitted for process `id` in a batch, in order.
pub open spec fn infos_threads(ps: Seq<ProcessSample>, id: u64) -> Seq<ThreadSample>
    decreases ps.len(),
{
    if ps.len() == 0 {
        Seq::empty()
    } else if ps.last().id == id {
        infos_threads(ps.drop_last(), id) + ps.last().thread_infos
    } else {
        infos_threads(ps.drop_last(), id)
    }
}

/// Thread entries submitted for process `id` over a sequence of samples.
pub open spec fn msgs_threads(ms: Seq<ProcessMsgView>, id: u64) -> Seq<ThreadSample>
    decreases ms.len(),
{
    if ms.len() == 0 {
        Seq::empty()
    } else {
        msgs_threads(ms.drop_last(), id) + infos_threads(ms.last().infos, id)
    }
}

proof fn lemma_fold_max_concat(start: u64, a: Seq<u64>, b: Seq<u64>)
    ensures
        fold_max(start, a + b) == fold_max(fold_max(start, a), b),
    decreases b.len(),
{
    if b.len() > 0 {
        assert((a + b).drop_last() =~= a + b.drop_last());
        lemma_fold_max_concat(start, a, b.drop_last());
    }
}

proof fn lemma_usage_total_concat(a: Seq<ThreadSample>, b: Seq<ThreadSample>, id: u64)
    ensures
        usage_total(a + b, id) == usage_total(a, id) + usage_total(b, id),
    decreases b.len(),
{
    if b.len() > 0 {
        assert((a + b).drop_last() =~= a + b.drop_last());
        lemma_usage_total_concat(a, b.drop_last(), id);
    }
}

/// Over any sequence of process samples, a process's maximum resident set
/// size is the largest of its size before them and all sizes submitted for
/// it.
pub proof fn lemma_max_rss_over_msgs(v: MsgDataView, ms: Seq<ProcessMsgView>, id: u64)
    ensures
        process_or_empty(ingest_process_msgs(v, ms).pids, id).max_rss == fold_max(
            process_or_empty(v.pids, id).max_rss,
            msgs_rss(ms, id),
        ),
    decreases ms.len(),
{
    if ms.len() > 0 {
        let d = ms.drop_last();
        lemma_max_rss_over_msgs(v, d, id);
        lemma_max_rss_folds(ingest_process_msgs(v, d).pids, ms.last().infos, id);
        lemma_fold_max_concat(
            process_or_empty(v.pids, id).max_rss,
            msgs_rss(d, id),
            rss_of(ms.last().infos, id),
        );
    }
}

/// Two sequences of process samples that submit the same multiset of
/// resident set sizes for a process, in any order, leave it the same maximum:
/// the largest of its size before them and those sizes.
pub proof fn lemma_max_rss_msgs_reordered(
    v: MsgDataView,
    ms1: Seq<ProcessMsgView>,
    ms2: Seq<ProcessMsgView>,
    id: u64,
)
    requires
        msgs_rss(ms1, id).to_multiset() == msgs_rss(ms2, id).to_multiset(),
    ensures
        process_or_empty(ingest_process_msgs(v, ms1).pids, id).max_rss == process_or_empty(
            ingest_process_msgs(v, ms2).pids,
            id,
        ).max_rss,
        process_or_empty(ingest_process_msgs(v, ms1).pids, id).max_rss == fold_max(
            process_or_empty(v.pids, id).max_rss,
            msgs_rss(ms1, id),
        ),
{
    lemma_max_rss_over_msgs(v, ms1, id);
    lemma_max_rss_over_msgs(v, ms2, id);
    lemma_max_rss_order_free(process_or_empty(v.pids, id).max_rss, msgs_rss(ms1, id), msgs_rss(ms2, id));
}

proof fn lemma_samples_for_concat(a: Seq<ThreadSample>, b: Seq<ThreadSample>, id: u64)
    ensures
        samples_for(a + b, id) == samples_for(a, id) + samples_for(b, id),
    decreases b.len(),
{
    if b.len() == 0 {
        assert(a + b =~= a);
        assert(samples_for(a, id) + samples_for(b, id) =~= samples_for(a, id));
    } else {
        assert((a + b).drop_last() =~= a + b.drop_last());
        lemma_samples_for_concat(a, b.drop_last(), id);
        if b.last().id == id {
            assert((samples_for(a, id) + samples_for(b.drop_last(), id)).push(b.last())
                =~= samples_for(a, id) + samples_for(b.drop_last(), id).push(b.last()));
        }
    }
}

proof fn lemma_capped_twice(x: int, y: int)
    requires
        x >= 0,
        y >= 0,
    ensures
        capped(capped(x) + y) == capped(x + y),
{
}

proof fn lemma_threads_over_infos(pids: Map<u64, ProcessRecord>, ps: Seq<ProcessSample>, pid: u64, tid: u64)
    requires
        ids_unique(process_or_empty(pids, pid).threads),
        sorted_by_usage(process_or_empty(pids, pid).threads),
    ensures
        ids_unique(process_or_empty(fold_processes(pids, ps), pid).threads),
        sorted_by_usage(process_or_empty(fold_processes(pids, ps), pid).threads),
        thread_usage(process_or_empty(fold_processes(pids, ps), pid).threads, tid) == capped(
            thread_usage(process_or_empty(pids, pid).threads, tid) + usage_total(
                infos_threads(ps, pid),
                tid,
            ),
        ),
        thread_samples(process_or_empty(fold_processes(pids, ps), pid).threads, tid)
            == thread_samples(process_or_empty(pids, pid).threads, tid) + samples_for(
            infos_threads(ps, pid),
            tid,
        ),
    decreases ps.len(),
{
    if ps.len() == 0 {
        assert(thread_samples(process_or_empty(pids, pid).threads, tid) + samples_for(
            infos_threads(ps, pid),
            tid,
        ) =~= thread_samples(process_or_empty(pids, pid).threads, tid));
    }
    if ps.len() > 0 {
        let d = ps.drop_last();
        let p = ps.last();
        lemma_threads_over_infos(pids, d, pid, tid);
        let before = process_or_empty(fold_processes(pids, d), pid).threads;
        if p.id == pid {
            lemma_thread_usage_accumulates(before, p.thread_infos, tid);
            lemma_usage_total_concat(infos_threads(d, pid), p.thread_infos, tid);
            lemma_samples_for_concat(infos_threads(d, pid), p.thread_infos, tid);
            assert(thread_samples(process_or_empty(pids, pid).threads, tid) + samples_for(
                infos_threads(d, pid),
                tid,
            ) + samples_for(p.thread_infos, tid) =~= thread_samples(
                process_or_empty(pids, pid).threads,
                tid,
            ) + (samples_for(infos_threads(d, pid), tid) + samples_for(p.thread_infos, tid)));
            lemma_capped_twice(
                thread_usage(process_or_empty(pids, pid).threads, tid) + usage_total(
                    infos_threads(d, pid),
                    tid,
                ),
                usage_total(p.thread_infos, tid) as int,
            );
        }
    }
}

/// Over any sequence of process samples, each thread's cumulative usage is
/// its usage before them plus the exact sum of all usage submitted for its
/// id in that process (held at `u64::MAX`), its samples are followed by all
/// entries submitted for it, in submission order, and the process's records
/// stay ordered by usage, largest first, with unique ids.
pub proof fn lemma_thread_usage_over_msgs(v: MsgDataView, ms: Seq<ProcessMsgView>, pid: u64, tid: u64)
    requires
        ids_unique(process_or_empty(v.pids, pid).threads),
        sorted_by_usage(process_or_empty(v.pids, pid).threads),
    ensures
        ids_unique(process_or_empty(ingest_process_msgs(v, ms).pids, pid).threads),
        sorted_by_usage(process_or_empty(ingest_process_msgs(v, ms).pids, pid).threads),
        thread_usage(process_or_empty(ingest_process_msgs(v, ms).pids, pid).threads, tid)
            == capped(
            thread_usage(process_or_empty(v.pids, pid).threads, tid) + usage_total(
                msgs_threads(ms, pid),
                tid,
            ),
        ),
        thread_samples(process_or_empty(ingest_process_msgs(v, ms).pids, pid).threads, tid)
            == thread_samples(process_or_empty(v.pids, pid).threads, tid) + samples_for(
            msgs_threads(ms, pid),
            tid,
        ),
    decreases ms.len(),
{
    if ms.len() == 0 {
        assert(thread_samples(process_or_empty(v.pids, pid).threads, tid) + samples_for(
            msgs_threads(ms, pid),
            tid,
        ) =~= thread_samples(process_or_empty(v.pids, pid).threads, tid));
    } else {
        let d = ms.drop_last();
        lemma_thread_usage_over_msgs(v, d, pid, tid);
        lemma_threads_over_infos(ingest_process_msgs(v, d).pids, ms.last().infos, pid, tid);
        lemma_usage_total_concat(msgs_threads(d, pid), infos_threads(ms.last().infos, pid), tid);
        lemma_samples_for_concat(msgs_threads(d, pid), infos_threads(ms.last().infos, pid), tid);
        assert(thread_samples(process_or_empty(v.pids, pid).threads, tid) + samples_for(
            msgs_threads(d, pid),
            tid,
        ) + samples_for(infos_threads(ms.last().infos, pid), tid) =~= thread_samples(
            process_or_empty(v.pids, pid).threads,
            tid,
        ) + (samples_for(msgs_threads(d, pid), tid) + samples_for(
            infos_threads(ms.last().infos, pid),
            tid,
        )));
        lemma_capped_twice(
            thread_usage(process_or_empty(v.pids, pid).threads, tid) + usage_total(
                msgs_threads(d, pid),
                tid,
            ),
            usage_total(infos_threads(ms.last().infos, pid), tid) as int,
        );
    }
}

/// The aggregated telemetry of one run.
pub struct MsgData {
    pub msg_cpus: Vec<CpuMsg>,
    pub msg_pids: BTreeMap<u64, ProcessValue>,
    pub pid_current_thread_num: BTreeMap<u64, u32>,
    pub plugin_mem_info: Vec<PluginSample>,
    pub plugin_malloc: Vec<PluginSample>,
    /// Set once a snapshot is loaded or test data is made: live CPU and
    /// process samples are then dropped until the model is cleared.
    pub has_preload_data: bool,
}

impl View for MsgData {
    type V = MsgDataView;

    open spec fn view(&self) -> MsgDataView {
        MsgDataView {
            cpus: self.msg_cpus@.map_values(|m: CpuMsg| m@),
            pids: self.msg_pids@.map_values(|p: ProcessValue| p@),
            thread_nums: self.pid_current_thread_num@,
            plugin_mem_info: samples_view(self.plugin_mem_info@),
            plugin_malloc: samples_view(self.plugin_malloc@),
            locked: self.has_preload_data,
        }
    }
}

impl MsgData {
    /// Every process keeps unique, ordered thread records; every plugin
    /// sample keeps unique keys.
    pub open spec fn wf(&self) -> bool {
        &&& forall|k: u64| #[trigger]
            self.msg_pids@.contains_key(k) ==> self.msg_pids@[k].wf()
        &&& forall|i: int|
            0 <= i < self.plugin_mem_info@.len() ==> #[trigger] self.plugin_mem_info@[i].wf()
        &&& forall|i: int|
            0 <= i < self.plugin_malloc@.len() ==> #[trigger] self.plugin_malloc@[i].wf()
    }

    /// An empty, unlocked model.
    pub fn new() -> (r: MsgData)
        ensures
            r.wf(),
            r@ == empty_view(),
    {
        let r = MsgData {
            msg_cpus: Vec::new(),
            msg_pids: BTreeMap::new(),
            pid_current_thread_num: BTreeMap::new(),
            plugin_mem_info: Vec::new(),
            plugin_malloc: Vec::new(),
            has_preload_data: false,
        };
        assert(r@.pids =~= Map::<u64, ProcessRecord>::empty());
        assert(r@.cpus =~= Seq::<CpuMsgView>::empty());
        assert(samples_view(r.plugin_mem_info@) =~= Seq::<Map<Seq<char>, u64>>::empty());
        assert(samples_view(r.plugin_malloc@) =~= Seq::<Map<Seq<char>, u64>>::empty());
        r
    }

    /// Empties every collection and unlocks the model.
    pub fn clear(&mut self)
        ensures
            final(self).wf(),
            final(self)@ == empty_view(),
    {
        self.msg_cpus.clear();
        self.msg_pids.clear();
        self.pid_current_thread_num.clear();
        self.plugin_mem_info.clear();
        self.plugin_malloc.clear();
        self.has_preload_data = false;
        assert(self@.pids =~= Map::<u64, ProcessRecord>::empty());
        assert(self@.cpus =~= Seq::<CpuMsgView>::empty());
        assert(samples_view(self.plugin_mem_info@) =~= Seq::<Map<Seq<char>, u64>>::empty());
        assert(samples_view(self.plugin_malloc@) =~= Seq::<Map<Seq<char>, u64>>::empty());
    }

    /// Appends a CPU sample, unless the model is locked; returns whether it
    /// was taken.
    pub fn process_cpu_msg(&mut self, msg: CpuMsg) -> (r: bool)
        requires
            old(self).wf(),
        ensures
            final(self).wf(),
            r == !old(self)@.locked,
            r ==> final(self)@ == (MsgDataView { cpus: old(self)@.cpus.push(msg@), ..old(self)@ }),
            !r ==> final(self)@ == old(self)@,
    {
        if self.has_preload_data {
            return false;
        }
        let ghost before = self.msg_cpus@;
        let ghost mv = msg@;
        self.msg_cpus.push(msg);
        assert(self.msg_cpus@.map_values(|m: CpuMsg| m@) =~= before.map_values(|m: CpuMsg| m@).push(
            mv,
        ));
        true
    }

    /// Folds one process record in.
    fn process_process_info(&mut self, p: ProcessInfo)
        requires
            old(self).wf(),
        ensures
            final(self).wf(),
            final(self)@ == (MsgDataView {
                pids: old(self)@.pids.insert(
                    p.id,
                    fold_process(process_or_empty(old(self)@.pids, p.id), p@),
                ),
                thread_nums: old(self)@.thread_nums.insert(p.id, p.thread_infos@.len() as u32),
                ..old(self)@
            }),
    {
        let ghost old_view = self@;
        let ghost pin = p;
        let ProcessInfo { id, name, thread_infos, mem_info } = p;
        let pv = match self.msg_pids.remove(&id) {
            Some(v) => v,
            None => ProcessValue::new(),
        };
        proof {
            assert(pv@ == process_or_empty(old_view.pids, id));
            assert(pv.wf());
        }
        let n = thread_infos.len() as u32;
        self.pid_current_thread_num.insert(id, n);
        let ProcessValue { name: _, thread_infos: mut threads, mut mem_infos, max_rss } = pv;
        let ghost start = records(threads@);
        let ghost ts = thread_infos@;
        let ghost tsv = ts.map_values(|x: ThreadInfo| x@);
        let mut rest = thread_infos;
        let ghost mut k: int = 0;
        while rest.len() > 0
            invariant
                0 <= k <= ts.len(),
                rest@ == ts.skip(k),
                ids_unique(records(threads@)),
                tsv == ts.map_values(|x: ThreadInfo| x@),
                records(threads@) == add_samples(start, tsv.take(k)),
            decreases rest.len(),
        {
            let t = rest.remove(0);
            proof {
                assert(rest@ =~= ts.skip(k + 1));
                assert(t == ts[k]);
                assert(tsv.take(k + 1).drop_last() =~= tsv.take(k));
                assert(tsv.take(k + 1).last() == t@);
            }
            add_thread_sample(&mut threads, t);
            proof {
                k = k + 1;
            }
        }
        proof {
            assert(tsv.take(k) =~= tsv);
            lemma_thread_usage_accumulates(start, tsv, 0);
        }
        let threads = sort_threads(threads);
        mem_infos.push(mem_info);
        let max_rss = if max_rss >= mem_info.rss {
            max_rss
        } else {
            mem_info.rss
        };
        let nv = ProcessValue { name, thread_infos: threads, mem_infos, max_rss };
        assert(nv@ == fold_process(process_or_empty(old_view.pids, id), pin@));
        self.msg_pids.insert(id, nv);
        proof {
            assert(self@.pids =~= old_view.pids.insert(id, nv@));
        }
    }

    /// Folds a process sample in, record by record, unless the model is
    /// locked; returns whether it was taken.
    pub fn process_process_msg(&mut self, msg: ProcessMsg) -> (r: bool)
        requires
            old(self).wf(),
        ensures
            final(self).wf(),
            r == !old(self)@.locked,
            r ==> final(self)@ == ingest_process_msg(old(self)@, msg@),
            !r ==> final(self)@ == old(self)@,
    {
        if self.has_preload_data {
            return false;
        }
        let ghost old_view = self@;
        let ghost all = msg.infos@;
        let ghost allv = msg@.infos;
        let ProcessMsg { infos, timestamps: _ } = msg;
        let mut rest = infos;
        let ghost mut k: int = 0;
        while rest.len() > 0
            invariant
                0 <= k <= all.len(),
                rest@ == all.skip(k),
                allv == all.map_values(|x: ProcessInfo| x@),
                self.wf(),
                self@ == (MsgDataView {
                    pids: fold_processes(old_view.pids, allv.take(k)),
                    thread_nums: fold_thread_nums(old_view.thread_nums, allv.take(k)),
                    ..old_view
                }),
            decreases rest.len(),
        {
            let p = rest.remove(0);
            proof {
                assert(rest@ =~= all.skip(k + 1));
                assert(p == all[k]);
                assert(allv.take(k + 1).drop_last() =~= allv.take(k));
                assert(allv.take(k + 1).last() == p@);
            }
            self.process_process_info(p);
            proof {
                k = k + 1;
            }
        }
        assert(allv.take(k) =~= allv);
        true
    }

    /// Parses malloc plugin text and appends the sample; taken whether or
    /// not the model is locked.
    pub fn process_plugin_malloc(&mut self, msg: PluginMsgMalloc)
        requires
            old(self).wf(),
        ensures
            final(self).wf(),
            final(self)@ == (MsgDataView {
                plugin_malloc: old(self)@.plugin_malloc.push(
                    crate::plugin::parsed_sample(msg.text@, msg.timestamps),
                ),
                ..old(self)@
            }),
    {
        let sample = PluginSample::parse(msg.text.as_str(), msg.timestamps);
        let ghost before = self.plugin_malloc@;
        self.plugin_malloc.push(sample);
        assert(samples_view(self.plugin_malloc@) =~= samples_view(before).push(sample@));
    }

    /// Parses memory information plugin text, adds `SwapUsed`, and appends
    /// the sample; taken whether or not the model is locked.
    pub fn process_plugin_mem_info(&mut self, msg: PluginMsgMemInfo)
        requires
            old(self).wf(),
        ensures
            final(self).wf(),
            final(self)@ == (MsgDataView {
                plugin_mem_info: old(self)@.plugin_mem_info.push(
                    with_swap_used(crate::plugin::parsed_sample(msg.text@, msg.timestamps)),
                ),
                ..old(self)@
            }),
    {
        let mut sample = PluginSample::parse(msg.text.as_str(), msg.timestamps);
        let total = match sample.get("SwapTotal") {
            Some(v) => v,
            None => 0,
        };
        let free = match sample.get("SwapFree") {
            Some(v) => v,
            None => 0,
        };
        let used = if total >= free {
            total - free
        } else {
            0
        };
        sample.insert("SwapUsed".to_owned(), used);
        let ghost before = self.plugin_mem_info@;
        self.plugin_mem_info.push(sample);
        assert(samples_view(self.plugin_mem_info@) =~= samples_view(before).push(sample@));
    }
}

} // verus!
