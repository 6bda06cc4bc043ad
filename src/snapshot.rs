//! Loading a saved model: the durable parts are checked against the model's
//! invariants, then installed, and the model is locked against live samples.

use std::collections::BTreeMap;

use crate::msg::CpuMsg;
use crate::msg_data::{samples_view, MsgData, MsgDataView, ProcessRecord, ProcessValue};
use crate::plugin::PluginSample;
use crate::threads::records;
use vstd::prelude::*;

verus! {

broadcast use vstd::std_specs::btree::group_btree_axioms, vstd::laws_cmp::group_laws_cmp;

/// The durable parts of a model, as a snapshot file holds them.
pub struct Snapshot {
    pub msg_cpus: Vec<CpuMsg>,
    pub msg_pids: Vec<(u64, ProcessValue)>,
    pub pid_current_thread_num: Vec<(u64, u32)>,
    pub plugin_mem_info: Vec<PluginSample>,
    pub plugin_malloc: Vec<PluginSample>,
}

/// Why a snapshot was refused.
#[derive(PartialEq, Eq, Structural, Clone, Copy, Debug)]
pub enum SnapshotError {
    /// A process repeats a thread id, or its threads are not ordered by
    /// usage, largest first.
    BadThreads,
    /// A plugin sample repeats a key.
    BadPluginSample,
}

/// The process map that a list of pairs stands for (a later pair wins).
pub open spec fn process_map(s: Seq<(u64, ProcessValue)>) -> Map<u64, ProcessRecord>
    decreases s.len(),
{
    if s.len() == 0 {
        Map::empty()
    } else {
        process_map(s.drop_last()).insert(s.last().0, s.last().1@)
    }
}

/// The count map that a list of pairs stands for (a later pair wins).
pub open spec fn count_map(s: Seq<(u64, u32)>) -> Map<u64, u32>
    decreases s.len(),
{
    if s.len() == 0 {
        Map::empty()
    } else {
        count_map(s.drop_last()).insert(s.last().0, s.last().1)
    }
}

impl Snapshot {
    pub open spec fn threads_ok(&self) -> bool {
        forall|i: int| 0 <= i < self.msg_pids@.len() ==> (#[trigger] self.msg_pids@[i]).1.wf()
    }

    pub open spec fn samples_ok(&self) -> bool {
        &&& forall|i: int|
            0 <= i < self.plugin_mem_info@.len() ==> #[trigger] self.plugin_mem_info@[i].wf()
        &&& forall|i: int|
            0 <= i < self.plugin_malloc@.len() ==> #[trigger] self.plugin_malloc@[i].wf()
    }

    /// The model this snapshot describes, locked.
    pub open spec fn loaded_view(&self) -> MsgDataView {
        MsgDataView {
            cpus: self.msg_cpus@.map_values(|m: CpuMsg| m@),
            pids: process_map(self.msg_pids@),
            thread_nums: count_map(self.pid_current_thread_num@),
            plugin_mem_info: samples_view(self.plugin_mem_info@),
            plugin_malloc: samples_view(self.plugin_malloc@),
            locked: true,
        }
    }
}

impl ProcessValue {
    /// Checks that thread ids are unique and ordered by usage.
    pub fn is_well_formed(&self) -> (r: bool)
        ensures
            r == self.wf(),
    {
        let n = self.thread_infos.len();
        let ghost s = records(self.thread_infos@);
        let mut i: usize = 0;
        while i < n
            invariant
                n == self.thread_infos@.len(),
                s == records(self.thread_infos@),
                i <= n,
                forall|a: int, b: int|
                    0 <= a < i && a < b < n ==> s[a].id != s[b].id && s[a].usage_sum
                        >= s[b].usage_sum,
            decreases n - i,
        {
            let mut j: usize = i + 1;
            while j < n
                invariant
                    n == self.thread_infos@.len(),
                    s == records(self.thread_infos@),
                    i < n,
                    i < j <= n,
                    forall|a: int, b: int|
                        0 <= a < i && a < b < n ==> s[a].id != s[b].id && s[a].usage_sum
                            >= s[b].usage_sum,
                    forall|b: int|
                        i < b < j ==> s[i as int].id != s[b].id && s[i as int].usage_sum
                            >= s[b].usage_sum,
                decreases n - j,
            {
                let x = &self.thread_infos[i];
                let y = &self.thread_infos[j];
                if x.id == y.id || x.usage_sum < y.usage_sum {
                    assert(s[i as int].id == s[j as int].id || s[i as int].usage_sum
                        < s[j as int].usage_sum);
                    return false;
                }
                j = j + 1;
            }
            i = i + 1;
        }
        true
    }
}

impl PluginSample {
    /// Checks that no key repeats.
    pub fn is_well_formed(&self) -> (r: bool)
        ensures
            r == self.wf(),
    {
        let n = self.entries.len();
        let mut i: usize = 0;
        while i < n
            invariant
                n == self.entries@.len(),
                i <= n,
                forall|a: int, b: int|
                    0 <= a < i && a < b < n ==> self.entries@[a].0@ != self.entries@[b].0@,
            decreases n - i,
        {
            let mut j: usize = i + 1;
            while j < n
                invariant
                    n == self.entries@.len(),
                    i < n,
                    i < j <= n,
                    forall|a: int, b: int|
                        0 <= a < i && a < b < n ==> self.entries@[a].0@ != self.entries@[b].0@,
                    forall|b: int| i < b < j ==> self.entries@[i as int].0@ != self.entries@[b].0@,
                decreases n - j,
            {
                if self.entries[i].0 == self.entries[j].0 {
                    return false;
                }
                j = j + 1;
            }
            i = i + 1;
        }
        true
    }
}

fn samples_well_formed(v: &Vec<PluginSample>) -> (r: bool)
    ensures
        r == forall|i: int| 0 <= i < v@.len() ==> #[trigger] v@[i].wf(),
{
    let mut i: usize = 0;
    while i < v.len()
        invariant
            i <= v@.len(),
            forall|a: int| 0 <= a < i ==> #[trigger] v@[a].wf(),
        decreases v@.len() - i,
    {
        if !v[i].is_well_formed() {
            return false;
        }
        i = i + 1;
    }
    true
}

/// The keys of a map, each once.
fn map_keys<V>(m: &BTreeMap<u64, V>) -> (r: Vec<u64>)
    ensures
        r@.len() == m@.dom().len(),
        r@.no_duplicates(),
        forall|k: u64| r@.contains(k) <==> m@.contains_key(k),
{
    let mut r: Vec<u64> = Vec::new();
    for k in it: m.keys()
        invariant
            r@ == it.seq().unref().take(it.index() as int),
            it.seq().len() == m@.dom().len(),
            it.seq().unref().no_duplicates(),
            it.seq().unref().to_set() == m@.dom(),
            forall|k: u64| #[trigger] m@.contains_key(k) ==> r@.contains(k) || exists|j: int| it.index() <= j < it.seq().len() && it.seq().unref()[j] == k,
    {
        let ghost before = r@;
        r.push(*k);
        proof {
            assert(r@.contains(*k)) by { assert(r@[r@.len() - 1] == *k); }
            assert forall|x: u64| before.contains(x) implies r@.contains(x) by {
                let j = choose|j: int| 0 <= j < before.len() && before[j] == x;
                assert(r@[j] == x);
            }
        }
    }
    assert(r@.len() == m@.dom().len());
    proof {
        assert forall|k: u64| r@.contains(k) <==> m@.contains_key(k) by {
            assert(r@.to_set().contains(k) <==> r@.contains(k));
        }
    }
    r
}

/// The entries of a map as pairs, each key once.
fn drain_map<V>(m: BTreeMap<u64, V>) -> (r: Vec<(u64, V)>)
    ensures
        forall|a: int, b: int| 0 <= a < b < r@.len() ==> r@[a].0 != r@[b].0,
        forall|a: int| 0 <= a < r@.len() ==> m@.contains_key(#[trigger] r@[a].0) && r@[a].1 == m@[r@[a].0],
        forall|k: u64| m@.contains_key(k) ==> exists|a: int| 0 <= a < r@.len() && #[trigger] r@[a].0 == k,
{
    let keys = map_keys(&m);
    let ghost orig = m@;
    let mut m = m;
    let mut r: Vec<(u64, V)> = Vec::new();
    let mut i: usize = 0;
    while i < keys.len()
        invariant
            i <= keys@.len(),
            keys@.no_duplicates(),
            keys@.len() == orig.dom().len(),
            forall|k: u64| keys@.contains(k) <==> orig.contains_key(k),
            r@.len() == i,
            forall|a: int| 0 <= a < i ==> #[trigger] r@[a].0 == keys@[a] && orig.contains_key(keys@[a]) && r@[a].1 == orig[keys@[a]],
            forall|k: u64| #[trigger] m@.contains_key(k) <==> (orig.contains_key(k) && !(exists|j: int| 0 <= j < i && keys@[j] == k)),
            forall|k: u64| #[trigger] m@.contains_key(k) ==> m@[k] == orig[k],
        decreases keys@.len() - i,
    {
        let key = keys[i];
        proof {
            assert(keys@.contains(key)) by {
                assert(keys@[i as int] == key);
            }
            if exists|j: int| 0 <= j < i && keys@[j] == key {
                let j = choose|j: int| 0 <= j < i && keys@[j] == key;
                assert(keys@[j] == keys@[i as int]);
            }
        }
        let v = m.remove(&key);
        match v {
            Some(v) => {
                r.push((key, v));
            },
            None => {
                assert(false);
            },
        }
        i = i + 1;
    }
    proof {
        assert forall|a: int| 0 <= a < r@.len() implies orig.contains_key(#[trigger] r@[a].0) && r@[a].1
            == orig[r@[a].0] by {
            assert(keys@.contains(keys@[a]));
        }
        assert forall|a: int, b: int| 0 <= a < b < r@.len() implies r@[a].0 != r@[b].0 by {
            assert(r@[a].0 == keys@[a] && r@[b].0 == keys@[b]);
        }
        assert forall|k: u64| orig.contains_key(k) implies exists|a: int| 0 <= a < r@.len() && #[trigger] r@[a].0 == k by {
            assert(keys@.contains(k));
            let j = choose|j: int| 0 <= j < keys@.len() && keys@[j] == k;
            assert(r@[j].0 == k);
        }
    }
    r
}

proof fn lemma_process_map(s: Seq<(u64, ProcessValue)>, k: u64)
    requires
        forall|a: int, b: int| 0 <= a < b < s.len() ==> s[a].0 != s[b].0,
    ensures
        process_map(s).contains_key(k) <==> exists|a: int| 0 <= a < s.len() && s[a].0 == k,
        forall|a: int| 0 <= a < s.len() && s[a].0 == k ==> process_map(s)[k] == s[a].1@,
    decreases s.len(),
{
    if s.len() > 0 {
        let d = s.drop_last();
        lemma_process_map(d, k);
        if exists|a: int| 0 <= a < d.len() && d[a].0 == k {
            let a = choose|a: int| 0 <= a < d.len() && d[a].0 == k;
            assert(s[a].0 == k);
        }
        if exists|a: int| 0 <= a < s.len() && s[a].0 == k {
            let a = choose|a: int| 0 <= a < s.len() && s[a].0 == k;
            if a < s.len() - 1 {
                assert(d[a].0 == k);
            }
        }
        assert forall|a: int| 0 <= a < s.len() && s[a].0 == k implies process_map(s)[k] == s[a].1@ by {
            if a < s.len() - 1 {
                assert(d[a] == s[a]);
            }
        }
    }
}

proof fn lemma_count_map(s: Seq<(u64, u32)>, k: u64)
    requires
        forall|a: int, b: int| 0 <= a < b < s.len() ==> s[a].0 != s[b].0,
    ensures
        count_map(s).contains_key(k) <==> exists|a: int| 0 <= a < s.len() && s[a].0 == k,
        forall|a: int| 0 <= a < s.len() && s[a].0 == k ==> count_map(s)[k] == s[a].1,
    decreases s.len(),
{
    if s.len() > 0 {
        let d = s.drop_last();
        lemma_count_map(d, k);
        if exists|a: int| 0 <= a < d.len() && d[a].0 == k {
            let a = choose|a: int| 0 <= a < d.len() && d[a].0 == k;
            assert(s[a].0 == k);
        }
        if exists|a: int| 0 <= a < s.len() && s[a].0 == k {
            let a = choose|a: int| 0 <= a < s.len() && s[a].0 == k;
            if a < s.len() - 1 {
                assert(d[a].0 == k);
            }
        }
        assert forall|a: int| 0 <= a < s.len() && s[a].0 == k implies count_map(s)[k] == s[a].1 by {
            if a < s.len() - 1 {
                assert(d[a] == s[a]);
            }
        }
    }
}

impl MsgData {
    /// The durable parts of the model, as a snapshot: loading it gives back
    /// this model, locked.
    pub fn into_snapshot(self) -> (r: Snapshot)
        requires
            self.wf(),
        ensures
            r.threads_ok(),
            r.samples_ok(),
            r.loaded_view() == (MsgDataView { locked: true, ..self@ }),
    {
        let ghost view = self@;
        let ghost pids = self.msg_pids@;
        let ghost nums = self.pid_current_thread_num@;
        let MsgData { msg_cpus, msg_pids, pid_current_thread_num, plugin_mem_info, plugin_malloc, has_preload_data: _ } = self;
        let pairs = drain_map(msg_pids);
        let counts = drain_map(pid_current_thread_num);
        proof {
            assert forall|k: u64| process_map(pairs@).contains_key(k) <==> view.pids.contains_key(k) by {
                lemma_process_map(pairs@, k);
                if pids.contains_key(k) {
                    let a = choose|a: int| 0 <= a < pairs@.len() && #[trigger] pairs@[a].0 == k;
                }
            }
            assert forall|k: u64| view.pids.contains_key(k) implies process_map(pairs@)[k] == view.pids[k] by {
                lemma_process_map(pairs@, k);
                let a = choose|a: int| 0 <= a < pairs@.len() && #[trigger] pairs@[a].0 == k;
            }
            assert(process_map(pairs@) =~= view.pids);
            assert forall|k: u64| count_map(counts@).contains_key(k) <==> nums.contains_key(k) by {
                lemma_count_map(counts@, k);
                if nums.contains_key(k) {
                    let a = choose|a: int| 0 <= a < counts@.len() && #[trigger] counts@[a].0 == k;
                }
            }
            assert forall|k: u64| nums.contains_key(k) implies count_map(counts@)[k] == nums[k] by {
                lemma_count_map(counts@, k);
                let a = choose|a: int| 0 <= a < counts@.len() && #[trigger] counts@[a].0 == k;
            }
            assert(count_map(counts@) =~= nums);
        }
        Snapshot {
            msg_cpus,
            msg_pids: pairs,
            pid_current_thread_num: counts,
            plugin_mem_info,
            plugin_malloc,
        }
    }
}

impl MsgData {
    /// Replaces the model with a snapshot and locks it. The snapshot is
    /// refused, and the model left as it is, where a process's threads or a
    /// plugin sample break the model's invariants.
    pub fn load_snapshot(&mut self, snapshot: Snapshot) -> (r: Result<(), SnapshotError>)
        requires
            old(self).wf(),
        ensures
            final(self).wf(),
            match r {
                Ok(()) => snapshot.threads_ok() && snapshot.samples_ok() && final(self)@
                    == snapshot.loaded_view(),
                Err(SnapshotError::BadThreads) => !snapshot.threads_ok() && final(self)@ == old(
                    self,
                )@,
                Err(SnapshotError::BadPluginSample) => snapshot.threads_ok()
                    && !snapshot.samples_ok() && final(self)@ == old(self)@,
            },
    {
        let mut i: usize = 0;
        while i < snapshot.msg_pids.len()
            invariant
                i <= snapshot.msg_pids@.len(),
                self.wf(),
                self@ == old(self)@,
                forall|a: int| 0 <= a < i ==> (#[trigger] snapshot.msg_pids@[a]).1.wf(),
            decreases snapshot.msg_pids@.len() - i,
        {
            if !snapshot.msg_pids[i].1.is_well_formed() {
                return Err(SnapshotError::BadThreads);
            }
            i = i + 1;
        }
        if !samples_well_formed(&snapshot.plugin_mem_info) || !samples_well_formed(
            &snapshot.plugin_malloc,
        ) {
            return Err(SnapshotError::BadPluginSample);
        }
        let Snapshot { msg_cpus, msg_pids, pid_current_thread_num, plugin_mem_info, plugin_malloc } =
            snapshot;
        let ghost pairs = msg_pids@;
        let mut pids: BTreeMap<u64, ProcessValue> = BTreeMap::new();
        let mut rest = msg_pids;
        let ghost mut k: int = 0;
        assert(pids@.map_values(|p: ProcessValue| p@) =~= process_map(pairs.take(0)));
        while rest.len() > 0
            invariant
                0 <= k <= pairs.len(),
                rest@ == pairs.skip(k),
                forall|a: int| 0 <= a < pairs.len() ==> (#[trigger] pairs[a]).1.wf(),
                forall|key: u64| #[trigger] pids@.contains_key(key) ==> pids@[key].wf(),
                pids@.map_values(|p: ProcessValue| p@) == process_map(pairs.take(k)),
            decreases rest.len(),
        {
            let (key, value) = rest.remove(0);
            proof {
                assert(rest@ =~= pairs.skip(k + 1));
                assert(pairs[k] == (key, value));
                assert(pairs.take(k + 1).drop_last() =~= pairs.take(k));
            }
            let ghost before = pids@;
            pids.insert(key, value);
            proof {
                assert(pids@.map_values(|p: ProcessValue| p@) =~= before.map_values(
                    |p: ProcessValue| p@,
                ).insert(key, value@));
                k = k + 1;
            }
        }
        assert(pairs.take(k) =~= pairs);
        let ghost counts = pid_current_thread_num@;
        let mut nums: BTreeMap<u64, u32> = BTreeMap::new();
        let mut rest = pid_current_thread_num;
        let ghost mut k: int = 0;
        assert(nums@ =~= count_map(counts.take(0)));
        while rest.len() > 0
            invariant
                0 <= k <= counts.len(),
                rest@ == counts.skip(k),
                nums@ == count_map(counts.take(k)),
            decreases rest.len(),
        {
            let (key, value) = rest.remove(0);
            proof {
                assert(rest@ =~= counts.skip(k + 1));
                assert(counts[k] == (key, value));
                assert(counts.take(k + 1).drop_last() =~= counts.take(k));
            }
            nums.insert(key, value);
            proof {
                k = k + 1;
            }
        }
        assert(counts.take(k) =~= counts);
        self.msg_cpus = msg_cpus;
        self.msg_pids = pids;
        self.pid_current_thread_num = nums;
        self.plugin_mem_info = plugin_mem_info;
        self.plugin_malloc = plugin_malloc;
        self.has_preload_data = true;
        Ok(())
    }
}

} // verus!
