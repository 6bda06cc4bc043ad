//! Synthetic demo data: one CPU with four cores and one process with four
//! threads, following a waveform that the caller tabulates.

use crate::msg::{
    CpuInfo, CpuMsg, CpuMsgView, CpuSample, MemInfo, ProcessInfo, ProcessMsg, ProcessMsgView,
    ProcessSample, ThreadInfo, ThreadSample, USAGE_SCALE,
};
use crate::msg_data::{empty_view, ingest_process_msg, MsgData, MsgDataView};
use vstd::prelude::*;

verus! {

/// Number of CPU samples, and of process samples, in the demo data.
pub const TEST_SAMPLE_COUNT: usize = 1000;

/// Number of cores of the demo CPU, and of threads of the demo process.
pub const TEST_LANES: u64 = 4;

/// Offset in the waveform between one core (or thread) and the next.
pub const TEST_LANE_SHIFT: usize = 10;

/// Process id of the demo process.
pub const TEST_PID: u64 = 100;

/// Length of waveform table the demo data reads.
pub open spec fn test_wave_len() -> int {
    TEST_SAMPLE_COUNT + TEST_LANE_SHIFT * (TEST_LANES - 1)
}

pub open spec fn core_name(j: int) -> Seq<char> {
    if j == 0 {
        "cpu0"@
    } else if j == 1 {
        "cpu1"@
    } else if j == 2 {
        "cpu2"@
    } else {
        "cpu3"@
    }
}

pub open spec fn thread_name(j: int) -> Seq<char> {
    if j == 0 {
        "thread_0"@
    } else if j == 1 {
        "thread_1"@
    } else if j == 2 {
        "thread_2"@
    } else {
        "thread_3"@
    }
}

/// Usage of lane `j` at sample `i`.
pub open spec fn lane_usage(wave: Seq<u64>, i: int, j: int) -> u64 {
    wave[i + TEST_LANE_SHIFT * j]
}

/// The `i`th demo CPU sample.
pub open spec fn test_cpu_msg(wave: Seq<u64>, i: int) -> CpuMsgView {
    CpuMsgView {
        ave: CpuSample { name: "cpu"@, usage: wave[i], timestamps: i as u64 },
        cores: Seq::new(
            TEST_LANES as nat,
            |j: int|
                CpuSample { name: core_name(j), usage: lane_usage(wave, i, j), timestamps: i as u64 },
        ),
        timestamps: 0,
    }
}

/// Thread `j` of the `i`th demo process sample.
pub open spec fn test_thread(wave: Seq<u64>, i: int, j: int) -> ThreadSample {
    ThreadSample {
        name: thread_name(j),
        id: j as u64,
        usage: lane_usage(wave, i, j),
        timestamps: i as u64,
    }
}

/// The `i`th demo process sample: one process with four threads.
pub open spec fn test_process_msg(wave: Seq<u64>, i: int) -> ProcessMsgView {
    ProcessMsgView {
        infos: seq![
            ProcessSample {
                id: TEST_PID,
                name: "app"@,
                thread_infos: Seq::new(TEST_LANES as nat, |j: int| test_thread(wave, i, j)),
                mem_info: MemInfo {
                    peak: 0,
                    size: 0,
                    hwm: 0,
                    rss: (lane_usage(wave, i, TEST_LANES - 1) / USAGE_SCALE + 1024) as u64,
                    timestamps: i as u64,
                },
            },
        ],
        timestamps: i as u64,
    }
}

/// The model after the first `n` demo CPU samples and process samples, taken
/// in turn, from an empty model.
pub open spec fn replay(wave: Seq<u64>, n: nat) -> MsgDataView
    decreases n,
{
    if n == 0 {
        empty_view()
    } else {
        let v = replay(wave, (n - 1) as nat);
        ingest_process_msg(
            MsgDataView { cpus: v.cpus.push(test_cpu_msg(wave, n - 1)), ..v },
            test_process_msg(wave, n - 1),
        )
    }
}

/// The demo model: all demo samples taken in from an empty model, then
/// locked. It depends on the waveform alone.
pub open spec fn test_data_view(wave: Seq<u64>) -> MsgDataView {
    MsgDataView { locked: true, ..replay(wave, TEST_SAMPLE_COUNT as nat) }
}

fn core_name_of(j: u64) -> (r: String)
    requires
        j < TEST_LANES,
    ensures
        r@ == core_name(j as int),
{
    if j == 0 {
        "cpu0".to_owned()
    } else if j == 1 {
        "cpu1".to_owned()
    } else if j == 2 {
        "cpu2".to_owned()
    } else {
        "cpu3".to_owned()
    }
}

fn thread_name_of(j: u64) -> (r: String)
    requires
        j < TEST_LANES,
    ensures
        r@ == thread_name(j as int),
{
    if j == 0 {
        "thread_0".to_owned()
    } else if j == 1 {
        "thread_1".to_owned()
    } else if j == 2 {
        "thread_2".to_owned()
    } else {
        "thread_3".to_owned()
    }
}

fn make_test_cpu_msg(wave: &Vec<u64>, i: usize) -> (m: CpuMsg)
    requires
        i < TEST_SAMPLE_COUNT,
        wave@.len() >= test_wave_len(),
    ensures
        m@ == test_cpu_msg(wave@, i as int),
{
    let mut cores: Vec<CpuInfo> = Vec::new();
    let mut j: u64 = 0;
    while j < TEST_LANES
        invariant
            j <= TEST_LANES,
            i < TEST_SAMPLE_COUNT,
            wave@.len() >= test_wave_len(),
            cores@.len() == j,
            forall|l: int|
                0 <= l < j ==> (#[trigger] cores@[l])@ == test_cpu_msg(wave@, i as int).cores[l],
        decreases TEST_LANES - j,
    {
        let usage = wave[i + TEST_LANE_SHIFT * (j as usize)];
        cores.push(CpuInfo { name: core_name_of(j), usage, timestamps: i as u64 });
        j = j + 1;
    }
    let m = CpuMsg {
        ave: CpuInfo { name: "cpu".to_owned(), usage: wave[i], timestamps: i as u64 },
        cores,
        timestamps: 0,
    };
    assert(m@.cores =~= test_cpu_msg(wave@, i as int).cores);
    m
}

fn make_test_process_msg(wave: &Vec<u64>, i: usize) -> (m: ProcessMsg)
    requires
        i < TEST_SAMPLE_COUNT,
        wave@.len() >= test_wave_len(),
    ensures
        m@ == test_process_msg(wave@, i as int),
{
    let mut threads: Vec<ThreadInfo> = Vec::new();
    let mut j: u64 = 0;
    while j < TEST_LANES
        invariant
            j <= TEST_LANES,
            i < TEST_SAMPLE_COUNT,
            wave@.len() >= test_wave_len(),
            threads@.len() == j,
            forall|l: int| 0 <= l < j ==> (#[trigger] threads@[l])@ == test_thread(wave@, i as int, l),
        decreases TEST_LANES - j,
    {
        let usage = wave[i + TEST_LANE_SHIFT * (j as usize)];
        threads.push(ThreadInfo { name: thread_name_of(j), id: j, usage, timestamps: i as u64 });
        j = j + 1;
    }
    let last = wave[i + TEST_LANE_SHIFT * ((TEST_LANES - 1) as usize)];
    let mem_info = MemInfo {
        peak: 0,
        size: 0,
        hwm: 0,
        rss: last / USAGE_SCALE + 1024,
        timestamps: i as u64,
    };
    let p = ProcessInfo { id: TEST_PID, name: "app".to_owned(), thread_infos: threads, mem_info };
    assert(p@.thread_infos =~= test_process_msg(wave@, i as int).infos[0].thread_infos);
    let mut infos: Vec<ProcessInfo> = Vec::new();
    infos.push(p);
    let m = ProcessMsg { infos, timestamps: i as u64 };
    assert(m@.infos =~= test_process_msg(wave@, i as int).infos);
    m
}

impl MsgData {
    /// Replaces the model with demo data and locks it: `TEST_SAMPLE_COUNT`
    /// CPU samples of four cores and as many samples of one process with
    /// four threads. `wave` holds the usage waveform in `USAGE_SCALE` units;
    /// lane `j` at sample `i` reads `wave[i + 10 * j]`.
    pub fn create_test_data(&mut self, wave: &Vec<u64>)
        requires
            wave@.len() >= test_wave_len(),
        ensures
            final(self).wf(),
            final(self)@ == test_data_view(wave@),
    {
        self.clear();
        let mut i: usize = 0;
        while i < TEST_SAMPLE_COUNT
            invariant
                i <= TEST_SAMPLE_COUNT,
                wave@.len() >= test_wave_len(),
                self.wf(),
                self@ == replay(wave@, i as nat),
                !self.has_preload_data,
            decreases TEST_SAMPLE_COUNT - i,
        {
            let cm = make_test_cpu_msg(wave, i);
            let pm = make_test_process_msg(wave, i);
            self.process_cpu_msg(cm);
            self.process_process_msg(pm);
            i = i + 1;
        }
        self.has_preload_data = true;
    }
}

} // verus!
