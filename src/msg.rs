//! Telemetry messages as they arrive from the remote agent.
//!
//! Usage figures are fixed-point: `USAGE_SCALE` units make one percent.

use vstd::prelude::*;

verus! {

/// Fixed-point units per percent of usage.
pub const USAGE_SCALE: u64 = 1000;

/// Load of one CPU (or of the average over all cores) at one instant.
pub struct CpuInfo {
    pub name: String,
    pub usage: u64,
    pub timestamps: u64,
}

/// One CPU sample: the average load and the load of each core.
pub struct CpuMsg {
    pub ave: CpuInfo,
    pub cores: Vec<CpuInfo>,
    pub timestamps: u64,
}

/// Load of one thread at one instant.
pub struct ThreadInfo {
    pub name: String,
    pub id: u64,
    pub usage: u64,
    pub timestamps: u64,
}

/// Memory figures of one process at one instant, kept as they came.
#[derive(Clone, Copy, PartialEq, Eq, Structural, Debug)]
pub struct MemInfo {
    pub peak: u64,
    pub size: u64,
    pub hwm: u64,
    pub rss: u64,
    pub timestamps: u64,
}

/// One process in a process sample.
pub struct ProcessInfo {
    pub id: u64,
    pub name: String,
    pub thread_infos: Vec<ThreadInfo>,
    pub mem_info: MemInfo,
}

/// One process sample: a batch of per-process records.
pub struct ProcessMsg {
    pub infos: Vec<ProcessInfo>,
    pub timestamps: u64,
}

/// Text of the malloc statistics plugin.
pub struct PluginMsgMalloc {
    pub text: String,
    pub timestamps: u64,
}

/// Text of the memory information plugin (`/proc/meminfo` style).
pub struct PluginMsgMemInfo {
    pub text: String,
    pub timestamps: u64,
}

/// Mathematical value of a `CpuInfo`.
pub struct CpuSample {
    pub name: Seq<char>,
    pub usage: u64,
    pub timestamps: u64,
}

impl View for CpuInfo {
    type V = CpuSample;

    open spec fn view(&self) -> CpuSample {
        CpuSample { name: self.name@, usage: self.usage, timestamps: self.timestamps }
    }
}

/// Mathematical value of a `CpuMsg`.
pub struct CpuMsgView {
    pub ave: CpuSample,
    pub cores: Seq<CpuSample>,
    pub timestamps: u64,
}

impl View for CpuMsg {
    type V = CpuMsgView;

    open spec fn view(&self) -> CpuMsgView {
        CpuMsgView {
            ave: self.ave@,
            cores: self.cores@.map_values(|c: CpuInfo| c@),
            timestamps: self.timestamps,
        }
    }
}

/// Mathematical value of a `ThreadInfo`.
pub struct ThreadSample {
    pub name: Seq<char>,
    pub id: u64,
    pub usage: u64,
    pub timestamps: u64,
}

impl View for ThreadInfo {
    type V = ThreadSample;

    open spec fn view(&self) -> ThreadSample {
        ThreadSample {
            name: self.name@,
            id: self.id,
            usage: self.usage,
            timestamps: self.timestamps,
        }
    }
}

/// Mathematical value of a `ProcessInfo`.
pub struct ProcessSample {
    pub id: u64,
    pub name: Seq<char>,
    pub thread_infos: Seq<ThreadSample>,
    pub mem_info: MemInfo,
}

impl View for ProcessInfo {
    type V = ProcessSample;

    open spec fn view(&self) -> ProcessSample {
        ProcessSample {
            id: self.id,
            name: self.name@,
            thread_infos: self.thread_infos@.map_values(|t: ThreadInfo| t@),
            mem_info: self.mem_info,
        }
    }
}

/// Mathematical value of a `ProcessMsg`.
pub struct ProcessMsgView {
    pub infos: Seq<ProcessSample>,
    pub timestamps: u64,
}

impl View for ProcessMsg {
    type V = ProcessMsgView;

    open spec fn view(&self) -> ProcessMsgView {
        ProcessMsgView {
            infos: self.infos@.map_values(|p: ProcessInfo| p@),
            timestamps: self.timestamps,
        }
    }
}

impl MemInfo {
    /// All figures zero.
    pub fn zero() -> (r: MemInfo)
        ensures
            r == (MemInfo { peak: 0, size: 0, hwm: 0, rss: 0, timestamps: 0 }),
    {
        MemInfo { peak: 0, size: 0, hwm: 0, rss: 0, timestamps: 0 }
    }
}

impl Default for MemInfo {
    fn default() -> (r: MemInfo)
        ensures
            r == (MemInfo { peak: 0, size: 0, hwm: 0, rss: 0, timestamps: 0 }),
    {
        MemInfo::zero()
    }
}

} // verus!
