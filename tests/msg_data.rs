use cpu_monitor::msg::{
    CpuInfo, CpuMsg, MemInfo, PluginMsgMalloc, PluginMsgMemInfo, ProcessInfo, ProcessMsg,
    ThreadInfo,
};
use cpu_monitor::msg_data::MsgData;

fn thread(id: u64, usage: u64, ts: u64) -> ThreadInfo {
    ThreadInfo { name: format!("t{}", id), id, usage, timestamps: ts }
}

fn mem(rss: u64, ts: u64) -> MemInfo {
    MemInfo { peak: 0, size: 0, hwm: 0, rss, timestamps: ts }
}

fn process(id: u64, name: &str, threads: Vec<ThreadInfo>, rss: u64) -> ProcessInfo {
    ProcessInfo { id, name: name.to_string(), thread_infos: threads, mem_info: mem(rss, 0) }
}

fn cpu_msg(ts: u64) -> CpuMsg {
    CpuMsg {
        ave: CpuInfo { name: "cpu".to_string(), usage: 5, timestamps: ts },
        cores: vec![CpuInfo { name: "cpu0".to_string(), usage: 5, timestamps: ts }],
        timestamps: ts,
    }
}

fn thread_order(data: &MsgData, pid: u64) -> Vec<(u64, u64)> {
    data.msg_pids[&pid].thread_infos.iter().map(|t| (t.id, t.usage_sum)).collect()
}

#[test]
fn test() {
    let mut msg_data = MsgData::new();
    let process_msg = ProcessMsg {
        infos: vec![ProcessInfo {
            id: 19365,
            name: "cpu_monitor".to_string(),
            thread_infos: vec![ThreadInfo {
                name: "259".to_string(),
                id: 259,
                usage: 0,
                timestamps: 1702956002326,
            }],
            mem_info: MemInfo {
                peak: 0,
                size: 408695056,
                hwm: 0,
                rss: 3584,
                timestamps: 1702956002326,
            },
        }],
        timestamps: 1702956002326,
    };
    assert!(msg_data.process_process_msg(process_msg));
    let p = &msg_data.msg_pids[&19365];
    println!("msg_data: {} threads, max_rss {}", p.thread_infos.len(), p.max_rss);
    assert_eq!(p.name, "cpu_monitor");
    assert_eq!(p.max_rss, 3584);
    assert_eq!(p.mem_infos.len(), 1);
    assert_eq!(msg_data.pid_current_thread_num[&19365], 1);
}

#[test]
fn cpu_samples_append_in_order() {
    let mut data = MsgData::new();
    assert!(data.process_cpu_msg(cpu_msg(1)));
    assert!(data.process_cpu_msg(cpu_msg(2)));
    let ts: Vec<u64> = data.msg_cpus.iter().map(|m| m.timestamps).collect();
    assert_eq!(ts, vec![1, 2]);
}

#[test]
fn usage_sums_exactly_and_stays_sorted() {
    let mut data = MsgData::new();
    let batch1 = ProcessMsg {
        infos: vec![process(7, "a", vec![thread(1, 10, 0), thread(2, 30, 0), thread(1, 5, 0)], 10)],
        timestamps: 0,
    };
    assert!(data.process_process_msg(batch1));
    assert_eq!(thread_order(&data, 7), vec![(2, 30), (1, 15)]);
    let batch2 = ProcessMsg {
        infos: vec![process(7, "a", vec![thread(1, 20, 1), thread(3, 1, 1)], 10)],
        timestamps: 1,
    };
    assert!(data.process_process_msg(batch2));
    assert_eq!(thread_order(&data, 7), vec![(1, 35), (2, 30), (3, 1)]);
    let ts: Vec<u64> = data.msg_pids[&7].thread_infos[0].cpu_infos.iter().map(|t| t.usage).collect();
    assert_eq!(ts, vec![10, 5, 20]);
    assert_eq!(data.pid_current_thread_num[&7], 2);
}

#[test]
fn equal_usage_keeps_insertion_order() {
    let mut data = MsgData::new();
    let batch = ProcessMsg {
        infos: vec![process(1, "p", vec![thread(5, 10, 0), thread(3, 10, 0), thread(9, 10, 0)], 1)],
        timestamps: 0,
    };
    data.process_process_msg(batch);
    assert_eq!(thread_order(&data, 1), vec![(5, 10), (3, 10), (9, 10)]);
}

#[test]
fn usage_saturates_at_max() {
    let mut data = MsgData::new();
    let batch = ProcessMsg {
        infos: vec![process(1, "p", vec![thread(1, u64::MAX - 1, 0), thread(1, 5, 0)], 1)],
        timestamps: 0,
    };
    data.process_process_msg(batch);
    assert_eq!(thread_order(&data, 1), vec![(1, u64::MAX)]);
}

#[test]
fn max_rss_ignores_order() {
    let rss = [300u64, 1200, 50, 1200, 700];
    let mut forward = MsgData::new();
    let mut backward = MsgData::new();
    for r in rss.iter() {
        forward.process_process_msg(ProcessMsg { infos: vec![process(4, "x", vec![], *r)], timestamps: 0 });
    }
    for r in rss.iter().rev() {
        backward.process_process_msg(ProcessMsg { infos: vec![process(4, "x", vec![], *r)], timestamps: 0 });
    }
    assert_eq!(forward.msg_pids[&4].max_rss, 1200);
    assert_eq!(backward.msg_pids[&4].max_rss, 1200);
    assert_eq!(forward.msg_pids[&4].mem_infos.len(), 5);
}

#[test]
fn last_name_wins_and_batches_fold_in_order() {
    let mut data = MsgData::new();
    let batch = ProcessMsg {
        infos: vec![process(2, "old", vec![thread(1, 1, 0)], 5), process(2, "new", vec![], 9)],
        timestamps: 0,
    };
    data.process_process_msg(batch);
    assert_eq!(data.msg_pids[&2].name, "new");
    assert_eq!(data.msg_pids[&2].max_rss, 9);
    assert_eq!(data.pid_current_thread_num[&2], 0);
    assert_eq!(thread_order(&data, 2), vec![(1, 1)]);
}

#[test]
fn locked_model_drops_live_samples() {
    let mut data = MsgData::new();
    assert!(data.process_cpu_msg(cpu_msg(1)));
    data.has_preload_data = true;
    assert!(!data.process_cpu_msg(cpu_msg(2)));
    let batch = ProcessMsg { infos: vec![process(1, "p", vec![thread(1, 1, 0)], 1)], timestamps: 0 };
    assert!(!data.process_process_msg(batch));
    assert_eq!(data.msg_cpus.len(), 1);
    assert!(data.msg_pids.is_empty());
    assert!(data.pid_current_thread_num.is_empty());
    // plugin samples are taken even when locked
    data.process_plugin_malloc(PluginMsgMalloc { text: "a: 1".to_string(), timestamps: 3 });
    assert_eq!(data.plugin_malloc.len(), 1);
}

#[test]
fn clear_unlocks_and_empties() {
    let mut data = MsgData::new();
    data.process_cpu_msg(cpu_msg(1));
    data.process_process_msg(ProcessMsg { infos: vec![process(1, "p", vec![], 1)], timestamps: 0 });
    data.process_plugin_mem_info(PluginMsgMemInfo { text: "SwapTotal: 1".to_string(), timestamps: 0 });
    data.has_preload_data = true;
    data.clear();
    assert!(!data.has_preload_data);
    assert!(data.msg_cpus.is_empty());
    assert!(data.msg_pids.is_empty());
    assert!(data.pid_current_thread_num.is_empty());
    assert!(data.plugin_mem_info.is_empty());
    assert!(data.plugin_malloc.is_empty());
    assert!(data.process_cpu_msg(cpu_msg(2)));
}

#[test]
fn mem_info_plugin_adds_swap_used() {
    let mut data = MsgData::new();
    data.process_plugin_mem_info(PluginMsgMemInfo {
        text: "SwapTotal: 100 kB\nSwapFree: 40 kB".to_string(),
        timestamps: 42,
    });
    let s = &data.plugin_mem_info[0];
    assert_eq!(s.get("SwapTotal"), Some(100));
    assert_eq!(s.get("SwapFree"), Some(40));
    assert_eq!(s.get("timestamps"), Some(42));
    assert_eq!(s.get("SwapUsed"), Some(60));
    assert_eq!(s.entries.len(), 4);
}

#[test]
fn swap_used_without_figures_is_zero() {
    let mut data = MsgData::new();
    data.process_plugin_mem_info(PluginMsgMemInfo { text: "SwapFree: 40 kB".to_string(), timestamps: 1 });
    assert_eq!(data.plugin_mem_info[0].get("SwapUsed"), Some(0));
}
