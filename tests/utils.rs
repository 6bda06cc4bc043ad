use cpu_monitor::conn::{conn_step, is_connected, ConnEvent, ConnState, StatusPush};
use cpu_monitor::msg::{MemInfo, PluginMsgMalloc, ProcessInfo, ProcessMsg, ThreadInfo};
use cpu_monitor::snapshot::{Snapshot, SnapshotError};
use cpu_monitor::msg_data::{MsgData, ProcessValue};
use cpu_monitor::plugin::PluginSample;
use cpu_monitor::threads::ThreadInfoItem;
use cpu_monitor::ui::send_event;
use cpu_monitor::utils::{path_base_of, resolve_path, ParsePath, PathBase};

#[test]
fn home_relative_path_joins_home() {
    let r = resolve_path("~/data/a.json", Some("/home/u".to_string()), None);
    assert_eq!(r, Some("/home/u/data/a.json".to_string()));
    assert_eq!(resolve_path("~/a.json", None, Some("/d".to_string())), None);
}

#[test]
fn empty_path_is_default_file_in_documents() {
    let r = resolve_path("", None, Some("/home/u/Documents".to_string()));
    assert_eq!(r, Some("/home/u/Documents/cpu_monitor.json".to_string()));
    assert_eq!(resolve_path("", Some("/h".to_string()), None), None);
}

#[test]
fn other_paths_are_kept() {
    assert_eq!(resolve_path("/tmp/x.json", None, None), Some("/tmp/x.json".to_string()));
    assert_eq!(resolve_path("~x", None, None), Some("~x".to_string()));
    assert_eq!("rel/p.json".to_string().parse_path(None, None), Some("rel/p.json".to_string()));
    assert_eq!(
        "~/a".to_string().parse_path(Some("/h".to_string()), None),
        Some("/h/a".to_string())
    );
    assert_eq!(path_base_of("~/a"), PathBase::Home);
    assert_eq!(path_base_of(""), PathBase::Documents);
    assert_eq!(path_base_of("~"), PathBase::Itself);
}

#[test]
fn events_need_a_surface() {
    assert!(send_event(false, "on_status", "connected").is_none());
    let e = send_event(true, "on_status", "connected").unwrap();
    assert_eq!(e.event, "on_status");
    assert_eq!(e.payload, "connected");
}

fn item(id: u64, usage_sum: u64) -> ThreadInfoItem {
    ThreadInfoItem { id, usage_sum, cpu_infos: vec![] }
}

fn process(threads: Vec<ThreadInfoItem>) -> ProcessValue {
    ProcessValue { name: "p".to_string(), thread_infos: threads, mem_infos: vec![], max_rss: 3 }
}

fn snapshot(threads: Vec<ThreadInfoItem>, sample: PluginSample) -> Snapshot {
    Snapshot {
        msg_cpus: vec![],
        msg_pids: vec![(9, process(threads))],
        pid_current_thread_num: vec![(9, 2)],
        plugin_mem_info: vec![sample],
        plugin_malloc: vec![],
    }
}

#[test]
fn load_snapshot_installs_and_locks() {
    let mut data = MsgData::new();
    let mut sample = PluginSample::new();
    sample.insert("a".to_string(), 1);
    assert_eq!(data.load_snapshot(snapshot(vec![item(1, 9), item(2, 4)], sample)), Ok(()));
    assert!(data.has_preload_data);
    assert_eq!(data.msg_pids[&9].max_rss, 3);
    assert_eq!(data.pid_current_thread_num[&9], 2);
    assert_eq!(data.plugin_mem_info[0].get("a"), Some(1));
}

#[test]
fn load_snapshot_refuses_bad_threads() {
    let mut data = MsgData::new();
    let r = data.load_snapshot(snapshot(vec![item(1, 4), item(2, 9)], PluginSample::new()));
    assert_eq!(r, Err(SnapshotError::BadThreads));
    let r = data.load_snapshot(snapshot(vec![item(1, 9), item(1, 4)], PluginSample::new()));
    assert_eq!(r, Err(SnapshotError::BadThreads));
    assert!(!data.has_preload_data);
    assert!(data.msg_pids.is_empty());
}

#[test]
fn load_snapshot_refuses_repeated_keys() {
    let mut data = MsgData::new();
    let sample = PluginSample { entries: vec![("a".to_string(), 1), ("a".to_string(), 2)] };
    let r = data.load_snapshot(snapshot(vec![item(1, 1)], sample));
    assert_eq!(r, Err(SnapshotError::BadPluginSample));
    assert!(!data.has_preload_data);
}

#[test]
fn snapshot_round_trip_restores_model() {
    let mut data = MsgData::new();
    data.process_process_msg(ProcessMsg {
        infos: vec![
            ProcessInfo {
                id: 3,
                name: "a".to_string(),
                thread_infos: vec![
                    ThreadInfo { name: "x".to_string(), id: 1, usage: 4, timestamps: 0 },
                    ThreadInfo { name: "y".to_string(), id: 2, usage: 8, timestamps: 0 },
                ],
                mem_info: MemInfo { peak: 1, size: 2, hwm: 3, rss: 40, timestamps: 0 },
            },
            ProcessInfo {
                id: 8,
                name: "b".to_string(),
                thread_infos: vec![],
                mem_info: MemInfo { peak: 0, size: 0, hwm: 0, rss: 7, timestamps: 0 },
            },
        ],
        timestamps: 0,
    });
    data.process_plugin_malloc(PluginMsgMalloc { text: "k: 5".to_string(), timestamps: 1 });
    let snapshot = data.into_snapshot();
    assert_eq!(snapshot.msg_pids.iter().map(|p| p.0).collect::<Vec<_>>(), vec![3, 8]);
    let mut loaded = MsgData::new();
    assert_eq!(loaded.load_snapshot(snapshot), Ok(()));
    assert!(loaded.has_preload_data);
    let order: Vec<u64> = loaded.msg_pids[&3].thread_infos.iter().map(|t| t.id).collect();
    assert_eq!(order, vec![2, 1]);
    assert_eq!(loaded.msg_pids[&3].max_rss, 40);
    assert_eq!(loaded.msg_pids[&8].name, "b");
    assert_eq!(loaded.pid_current_thread_num[&3], 2);
    assert_eq!(loaded.pid_current_thread_num[&8], 0);
    assert_eq!(loaded.plugin_malloc[0].get("k"), Some(5));
}

#[test]
fn connection_transitions_push_status() {
    let (s, p) = conn_step(ConnState::Disconnected, ConnEvent::Attempt);
    assert_eq!((s, p), (ConnState::Connecting, None));
    let (s, p) = conn_step(s, ConnEvent::Opened);
    assert_eq!((s, p), (ConnState::Connected, Some(StatusPush::Connected)));
    assert!(is_connected(s));
    assert_eq!(p.unwrap().text(), "connected");
    let (s, p) = conn_step(s, ConnEvent::Closed);
    assert_eq!((s, p), (ConnState::Disconnected, Some(StatusPush::Disconnected)));
    assert_eq!(p.unwrap().text(), "disconnected");
    let (s, p) = conn_step(ConnState::Connecting, ConnEvent::OpenFailed);
    assert_eq!((s, p), (ConnState::Disconnected, None));
    assert_eq!(
        conn_step(ConnState::Connecting, ConnEvent::Closed),
        (ConnState::Disconnected, Some(StatusPush::Disconnected))
    );
    assert_eq!(conn_step(ConnState::Connected, ConnEvent::Attempt), (ConnState::Connected, None));
}
