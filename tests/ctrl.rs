use cpu_monitor::ctrl::{
    ctrl, fetch_status, load_success, parse_ctrl_verb, parse_ip_addr, save_success, CtrlAction,
    CtrlVerb,
};
use cpu_monitor::msg::{CpuInfo, CpuMsg};
use cpu_monitor::msg_data::MsgData;
use cpu_monitor::test_data::TEST_SAMPLE_COUNT;

fn wave() -> Vec<u64> {
    (0..TEST_SAMPLE_COUNT + 30)
        .map(|k| ((((k as f64) / 10.0).sin() + 1.0) * 50.0 * 1000.0) as u64)
        .collect()
}

fn with_sample() -> MsgData {
    let mut data = MsgData::new();
    data.process_cpu_msg(CpuMsg {
        ave: CpuInfo { name: "cpu".to_string(), usage: 1, timestamps: 1 },
        cores: vec![],
        timestamps: 1,
    });
    data
}

#[test]
fn set_ip_addr_parses_host_and_port() {
    let mut data = with_sample();
    match ctrl(&mut data, "set_ip_addr", "localhost:8088", true, &wave()) {
        CtrlAction::Open(host, port) => {
            assert_eq!(host, "localhost");
            assert_eq!(port, 8088);
        }
        _ => panic!("expected a reconnect"),
    }
    assert!(data.msg_cpus.is_empty());
}

#[test]
fn set_ip_addr_without_colon_is_format_error() {
    let mut data = with_sample();
    match ctrl(&mut data, "set_ip_addr", "localhost", true, &wave()) {
        CtrlAction::Reply(Ok(s)) => assert_eq!(s, "format error: localhost"),
        _ => panic!("expected a format error answer"),
    }
    assert!(data.msg_cpus.is_empty());
}

#[test]
fn set_ip_addr_with_bad_port() {
    assert_eq!(parse_ip_addr("host:99999"), Err("port invalid: 99999".to_string()));
    assert_eq!(parse_ip_addr("host:"), Err("port invalid: ".to_string()));
    assert_eq!(parse_ip_addr("a:b:c"), Err("format error: a:b:c".to_string()));
    assert_eq!(parse_ip_addr("10.0.0.2:1"), Ok(("10.0.0.2".to_string(), 1)));
}

#[test]
fn unknown_verb_is_an_error() {
    let mut data = with_sample();
    match ctrl(&mut data, "reboot", "", false, &wave()) {
        CtrlAction::Reply(Err(e)) => assert_eq!(e, "no such ctrl method: reboot"),
        _ => panic!("expected an error"),
    }
    assert_eq!(data.msg_cpus.len(), 1);
}

#[test]
fn clear_data_answers_ok() {
    let mut data = with_sample();
    data.has_preload_data = true;
    match ctrl(&mut data, "clear_data", "", false, &wave()) {
        CtrlAction::Reply(Ok(s)) => assert_eq!(s, "ok"),
        _ => panic!("expected ok"),
    }
    assert!(data.msg_cpus.is_empty());
    assert!(!data.has_preload_data);
}

#[test]
fn save_load_and_status_verbs() {
    let mut data = with_sample();
    assert!(matches!(ctrl(&mut data, "save_data", "~/x.json", false, &wave()), CtrlAction::Save(p) if p == "~/x.json"));
    assert!(matches!(ctrl(&mut data, "load_data", "", false, &wave()), CtrlAction::Load(p) if p.is_empty()));
    assert!(matches!(ctrl(&mut data, "get_msg_data", "", false, &wave()), CtrlAction::PushState));
    assert!(matches!(ctrl(&mut data, "fetch_status", "", true, &wave()), CtrlAction::PushStatus(s) if s == "connected"));
    assert!(matches!(ctrl(&mut data, "fetch_status", "", false, &wave()), CtrlAction::PushStatus(s) if s == "disconnected"));
    assert_eq!(data.msg_cpus.len(), 1);
}

#[test]
fn verb_names() {
    assert_eq!(parse_ctrl_verb("create_test_data"), Some(CtrlVerb::CreateTestData));
    assert_eq!(parse_ctrl_verb("set_ip_addr"), Some(CtrlVerb::SetIpAddr));
    assert_eq!(parse_ctrl_verb("clear_data "), None);
    assert_eq!(fetch_status(true), "connected");
    assert_eq!(save_success("/tmp/a.json"), "Save Success: /tmp/a.json");
    assert_eq!(load_success("/tmp/a.json"), "Load Success: /tmp/a.json");
}

#[test]
fn create_test_data_verb_locks_demo_model() {
    let mut data = with_sample();
    let w = wave();
    assert!(matches!(ctrl(&mut data, "create_test_data", "", false, &w), CtrlAction::PushState));
    assert!(data.has_preload_data);
    assert_eq!(data.msg_cpus.len(), TEST_SAMPLE_COUNT);
    assert_eq!(data.msg_cpus[3].ave.usage, w[3]);
    assert_eq!(data.msg_cpus[3].cores[2].name, "cpu2");
    assert_eq!(data.msg_cpus[3].cores[2].usage, w[23]);
    let p = &data.msg_pids[&100];
    assert_eq!(p.name, "app");
    assert_eq!(p.mem_infos.len(), TEST_SAMPLE_COUNT);
    assert_eq!(p.mem_infos[0].rss, w[30] / 1000 + 1024);
    assert_eq!(p.thread_infos.len(), 4);
    for j in 0..4u64 {
        let expected: u64 = (0..TEST_SAMPLE_COUNT).map(|i| w[i + 10 * j as usize]).sum();
        let t = p.thread_infos.iter().find(|t| t.id == j).unwrap();
        assert_eq!(t.usage_sum, expected);
        assert_eq!(t.cpu_infos.len(), TEST_SAMPLE_COUNT);
    }
    for k in 1..4 {
        assert!(p.thread_infos[k - 1].usage_sum >= p.thread_infos[k].usage_sum);
    }
    assert_eq!(data.pid_current_thread_num[&100], 4);
    // live samples are dropped until the model is cleared
    assert!(!data.process_cpu_msg(CpuMsg {
        ave: CpuInfo { name: "cpu".to_string(), usage: 1, timestamps: 1 },
        cores: vec![],
        timestamps: 1,
    }));
}

#[test]
fn create_test_data_is_reproducible() {
    let w = wave();
    let mut a = with_sample();
    let mut b = MsgData::new();
    a.create_test_data(&w);
    b.create_test_data(&w);
    b.create_test_data(&w);
    let usage = |d: &MsgData| -> Vec<(u64, u64, usize)> {
        d.msg_pids[&100].thread_infos.iter().map(|t| (t.id, t.usage_sum, t.cpu_infos.len())).collect()
    };
    assert_eq!(usage(&a), usage(&b));
    assert_eq!(a.msg_pids[&100].max_rss, b.msg_pids[&100].max_rss);
    assert_eq!(a.msg_cpus.len(), b.msg_cpus.len());
    assert_eq!(a.msg_cpus[999].cores[3].usage, b.msg_cpus[999].cores[3].usage);
    assert!(a.has_preload_data && b.has_preload_data);
}
