//! The control verbs: what each one does to the model and what the owning
//! task must do next (answer, push to the UI, save, load, reconnect).

use crate::msg_data::{empty_view, MsgData};
use crate::test_data::{test_data_view, test_wave_len};
use crate::text::{decimal_u16, find_char, first_index, parse_u16, chars_of};
use vstd::prelude::*;

verus! {

/// A control verb.
#[derive(PartialEq, Eq, Structural, Clone, Copy, Debug)]
pub enum CtrlVerb {
    ClearData,
    SaveData,
    LoadData,
    CreateTestData,
    GetMsgData,
    FetchStatus,
    SetIpAddr,
}

/// The verb that a command name stands for.
pub open spec fn verb_of(cmd: Seq<char>) -> Option<CtrlVerb> {
    if cmd == "clear_data"@ {
        Some(CtrlVerb::ClearData)
    } else if cmd == "save_data"@ {
        Some(CtrlVerb::SaveData)
    } else if cmd == "load_data"@ {
        Some(CtrlVerb::LoadData)
    } else if cmd == "create_test_data"@ {
        Some(CtrlVerb::CreateTestData)
    } else if cmd == "get_msg_data"@ {
        Some(CtrlVerb::GetMsgData)
    } else if cmd == "fetch_status"@ {
        Some(CtrlVerb::FetchStatus)
    } else if cmd == "set_ip_addr"@ {
        Some(CtrlVerb::SetIpAddr)
    } else {
        None
    }
}

fn same_text(a: &str, b: &str) -> (r: bool)
    ensures
        r == (a@ == b@),
{
    a.to_owned() == b.to_owned()
}

/// Looks a command name up among the control verbs.
pub fn parse_ctrl_verb(cmd: &str) -> (r: Option<CtrlVerb>)
    ensures
        r == verb_of(cmd@),
{
    if same_text(cmd, "clear_data") {
        Some(CtrlVerb::ClearData)
    } else if same_text(cmd, "save_data") {
        Some(CtrlVerb::SaveData)
    } else if same_text(cmd, "load_data") {
        Some(CtrlVerb::LoadData)
    } else if same_text(cmd, "create_test_data") {
        Some(CtrlVerb::CreateTestData)
    } else if same_text(cmd, "get_msg_data") {
        Some(CtrlVerb::GetMsgData)
    } else if same_text(cmd, "fetch_status") {
        Some(CtrlVerb::FetchStatus)
    } else if same_text(cmd, "set_ip_addr") {
        Some(CtrlVerb::SetIpAddr)
    } else {
        None
    }
}

/// `a` followed by `b`.
fn joined(a: &str, b: &str) -> (r: String)
    ensures
        r@ == a@ + b@,
{
    a.to_owned().concat(b)
}

/// Connection status as the UI shows it.
pub open spec fn status_text(connected: bool) -> Seq<char> {
    if connected {
        "connected"@
    } else {
        "disconnected"@
    }
}

pub fn fetch_status(connected: bool) -> (r: String)
    ensures
        r@ == status_text(connected),
{
    if connected {
        "connected".to_owned()
    } else {
        "disconnected".to_owned()
    }
}

/// Answer to a successful save.
pub fn save_success(path: &str) -> (r: String)
    ensures
        r@ == "Save Success: "@ + path@,
{
    joined("Save Success: ", path)
}

/// Answer to a successful load.
pub fn load_success(path: &str) -> (r: String)
    ensures
        r@ == "Load Success: "@ + path@,
{
    joined("Load Success: ", path)
}

/// How `host:port` reads: `Ok((host, port))`, or the answer that explains
/// why it does not.
pub open spec fn addr_of(msg: Seq<char>) -> Result<(Seq<char>, u16), Seq<char>> {
    let k = first_index(msg, ':');
    if k >= msg.len() || first_index(msg.skip(k + 1int), ':') < msg.len() - (k + 1) {
        Err("format error: "@ + msg)
    } else {
        match decimal_u16(msg.skip(k + 1int)) {
            Some(port) => Ok((msg.take(k as int), port)),
            None => Err("port invalid: "@ + msg.skip(k + 1int)),
        }
    }
}

/// Splits `host:port`: exactly one colon, and a port that fits in `u16`.
pub fn parse_ip_addr(msg: &str) -> (r: Result<(String, u16), String>)
    ensures
        match (r, addr_of(msg@)) {
            (Ok((h, p)), Ok((sh, sp))) => h@ == sh && p == sp,
            (Err(e), Err(se)) => e@ == se,
            _ => false,
        },
{
    let cs = chars_of(msg);
    let n = cs.len();
    let k = find_char(&cs, 0, n, ':');
    assert(cs@.subrange(0, n as int) =~= msg@);
    if k >= n {
        return Err(joined("format error: ", msg));
    }
    let k2 = find_char(&cs, k + 1, n, ':');
    assert(msg@.skip(k + 1int) =~= cs@.subrange(k + 1, n as int));
    if k2 < n {
        return Err(joined("format error: ", msg));
    }
    let host = msg.substring_char(0, k).to_owned();
    let port_text = msg.substring_char(k + 1, n);
    assert(msg@.take(k as int) =~= msg@.subrange(0, k as int));
    match parse_u16(port_text) {
        Some(port) => Ok((host, port)),
        None => Err(joined("port invalid: ", port_text)),
    }
}

/// What the owning task does after a control verb.
pub enum CtrlAction {
    /// Answer with this.
    Reply(Result<String, String>),
    /// Push the model to the UI, then answer `"ok"`.
    PushState,
    /// Push this status to the UI, then answer with it.
    PushStatus(String),
    /// Write a snapshot to this path, then answer with the outcome.
    Save(String),
    /// Read a snapshot from this path, then answer with the outcome.
    Load(String),
    /// Reopen the connection to this host and port, then answer `"ok"`.
    Open(String, u16),
}

/// Runs control verb `cmd` with argument `msg` against the model.
/// `connected` is the connection's state; `wave` the waveform for demo data.
pub fn ctrl(data: &mut MsgData, cmd: &str, msg: &str, connected: bool, wave: &Vec<u64>) -> (r:
    CtrlAction)
    requires
        old(data).wf(),
        wave@.len() >= test_wave_len(),
    ensures
        final(data).wf(),
        match verb_of(cmd@) {
            None => final(data)@ == old(data)@ && match r {
                CtrlAction::Reply(Err(e)) => e@ == "no such ctrl method: "@ + cmd@,
                _ => false,
            },
            Some(CtrlVerb::ClearData) => final(data)@ == empty_view() && match r {
                CtrlAction::Reply(Ok(s)) => s@ == "ok"@,
                _ => false,
            },
            Some(CtrlVerb::SaveData) => final(data)@ == old(data)@ && match r {
                CtrlAction::Save(p) => p@ == msg@,
                _ => false,
            },
            Some(CtrlVerb::LoadData) => final(data)@ == old(data)@ && match r {
                CtrlAction::Load(p) => p@ == msg@,
                _ => false,
            },
            Some(CtrlVerb::CreateTestData) => final(data)@ == test_data_view(wave@) && r
                is PushState,
            Some(CtrlVerb::GetMsgData) => final(data)@ == old(data)@ && r is PushState,
            Some(CtrlVerb::FetchStatus) => final(data)@ == old(data)@ && match r {
                CtrlAction::PushStatus(s) => s@ == status_text(connected),
                _ => false,
            },
            Some(CtrlVerb::SetIpAddr) => final(data)@ == empty_view() && match (
                r,
                addr_of(msg@),
            ) {
                (CtrlAction::Open(h, p), Ok((sh, sp))) => h@ == sh && p == sp,
                (CtrlAction::Reply(Ok(e)), Err(se)) => e@ == se,
                _ => false,
            },
        },
{
    match parse_ctrl_verb(cmd) {
        None => CtrlAction::Reply(Err(joined("no such ctrl method: ", cmd))),
        Some(CtrlVerb::ClearData) => {
            data.clear();
            CtrlAction::Reply(Ok("ok".to_owned()))
        },
        Some(CtrlVerb::SaveData) => CtrlAction::Save(msg.to_owned()),
        Some(CtrlVerb::LoadData) => CtrlAction::Load(msg.to_owned()),
        Some(CtrlVerb::CreateTestData) => {
            data.create_test_data(wave);
            CtrlAction::PushState
        },
        Some(CtrlVerb::GetMsgData) => CtrlAction::PushState,
        Some(CtrlVerb::FetchStatus) => CtrlAction::PushStatus(fetch_status(connected)),
        Some(CtrlVerb::SetIpAddr) => {
            data.clear();
            match parse_ip_addr(msg) {
                Ok((host, port)) => CtrlAction::Open(host, port),
                Err(e) => CtrlAction::Reply(Ok(e)),
            }
        },
    }
}

} // verus!
