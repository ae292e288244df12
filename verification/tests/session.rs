use netmon::controller::scope::{Control, Target};
use netmon::monitor::capture::{
    apply_filter, export_pcap, find_name, generated_name, start_capture, CaptureStart, Recording,
    StartAction, StartEvent,
};
use netmon::monitor::control::ControlSets;
use netmon::monitor::csv::{
    export_csv, history_header, history_line, sanitize_csv, write_history_csv, FieldStyle,
};
use netmon::monitor::model::{
    ConnectionEntry, HistoryCsvRow, InterfaceStats, ProcessInfo, ProcessRow, Protocol,
};
use netmon::monitor::snapshot::{collect_connections, filter_is_active, get_snapshot};

fn history(timestamp: u64, pid: u32, tid: u32, process: &str) -> HistoryCsvRow {
    HistoryCsvRow {
        timestamp,
        pid,
        tid,
        process: process.to_string(),
        thread: "main".to_string(),
        user: "eve".to_string(),
        uid: 1000,
        tx_bytes_total: 1,
        rx_bytes_total: 2,
        tx_2s_avg: 3,
        rx_2s_avg: 4,
        tx_10s_avg: 5,
        rx_10s_avg: 6,
    }
}

#[test]
fn fields_are_made_safe_in_two_ways() {
    for (value, plain, quoted) in [
        ("cat", "cat", "cat"),
        ("", "", ""),
        ("a,b", "a b", "\"a,b\""),
        ("say \"hi\"", "say 'hi'", "\"say \"\"hi\"\"\""),
        ("\"", "'", "\"\"\"\""),
        ("two\nlines", "two\nlines", "\"two\nlines\""),
        ("it's", "it's", "it's"),
    ] {
        assert_eq!(sanitize_csv(value, FieldStyle::Plain), plain);
        assert_eq!(sanitize_csv(value, FieldStyle::Quoted), quoted);
    }
}

fn unquoted(field: &str) -> String {
    if field.len() >= 2 && field.starts_with('"') {
        field[1..field.len() - 1].replace("\"\"", "\"")
    } else {
        field.to_string()
    }
}

#[test]
fn quoted_fields_are_read_back() {
    for value in ["", "a", "\"", "\"\"", "a,\"b\"\n", "\"a\"", ",", "x\"\"\"y"] {
        assert_eq!(unquoted(&sanitize_csv(value, FieldStyle::Quoted)), value);
    }
}

#[test]
fn lines_have_thirteen_fields() {
    let row = history(7, 8, 9, "a,b\"c");
    assert_eq!(
        history_line(&row, FieldStyle::Plain),
        "7,8,9,a b'c,main,eve,1000,1,2,3,4,5,6\n"
    );
    assert_eq!(
        history_line(&row, FieldStyle::Quoted),
        "7,8,9,\"a,b\"\"c\",main,eve,1000,1,2,3,4,5,6\n"
    );
    assert_eq!(history_line(&row, FieldStyle::Plain).trim_end().split(',').count(), 13);
    assert_eq!(history_header().trim_end().split(',').count(), 13);
    assert_eq!(
        history_header(),
        "timestamp,pid,tid,process,thread,user,uid,tx_bytes_total,rx_bytes_total,tx_2s_avg,rx_2s_avg,tx_10s_avg,rx_10s_avg\n"
    );
}

#[test]
fn files_hold_the_rows_as_they_come() {
    let rows = vec![history(2, 1, 1, "b"), history(1, 1, 1, "a")];
    assert_eq!(
        write_history_csv(&rows),
        format!(
            "{}2,1,1,b,main,eve,1000,1,2,3,4,5,6\n1,1,1,a,main,eve,1000,1,2,3,4,5,6\n",
            history_header()
        )
    );
    assert_eq!(write_history_csv(&vec![]), history_header());
}

#[test]
fn exports_are_sorted_by_time_process_and_thread() {
    assert_eq!(export_csv(vec![]), None);
    let rows = vec![
        history(2, 1, 1, "e"),
        history(1, 2, 1, "c"),
        history(1, 1, 2, "b"),
        history(1, 2, 1, "d"),
        history(1, 1, 1, "a"),
    ];
    let names: Vec<String> = export_csv(rows)
        .unwrap()
        .iter()
        .map(|line| line.split(',').nth(3).unwrap().to_string())
        .collect();
    assert_eq!(names, ["a", "b", "c", "d", "e"]);
}

fn entry(pid: u32, tx_bytes: u64, state: &str) -> ConnectionEntry {
    ConnectionEntry {
        local_addr: "[::1]:5".to_string(),
        remote_addr: "10.0.0.1:443".to_string(),
        remote_port: 443,
        protocol: Protocol::Other(132),
        state: state.to_string(),
        pid,
        tid: pid + 1,
        process: "p".to_string(),
        thread_name: "t".to_string(),
        uid: 3,
        username: "u".to_string(),
        tx_bytes,
        rx_bytes: 0,
    }
}

fn row(pid: u32, total: u64, connections: Vec<ConnectionEntry>) -> ProcessRow {
    let mut tx_history = [0u64; 300];
    tx_history[0] = 5;
    tx_history[299] = 6;
    ProcessRow {
        info: ProcessInfo {
            pid,
            tid: pid * 10,
            name: format!("p{pid}"),
            thread_name: format!("t{pid}"),
            uid: pid + 1000,
            username: format!("u{pid}"),
        },
        tx_bytes: total,
        rx_bytes: 1,
        tx_history,
        rx_history: [7; 300],
        is_blocked: pid == 2,
        connections,
    }
}

fn rows() -> Vec<ProcessRow> {
    vec![
        row(1, 10, vec![entry(1, 0, "a"), entry(1, 5, "b")]),
        row(2, 30, vec![entry(2, 7, "c")]),
        row(3, 10, vec![]),
        row(4, 20, vec![entry(4, 0, "d"), entry(4, 0, "e"), entry(4, 1, "f")]),
    ]
}

#[test]
fn snapshots_hold_the_largest_rows() {
    let mut sets = ControlSets::new();
    sets.record(Target::Process { pid: 2 }, Control::Block, true, &Ok(()));
    sets.record(Target::Thread { pid: 4, tid: 40 }, Control::Block, true, &Ok(()));
    sets.record(Target::Thread { pid: 1, tid: 1 }, Control::Block, true, &Ok(()));
    sets.record(Target::User { uid: 1001 }, Control::Limit, true, &Ok(()));
    sets.record(Target::Process { pid: 1 }, Control::Limit, true, &Ok(()));
    let mut stats = InterfaceStats::idle();
    stats.tx_bytes_total = 8;
    stats.rx_history[1] = 9;
    let snapshot = get_snapshot(
        rows(),
        &Some(stats),
        Some("Ready".to_string()),
        Some("  "),
        &sets,
        Some(3),
        None,
        77,
    );
    assert_eq!(snapshot.status, "Ready");
    assert_eq!(snapshot.captured_at_ms, 77);
    assert_eq!(snapshot.interface.tx_bytes_total, 8);
    assert_eq!(snapshot.interface.rx_history.len(), 300);
    assert_eq!(snapshot.interface.rx_history[1], 9);
    let pids: Vec<u32> = snapshot.processes.iter().map(|p| p.pid).collect();
    assert_eq!(pids, [2, 4, 1]);
    let first = &snapshot.processes[0];
    assert_eq!((first.tid, first.uid, first.tx_bytes, first.rx_bytes), (20, 1002, 30, 1));
    assert_eq!((first.process.as_str(), first.thread.as_str(), first.user.as_str()), ("p2", "t2", "u2"));
    assert_eq!((first.tx_rate_bytes_per_sec, first.rx_rate_bytes_per_sec), (5, 7));
    assert_eq!((first.tx_history[299], first.rx_history.len()), (6, 300));
    assert!(first.is_blocked && first.is_process_blocked);
    assert!(!first.is_thread_blocked && !first.is_user_blocked && !first.is_process_rate_limited);
    assert!(snapshot.processes[1].is_thread_blocked && !snapshot.processes[1].is_process_blocked);
    let last = &snapshot.processes[2];
    assert!(last.is_process_rate_limited && last.is_user_rate_limited && !last.is_thread_rate_limited);
    assert!(!last.is_thread_blocked);
    assert_eq!(
        (snapshot.blocked.processes, snapshot.blocked.threads, snapshot.blocked.users),
        (1, 2, 0)
    );
    let states: Vec<&str> = snapshot.connections.iter().map(|c| c.state.as_str()).collect();
    assert_eq!(states, ["c", "d", "e", "f", "a", "b"]);
    let shown = &snapshot.connections[0];
    assert_eq!(shown.protocol, "Other(132)");
    assert_eq!((shown.local_addr.as_str(), shown.remote_addr.as_str()), ("[::1]:5", "10.0.0.1:443"));
    assert_eq!((shown.pid, shown.tid, shown.uid), (2, 3, 3));
    assert_eq!((shown.process.as_str(), shown.thread.as_str(), shown.user.as_str()), ("p", "t", "u"));
    assert_eq!((shown.tx_bytes, shown.rx_bytes), (7, 0));
}

#[test]
fn snapshots_of_nothing_are_empty() {
    let snapshot = get_snapshot(vec![], &None, None, None, &ControlSets::new(), None, None, 0);
    assert_eq!(snapshot.status, "Unknown");
    assert!(snapshot.processes.is_empty() && snapshot.connections.is_empty());
    assert!(snapshot.interface.tx_history.is_empty() && snapshot.interface.rx_history.is_empty());
    assert_eq!(snapshot.interface.peak_bandwidth_bytes_per_sec, 0);
}

#[test]
fn snapshots_have_default_sizes() {
    let mut many = Vec::new();
    for pid in 1..=60 {
        many.push(row(pid, 5, vec![entry(pid, 1, "x"), entry(pid, 0, "y"), entry(pid, 1, "z")]));
    }
    let snapshot = get_snapshot(many, &None, None, None, &ControlSets::new(), None, None, 0);
    assert_eq!(snapshot.processes.len(), 25);
    assert_eq!(snapshot.processes[0].pid, 1);
    assert_eq!(snapshot.processes[24].pid, 25);
    assert_eq!(snapshot.connections.len(), 50);
}

#[test]
fn active_filters_leave_silent_connections_out() {
    let snapshot = get_snapshot(
        rows(),
        &None,
        None,
        Some(" tcp "),
        &ControlSets::new(),
        None,
        Some(2),
        0,
    );
    let states: Vec<&str> = snapshot.connections.iter().map(|c| c.state.as_str()).collect();
    assert_eq!(states, ["c", "f"]);
    assert!(filter_is_active(Some("x")));
    assert!(!filter_is_active(Some(" \n")));
    assert!(!filter_is_active(None));
    for max in 0..8 {
        let all = collect_connections(&rows(), false, max);
        assert_eq!(all.len(), max.min(6));
        let kept = collect_connections(&rows(), true, max);
        assert_eq!(kept.len(), max.min(3));
    }
}

fn finish(start: &CaptureStart) -> (Result<(), String>, bool) {
    match start.action() {
        StartAction::Finish { result, release } => (result, release),
        other => panic!("{other:?}"),
    }
}

fn claimed(filter: Option<&str>, path: Option<&str>) -> CaptureStart {
    let start = start_capture(
        "eth1".to_string(),
        filter.map(|f| f.to_string()),
        path.map(|p| p.to_string()),
    );
    assert!(matches!(start.action(), StartAction::Claim));
    start.resume(StartEvent::Claimed { was_running: false })
}

fn devices() -> StartEvent {
    StartEvent::Devices { names: Some(vec!["lo".to_string(), "eth1".to_string()]) }
}

#[test]
fn a_capture_starts_step_by_step() {
    let start = claimed(Some("udp"), Some("/tmp/x"));
    assert!(matches!(start.action(), StartAction::ReadDevices));
    let start = start.resume(devices());
    match start.action() {
        StartAction::Spawn { device: 1, recording: Recording::At { path } } => assert_eq!(path, "/tmp/x"),
        other => panic!("{other:?}"),
    }
    let start = start.resume(StartEvent::Spawned { result: Ok(()) });
    match start.action() {
        StartAction::ApplyFilter { expression } => assert_eq!(expression, "udp"),
        other => panic!("{other:?}"),
    }
    let start = start.resume(StartEvent::Filtered { result: Ok(()) });
    assert!(matches!(start.action(), StartAction::StoreControl));
    let start = start.resume(StartEvent::Stored { reached: true });
    assert_eq!(finish(&start), (Ok(()), false));
    let change = start.session_change().unwrap();
    assert!(change.clear_history);
    assert!(matches!(change.recording, Recording::At { path } if path == "/tmp/x"));
    assert_eq!(change.active_filter, "udp");
}

#[test]
fn a_capture_needs_no_filter_and_no_path() {
    let start = claimed(None, None).resume(devices());
    assert!(matches!(
        start.action(),
        StartAction::Spawn { device: 1, recording: Recording::Generated }
    ));
    let start = start.resume(StartEvent::Spawned { result: Ok(()) });
    assert!(matches!(start.action(), StartAction::StoreControl));
    assert!(start.session_change().is_none());
    let start = start.resume(StartEvent::Stored { reached: true });
    assert_eq!(finish(&start), (Ok(()), false));
    let change = start.session_change().unwrap();
    assert!(change.clear_history);
    assert!(matches!(change.recording, Recording::Generated));
    assert_eq!(change.active_filter, "");
}

#[test]
fn failed_starts_take_the_mark_back() {
    let start = start_capture("eth1".to_string(), None, None);
    let start = start.resume(StartEvent::Claimed { was_running: true });
    assert_eq!(finish(&start), (Err("capture already running".to_string()), false));
    assert!(start.session_change().is_none());
    let start = claimed(None, None).resume(StartEvent::Devices { names: None });
    assert_eq!(finish(&start), (Err("device cache lock poisoned".to_string()), true));
    assert!(start.session_change().is_none());
    let start = claimed(None, None).resume(StartEvent::Devices { names: Some(vec![]) });
    assert_eq!(finish(&start), (Err("interface not found".to_string()), true));
    assert!(start.session_change().is_none());
    let start = claimed(None, None)
        .resume(devices())
        .resume(StartEvent::Spawned { result: Err("denied".to_string()) });
    assert_eq!(finish(&start), (Err("denied".to_string()), true));
    assert!(start.session_change().is_none());
    let start = claimed(Some("x"), None)
        .resume(devices())
        .resume(StartEvent::Spawned { result: Ok(()) })
        .resume(StartEvent::Filtered { result: Err("syntax".to_string()) });
    assert_eq!(finish(&start), (Err("syntax".to_string()), true));
    assert!(start.session_change().is_none());
    let start = claimed(None, None)
        .resume(devices())
        .resume(StartEvent::Spawned { result: Ok(()) })
        .resume(StartEvent::Stored { reached: false });
    assert_eq!(finish(&start), (Err("capture control lock poisoned".to_string()), true));
    assert!(start.session_change().is_none());
}

#[test]
fn names_are_found_at_their_first_place() {
    let names = vec!["a".to_string(), "b".to_string(), "b".to_string()];
    assert_eq!(find_name(&names, "b"), Some(1));
    assert_eq!(find_name(&names, "c"), None);
    assert_eq!(generated_name(12), "netmon_capture_12.pcap");
}

#[test]
fn filters_and_exports_of_a_session_may_be_refused() {
    assert_eq!(apply_filter(false, true), Err("capture control lock poisoned".to_string()));
    assert_eq!(apply_filter(true, false), Err("capture not running".to_string()));
    assert_eq!(apply_filter(true, true), Ok(()));
    assert_eq!(export_pcap(None, true), Err("no PCAP recording available".to_string()));
    assert_eq!(
        export_pcap(Some("/x".to_string()), false),
        Err("PCAP recording file missing".to_string())
    );
    assert_eq!(export_pcap(Some("/x".to_string()), true), Ok("/x".to_string()));
}

// Splits a file at the line ends that are not between quotation marks.
fn split_records(content: &str) -> Vec<String> {
    let mut records = vec![String::new()];
    let mut inside = false;
    for c in content.chars() {
        if c == '"' {
            inside = !inside;
        }
        if (c == '\n' || c == '\r') && !inside {
            records.push(String::new());
        } else {
            records.last_mut().unwrap().push(c);
        }
    }
    assert_eq!(records.pop().as_deref(), Some(""));
    records
}

#[test]
fn whole_files_read_back() {
    let names = ["plain", "two\nlines", "a,b", "say \"hi\"", "cr\r\nlf", "\r,", "\"", ""];
    let mut rows = Vec::new();
    for (i, name) in names.iter().enumerate() {
        let mut row = history(i as u64, 1, 2, name);
        row.thread = names[(i + 1) % names.len()].to_string();
        row.user = names[(i + 2) % names.len()].to_string();
        rows.push(row);
    }
    let records = split_records(&write_history_csv(&rows));
    assert_eq!(records.len(), rows.len() + 1);
    assert_eq!(records[0], history_header().trim_end());
    for (record, row) in records[1..].iter().zip(&rows) {
        let fields = split_quoted(record);
        assert_eq!(fields.len(), 13);
        assert_eq!(fields[0], row.timestamp.to_string());
        assert_eq!(unquoted(&fields[3]), row.process);
        assert_eq!(unquoted(&fields[4]), row.thread);
        assert_eq!(unquoted(&fields[5]), row.user);
    }
    assert_eq!(split_records(&write_history_csv(&vec![])).len(), 1);
    let broken = write_history_csv(&vec![history(1, 1, 1, "a\rb")]);
    assert_eq!(split_records(&broken).len(), 3);
}

// Splits a line at the commas that are not between quotation marks.
fn split_quoted(line: &str) -> Vec<String> {
    let mut fields = vec![String::new()];
    let mut inside = false;
    for c in line.chars() {
        if c == '"' {
            inside = !inside;
        }
        if c == ',' && !inside {
            fields.push(String::new());
        } else {
            fields.last_mut().unwrap().push(c);
        }
    }
    fields
}

#[test]
fn quoted_lines_are_taken_apart_again() {
    for name in ["", "cat", "a,b", "\"", "x\"y,\"\",z", "two\nlines", ",,,"] {
        let line = history_line(&history(1, 2, 3, name), FieldStyle::Quoted);
        let fields = split_quoted(line.strip_suffix('\n').unwrap());
        assert_eq!(fields.len(), 13, "{name:?}");
        assert_eq!(unquoted(&fields[3]), name);
        assert_eq!(unquoted(&fields[5]), "eve");
        assert_eq!(fields[12], "6");
    }
}

#[test]
fn plain_lines_are_taken_apart_again() {
    for name in ["", "a,b", "\"", ",,,\""] {
        let line = history_line(&history(1, 2, 3, name), FieldStyle::Plain);
        let fields: Vec<&str> = line.strip_suffix('\n').unwrap().split(',').collect();
        assert_eq!(fields.len(), 13, "{name:?}");
        assert_eq!(fields[3], sanitize_csv(name, FieldStyle::Plain));
    }
}
