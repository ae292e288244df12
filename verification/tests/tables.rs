use netmon::monitor::model::{ConnectionEntry, ProcessInfo, ProcessRow, Protocol, ThreadKey};
use netmon::monitor::table::{
    collect_visible_connections, connection_cells, process_cells, selected_row, severity_of,
    short_process_cells, sorted_rows, toggled_selection, Severity, SortColumn,
};

fn entry(pid: u32, protocol: Protocol) -> ConnectionEntry {
    ConnectionEntry {
        local_addr: format!("10.0.0.1:{pid}"),
        remote_addr: "10.0.0.2:443".to_string(),
        remote_port: 443,
        protocol,
        state: "LISTEN".to_string(),
        pid,
        tid: pid + 1,
        process: "server".to_string(),
        thread_name: "worker".to_string(),
        uid: 5,
        username: "www".to_string(),
        tx_bytes: 17,
        rx_bytes: 18,
    }
}

struct Sample {
    pid: u32,
    tid: u32,
    name: &'static str,
    thread: &'static str,
    user: &'static str,
    protocols: &'static [Protocol],
    rates: (u64, u64),
    totals: (u64, u64),
}

const TCP: Protocol = Protocol::Tcp;
const UDP: Protocol = Protocol::Udp;

const SAMPLES: [Sample; 5] = [
    Sample { pid: 30, tid: 1, name: "zsh", thread: "b", user: "eve", protocols: &[TCP, TCP], rates: (5, 9), totals: (1, 50) },
    Sample { pid: 7, tid: 9, name: "Zsh", thread: "é", user: "adam", protocols: &[UDP], rates: (5, 8), totals: (2, 40) },
    Sample { pid: 7, tid: 3, name: "äh", thread: "a", user: "eve", protocols: &[], rates: (4, 9), totals: (3, 30) },
    Sample { pid: 100, tid: 2, name: "zs", thread: "ab", user: "", protocols: &[TCP, UDP], rates: (0, 0), totals: (2, 20) },
    Sample { pid: 8, tid: 1, name: "日本", thread: "b", user: "eve", protocols: &[TCP, TCP], rates: (9, 1), totals: (1, 10) },
];

fn rows() -> Vec<ProcessRow> {
    SAMPLES
        .iter()
        .map(|sample| {
            let mut tx_history = [0u64; 300];
            let mut rx_history = [0u64; 300];
            tx_history[0] = sample.rates.0;
            tx_history[1] = sample.rates.0;
            rx_history[0] = sample.rates.1;
            rx_history[1] = sample.rates.1;
            ProcessRow {
                info: ProcessInfo {
                    pid: sample.pid,
                    tid: sample.tid,
                    name: sample.name.to_string(),
                    thread_name: sample.thread.to_string(),
                    uid: 1,
                    username: sample.user.to_string(),
                },
                tx_bytes: sample.totals.0,
                rx_bytes: sample.totals.1,
                tx_history,
                rx_history,
                is_blocked: sample.pid == 8,
                connections: sample.protocols.iter().map(|p| entry(sample.pid, *p)).collect(),
            }
        })
        .collect()
}

fn order(rows: &[ProcessRow]) -> Vec<(u32, u32)> {
    rows.iter().map(|row| (row.info.pid, row.info.tid)).collect()
}

fn mix(row: &ProcessRow) -> String {
    let count = |wanted: fn(&Protocol) -> bool| {
        row.connections.iter().filter(|c| wanted(&c.protocol)).count()
    };
    let tcp = count(|p| matches!(p, Protocol::Tcp));
    let udp = count(|p| matches!(p, Protocol::Udp));
    let other = count(|p| matches!(p, Protocol::Other(_)));
    format!("T:{tcp} U:{udp} O:{other}")
}

#[test]
fn every_column_sorts_as_the_standard_library_does() {
    let columns: [(SortColumn, fn(&ProcessRow, &ProcessRow) -> std::cmp::Ordering); 10] = [
        (SortColumn::Pid, |a, b| a.info.pid.cmp(&b.info.pid)),
        (SortColumn::Tid, |a, b| a.info.tid.cmp(&b.info.tid)),
        (SortColumn::Process, |a, b| a.info.name.cmp(&b.info.name)),
        (SortColumn::Thread, |a, b| a.info.thread_name.cmp(&b.info.thread_name)),
        (SortColumn::User, |a, b| a.info.username.cmp(&b.info.username)),
        (SortColumn::ProtocolMix, |a, b| mix(a).cmp(&mix(b))),
        (SortColumn::TxRate, |a, b| a.tx_history[0].cmp(&b.tx_history[0])),
        (SortColumn::RxRate, |a, b| a.rx_history[0].cmp(&b.rx_history[0])),
        (SortColumn::TxTotal, |a, b| a.tx_bytes.cmp(&b.tx_bytes)),
        (SortColumn::RxTotal, |a, b| a.rx_bytes.cmp(&b.rx_bytes)),
    ];
    for (column, compare) in columns {
        let mut upwards = rows();
        upwards.sort_by(compare);
        assert_eq!(order(&sorted_rows(rows(), column, true)), order(&upwards), "{column:?}");
        let mut downwards = rows();
        downwards.sort_by(|a, b| compare(a, b).reverse());
        assert_eq!(order(&sorted_rows(rows(), column, false)), order(&downwards), "{column:?}");
    }
}

#[test]
fn one_row_needs_no_sorting() {
    let mut single = rows();
    single.truncate(1);
    single[0].tx_history[0] = u64::MAX;
    single[0].tx_history[1] = u64::MAX;
    assert_eq!(order(&sorted_rows(single, SortColumn::TxRate, true)), [(30, 1)]);
    assert!(sorted_rows(vec![], SortColumn::Pid, false).is_empty());
}

#[test]
fn connections_of_the_selected_thread_are_visible() {
    let rows = rows();
    let all: Vec<(bool, u32)> = collect_visible_connections(&rows, None)
        .iter()
        .map(|shown| (shown.is_blocked, shown.entry.pid))
        .collect();
    assert_eq!(
        all,
        [(false, 30), (false, 30), (false, 7), (false, 100), (false, 100), (true, 8), (true, 8)]
    );
    let chosen = Some(ThreadKey { pid: 8, tid: 1 });
    assert_eq!(collect_visible_connections(&rows, chosen).len(), 2);
    let nobody = Some(ThreadKey { pid: 8, tid: 2 });
    assert_eq!(collect_visible_connections(&rows, nobody).len(), 0);
}

#[test]
fn traffic_has_three_levels() {
    assert_eq!(severity_of(0), Severity::Normal);
    assert_eq!(severity_of(1_048_576), Severity::Normal);
    assert_eq!(severity_of(1_048_577), Severity::High);
    assert_eq!(severity_of(10_485_760), Severity::High);
    assert_eq!(severity_of(10_485_761), Severity::VeryHigh);
}

#[test]
fn the_full_table_shows_all_of_a_row() {
    let mut rows = rows();
    rows[4].tx_history[0] = 4 << 20;
    rows[4].tx_history[1] = 2 << 20;
    let cells = process_cells(&rows[4], false, Some(ThreadKey { pid: 8, tid: 1 }));
    assert_eq!(cells.pid, "8");
    assert_eq!(cells.process, "日本");
    assert_eq!(cells.user, "eve");
    assert_eq!(cells.mix, "T:2 U:0 O:0");
    assert_eq!(cells.tx_rate, "3.0 MB/s");
    assert_eq!(cells.rx_rate, "1 B/s");
    assert_eq!(cells.tx_total, "1.00 B");
    assert_eq!(cells.rx_total, "10.00 B");
    assert_eq!(cells.tid, "1");
    assert_eq!(cells.thread, "b");
    assert_eq!(cells.severity, Severity::High);
    assert!(cells.is_blocked);
    assert!(cells.is_selected);
    let cells = process_cells(&rows[0], true, Some(ThreadKey { pid: 8, tid: 1 }));
    assert_eq!(cells.rx_total, "400.00 b");
    assert!(!cells.is_blocked && !cells.is_selected);
}

#[test]
fn the_two_tables_measure_traffic_differently() {
    let mut rows = rows();
    rows[0].tx_history = [1 << 20; 300];
    rows[0].rx_history = [1 << 20; 300];
    assert_eq!(process_cells(&rows[0], false, None).severity, Severity::Normal);
    let short = short_process_cells(&rows[0]);
    assert_eq!(short.severity, Severity::High);
    assert_eq!(short.pid, "30");
    assert_eq!(short.process, "zsh");
    assert_eq!(short.user, "eve");
    assert_eq!(short.tx_rate, "1.0 MB/s");
    assert_eq!(short.rx_rate, "1.0 MB/s");
    assert_eq!(short.tx_total, "1.00 B");
    assert_eq!(short.rx_total, "50.00 B");
}

#[test]
fn connections_have_eleven_cells() {
    assert_eq!(
        connection_cells(&entry(3, Protocol::Other(9))),
        ["3", "4", "worker", "server", "www", "10.0.0.1:3", "10.0.0.2:443", "OTHER", "LISTEN", "17", "18"]
    );
}

#[test]
fn controls_name_the_selected_row() {
    let rows = rows();
    let shown = selected_row(&rows, Some(ThreadKey { pid: 7, tid: 9 })).unwrap();
    assert_eq!((shown.pid, shown.tid, shown.uid), (7, 9, 1));
    assert_eq!(shown.name, "Zsh");
    assert_eq!(shown.thread_name, "é");
    assert_eq!(shown.username, "adam");
    assert_eq!(shown.title, "Zsh (PID 7, TID 9)");
    assert_eq!(shown.user_line, "User: adam");
    assert_eq!(shown.connections_title, "Zsh (PID 7) • User: adam");
    assert!(selected_row(&rows, None).is_none());
    assert!(selected_row(&rows, Some(ThreadKey { pid: 7, tid: 8 })).is_none());
}

#[test]
fn clicks_select_and_deselect() {
    let rows = rows();
    let own = Some(ThreadKey { pid: 30, tid: 1 });
    let other = Some(ThreadKey { pid: 7, tid: 9 });
    assert_eq!(toggled_selection(&rows[0], None), own);
    assert_eq!(toggled_selection(&rows[0], own), None);
    assert_eq!(toggled_selection(&rows[0], other), own);
    assert_eq!(toggled_selection(&rows[0], toggled_selection(&rows[0], own)), own);
    assert_eq!(toggled_selection(&rows[0], toggled_selection(&rows[0], other)), None);
}
