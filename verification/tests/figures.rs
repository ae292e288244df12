use netmon::monitor::dashboard::{
    has_insights, insights, interface_summary, kpi_values, rank_color, shorten,
    utilization_percent, DashboardCache, Rgb,
};
use netmon::monitor::model::{
    find_row, ConnectionEntry, InterfaceStats, ProcessInfo, ProcessRow, Protocol, ThreadKey,
};
use netmon::monitor::stats::{
    chart_series, chart_window, compute_top_processes, count_connections, count_protocols,
    detect_spike, find_top_port, format_protocol, mix_line, protocol_label, protocol_mix_summary,
    service_name, total_rate, two_second_avg,
};
use netmon::monitor::table::Severity;

fn connection(port: u16, protocol: Protocol, tx_bytes: u64, rx_bytes: u64) -> ConnectionEntry {
    ConnectionEntry {
        local_addr: "127.0.0.1:1".to_string(),
        remote_addr: format!("10.0.0.1:{port}"),
        remote_port: port,
        protocol,
        state: "ESTABLISHED".to_string(),
        pid: 1,
        tid: 1,
        process: "p".to_string(),
        thread_name: "t".to_string(),
        uid: 0,
        username: "root".to_string(),
        tx_bytes,
        rx_bytes,
    }
}

fn row(pid: u32, tx: [u64; 2], rx: [u64; 2], connections: Vec<ConnectionEntry>) -> ProcessRow {
    let mut tx_history = [0u64; 300];
    let mut rx_history = [0u64; 300];
    tx_history[..2].copy_from_slice(&tx);
    rx_history[..2].copy_from_slice(&rx);
    ProcessRow {
        info: ProcessInfo {
            pid,
            tid: pid,
            name: format!("process{pid}"),
            thread_name: format!("thread{pid}"),
            uid: 1000,
            username: "eve".to_string(),
        },
        tx_bytes: 0,
        rx_bytes: 0,
        tx_history,
        rx_history,
        is_blocked: false,
        connections,
    }
}

#[test]
fn rates_are_means_of_two_seconds() {
    let mut history = [9u64; 300];
    history[0] = 3;
    history[1] = 4;
    assert_eq!(two_second_avg(&history), 3);
    assert_eq!(total_rate(&row(1, [10, 20], [1, 2], vec![])), 16);
    assert_eq!(total_rate(&row(1, [u64::MAX, 0], [0, u64::MAX], vec![])), u64::MAX - 1);
}

#[test]
fn the_busiest_processes_come_first() {
    let rows = vec![
        row(1, [2, 2], [0, 0], vec![]),
        row(2, [8, 8], [1, 1], vec![]),
        row(3, [0, 0], [2, 2], vec![]),
        row(4, [9, 9], [0, 0], vec![]),
    ];
    let top: Vec<(u32, u64)> = compute_top_processes(&rows, 3)
        .into_iter()
        .map(|(row, rate)| (row.info.pid, rate))
        .collect();
    assert_eq!(top, [(2, 9), (4, 9), (1, 2)]);
    assert_eq!(compute_top_processes(&rows, 9).len(), 4);
    assert_eq!(compute_top_processes(&rows, 0).len(), 0);
}

#[test]
fn spikes_lie_above_the_threshold() {
    assert_eq!(detect_spike(&vec![]), None);
    assert_eq!(detect_spike(&vec![row(1, [500_000_000, 500_000_000], [0, 0], vec![])]), None);
    let rows = vec![
        row(1, [500_000_000, 500_000_000], [0, 0], vec![]),
        row(2, [0, 0], [1, 1], vec![]),
    ];
    assert_eq!(detect_spike(&rows), Some(500_000_001));
}

#[test]
fn the_top_port_has_the_most_bytes() {
    assert_eq!(find_top_port(&vec![]), None);
    assert_eq!(find_top_port(&vec![row(1, [0, 0], [0, 0], vec![])]), None);
    let rows = vec![
        row(1, [0, 0], [0, 0], vec![connection(443, Protocol::Tcp, 5, 5), connection(53, Protocol::Udp, 8, 1)]),
        row(2, [0, 0], [0, 0], vec![connection(53, Protocol::Udp, 1, 1), connection(9, Protocol::Tcp, 0, 0)]),
    ];
    assert_eq!(find_top_port(&rows), Some((53, "DNS".to_string())));
    let silent = vec![row(1, [0, 0], [0, 0], vec![connection(65535, Protocol::Tcp, 0, 0)])];
    assert_eq!(find_top_port(&silent), Some((65535, "Other".to_string())));
}

#[test]
fn ports_are_known_for_services() {
    let services = [
        (80, "HTTP"), (443, "HTTPS"), (53, "DNS"), (22, "SSH"), (21, "FTP"), (25, "SMTP"),
        (3306, "MySQL"), (5432, "PostgreSQL"), (6379, "Redis"), (27017, "MongoDB"), (0, "Other"),
        (8080, "Other"),
    ];
    for (port, name) in services {
        assert_eq!(service_name(port), name);
    }
}

#[test]
fn connections_are_counted_by_protocol() {
    let rows = vec![
        row(1, [0, 0], [0, 0], vec![
            connection(1, Protocol::Tcp, 0, 0),
            connection(1, Protocol::Other(47), 0, 0),
            connection(1, Protocol::Tcp, 0, 0),
        ]),
        row(2, [0, 0], [0, 0], vec![connection(1, Protocol::Udp, 0, 0)]),
    ];
    assert_eq!(count_protocols(&rows), (2, 1, 1));
    assert_eq!(count_connections(&rows), 4);
    assert_eq!(count_protocols(&vec![]), (0, 0, 0));
    assert_eq!(protocol_mix_summary(&rows[0]), "T:2 U:0 O:1");
    assert_eq!(protocol_mix_summary(&rows[1]), "T:0 U:1 O:0");
    assert_eq!(mix_line(10, 0, 3), "T:10 U:0 O:3");
}

#[test]
fn protocols_have_two_kinds_of_names() {
    assert_eq!(format_protocol(Protocol::Tcp), "TCP");
    assert_eq!(format_protocol(Protocol::Udp), "UDP");
    assert_eq!(format_protocol(Protocol::Other(1)), "OTHER");
    assert_eq!(protocol_label(Protocol::Tcp), "TCP");
    assert_eq!(protocol_label(Protocol::Udp), "UDP");
    assert_eq!(protocol_label(Protocol::Other(132)), "Other(132)");
}

#[test]
fn charts_show_the_selected_thread_or_the_sum() {
    let rows = vec![
        row(1, [1, 2], [3, 4], vec![]),
        row(2, [10, 20], [u64::MAX, 40], vec![]),
    ];
    assert_eq!(chart_series(&rows, None, false, 3), [11, 22, 0]);
    assert_eq!(chart_series(&rows, None, true, 2), [u64::MAX, 44]);
    let second = Some(ThreadKey { pid: 2, tid: 2 });
    assert_eq!(chart_series(&rows, second, false, 2), [10, 20]);
    let nobody = Some(ThreadKey { pid: 2, tid: 3 });
    assert_eq!(chart_series(&rows, nobody, true, 2), [0, 0]);
    assert_eq!(chart_series(&rows, None, false, 0).len(), 1);
    assert_eq!(chart_series(&rows, None, false, 1000).len(), 300);
    assert_eq!(chart_window(0), 1);
    assert_eq!(chart_window(60), 60);
    assert_eq!(chart_window(301), 300);
    assert_eq!(find_row(&rows, ThreadKey { pid: 2, tid: 2 }), Some(1));
    assert_eq!(find_row(&rows, ThreadKey { pid: 1, tid: 2 }), None);
}

#[test]
fn the_dashboard_starts_empty() {
    let cache = DashboardCache::new();
    assert!(cache.top_processes.is_empty());
    assert_eq!(cache.total_connections, 0);
    let found = insights(&cache);
    assert!(!has_insights(&found));
    let values = kpi_values(&cache, &InterfaceStats::idle());
    assert_eq!(values.tx_rate, "0 B/s");
    assert_eq!(values.utilization, "0%");
    assert_eq!(values.protocols, "T:0 U:0 O:0");
    assert!(!values.any_blocked);
}

#[test]
fn the_dashboard_sums_up_the_rows() {
    let mut rows = Vec::new();
    for pid in 1..=7 {
        rows.push(row(pid, [u64::from(pid) * 2048, 0], [0, 0], vec![
            connection(443, Protocol::Tcp, 1, 1),
            connection(53, Protocol::Udp, 0, 0),
        ]));
    }
    let mut interface = InterfaceStats::idle();
    interface.tx_history[0] = 2048;
    interface.rx_history[0] = 3;
    interface.current_bandwidth_bytes_per_sec = 387_973;
    interface.peak_bandwidth_bytes_per_sec = 1 << 20;
    let cache = DashboardCache::compute(&rows, 2, &interface, 37);
    let top: Vec<(u32, u32, &str, u64)> = cache
        .top_processes
        .iter()
        .map(|p| (p.pid, p.tid, p.name.as_str(), p.rate))
        .collect();
    assert_eq!(top, [
        (7, 7, "process7", 7168), (6, 6, "process6", 6144), (5, 5, "process5", 5120),
        (4, 4, "process4", 4096), (3, 3, "process3", 3072),
    ]);
    assert_eq!(cache.spike_detected, None);
    assert_eq!(cache.top_port, Some((443, "HTTPS".to_string())));
    assert_eq!(cache.blocked_process_count, 2);
    assert_eq!(cache.active_process_count, 7);
    assert_eq!(cache.total_connections, 14);
    assert_eq!(
        (cache.protocol_tcp_count, cache.protocol_udp_count, cache.protocol_other_count),
        (7, 7, 0)
    );
    let values = kpi_values(&cache, &interface);
    assert_eq!(values.tx_rate, "2.0 KB/s");
    assert_eq!(values.rx_rate, "3 B/s");
    assert_eq!(values.peak, "1.0 MB/s");
    assert_eq!(values.utilization, "37%");
    assert_eq!(values.connections, "14");
    assert_eq!(values.processes, "7");
    assert_eq!(values.blocked, "2");
    assert!(values.any_blocked);
    assert_eq!(values.protocols, "T:7 U:7 O:0");
    let found = insights(&cache);
    assert!(has_insights(&found));
    assert_eq!(found.top_consumer.as_deref(), Some("process7\n7.0 KB/s/s"));
    assert_eq!(found.spike, None);
    assert_eq!(found.top_port.as_deref(), Some(":443\nHTTPS"));
}

#[test]
fn a_spike_is_an_insight() {
    let rows = vec![row(1, [1 << 30, 1 << 30], [0, 0], vec![])];
    let cache = DashboardCache::compute(&rows, 0, &InterfaceStats::idle(), 100);
    assert_eq!(insights(&cache).spike.as_deref(), Some("1024.0 MB/s"));
}

#[test]
fn utilization_is_a_share_of_the_peak() {
    assert_eq!(utilization_percent(0, 0, 0), 0);
    assert_eq!(utilization_percent(7, 0, 255), 0);
    assert_eq!(utilization_percent(10, 10, 100), 100);
    assert_eq!(utilization_percent(11, 10, 110), 100);
    assert_eq!(utilization_percent(11, 10, 3), 100);
    assert_eq!(utilization_percent(37, 100, 37), 37);
    assert_eq!(utilization_percent(0, 100, 0), 0);
    assert_eq!(utilization_percent(99, 100, 255), 100);
    for (current, peak) in [(1u64, 3u64), (2, 3), (299, 300), (u64::MAX - 1, u64::MAX)] {
        let share = ((current as f64 / peak as f64) * 100.0) as u8;
        let expected = ((current as f64 / peak as f64) * 100.0).min(100.0) as u8;
        assert_eq!(utilization_percent(current, peak, share), expected);
    }
}

#[test]
fn figures_are_computed_again_after_a_tenth_of_a_second() {
    let rows = vec![row(1, [10, 10], [0, 0], vec![
        connection(443, Protocol::Tcp, 1, 1),
        connection(53, Protocol::Udp, 0, 0),
        connection(9, Protocol::Other(132), 0, 0),
    ])];
    let mut interface = InterfaceStats::idle();
    interface.current_bandwidth_bytes_per_sec = 5;
    interface.peak_bandwidth_bytes_per_sec = 5;
    let mut cache = DashboardCache::new();
    assert!(!cache.update(99, &rows, 3, &interface, 100));
    assert!(cache.top_processes.is_empty());
    assert_eq!(cache.active_process_count, 0);
    assert_eq!(cache.blocked_process_count, 0);
    assert_eq!(cache.network_utilization_percent, 0);
    assert!(cache.update(100, &rows, 3, &interface, 100));
    assert_eq!(cache.top_processes.len(), 1);
    assert_eq!(cache.active_process_count, 1);
    assert_eq!(cache.blocked_process_count, 3);
    assert_eq!(cache.network_utilization_percent, 100);
    assert_eq!(
        cache.total_connections,
        cache.protocol_tcp_count + cache.protocol_udp_count + cache.protocol_other_count
    );
    assert_eq!(cache.total_connections, 3);
}

#[test]
fn names_are_cut_after_twelve_bytes() {
    for name in ["", "cat", "exactly12byt", "a-rather-long-name", "größe-und-mehr", "日本語テスト"] {
        let cut = name.len().min(12);
        assert_eq!(shorten(name), &name[..cut]);
    }
}

#[test]
fn the_summary_of_the_interface_warns() {
    let mut interface = InterfaceStats::idle();
    interface.tx_bytes_total = 2048;
    interface.rx_bytes_total = 1 << 30;
    interface.peak_bandwidth_bytes_per_sec = 20 << 20;
    for (current, severity) in [
        (0, Severity::Normal),
        (1 << 20, Severity::Normal),
        ((1 << 20) + 1, Severity::High),
        (10 << 20, Severity::High),
        ((10 << 20) + 1, Severity::VeryHigh),
    ] {
        interface.current_bandwidth_bytes_per_sec = current;
        assert_eq!(interface_summary(&interface, false).severity, severity);
    }
    interface.current_bandwidth_bytes_per_sec = 512;
    let summary = interface_summary(&interface, false);
    assert_eq!(summary.tx_total, "2.00 KB");
    assert_eq!(summary.rx_total, "1.00 GB");
    assert_eq!(summary.current, "512 B/s/s");
    assert_eq!(summary.peak, "20.0 MB/s/s");
    assert_eq!(interface_summary(&interface, true).tx_total, "16.00 Kb");
}

#[test]
fn ranks_have_colours() {
    assert_eq!(rank_color(1), Rgb { red: 255, green: 100, blue: 100 });
    assert_eq!(rank_color(2), Rgb { red: 255, green: 165, blue: 0 });
    assert_eq!(rank_color(3), Rgb { red: 255, green: 215, blue: 0 });
    assert_eq!(rank_color(0), Rgb { red: 100, green: 150, blue: 255 });
    assert_eq!(rank_color(4), Rgb { red: 100, green: 150, blue: 255 });
}
