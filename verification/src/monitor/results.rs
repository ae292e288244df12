//! What the functions of the monitor give for what they are given.

use vstd::prelude::*;

use crate::controller::scope::{Control, Target};
use crate::decimal;
use crate::monitor::capture;
use crate::monitor::capture::{apply_filter, export_pcap, CaptureStart, SessionChange};
use crate::monitor::control;
use crate::monitor::control::{control_status, ControlSets, Request};
use crate::monitor::csv;
use crate::monitor::csv::{export_csv, history_header, history_line, write_history_csv, FieldStyle};
use crate::monitor::dashboard;
use crate::monitor::dashboard::{
    insights, interface_summary, kpi_values, utilization_percent, DashboardCache, Insights,
    InterfaceSummary, KpiValues,
};
use crate::monitor::desktop;
use crate::monitor::desktop::{
    csv_export_path, figures_are_due, pcap_export_path, recording_path, Desktop, FilterRequest,
};
use crate::monitor::export::{csv_status, pcap_obstacle, pcap_status, CsvOutcome, PcapOutcome};
use crate::monitor::model;
use crate::monitor::model::{
    ConnectionEntry, HistoryCsvRow, InterfaceStats, ProcessRow, ThreadKey,
};
use crate::monitor::ordering;
use crate::monitor::snapshot;
use crate::monitor::snapshot::{collect_connections, get_snapshot, ConnectionSnapshot, Snapshot};
use crate::monitor::stats;
use crate::monitor::stats::{
    chart_series, compute_top_processes, count_connections, count_protocols, detect_spike,
    find_top_port, protocol_mix_summary, service_name, total_rate, two_second_avg,
};
use crate::monitor::system;
use crate::monitor::system::{ensure_privileges, get_user_home, has_required_capabilities};
use crate::monitor::table;
use crate::monitor::table::{
    collect_visible_connections, connection_cells, process_cells, selected_row,
    short_process_cells, sorted_rows, toggled_selection, ProcessCells, SelectedRow, Severity,
    ShortProcessCells, SortColumn, VisibleConnection,
};
use crate::monitor::units;
use crate::monitor::units::{format_bandwidth, format_bytes, format_bytes_or_bits};
use crate::scan;
use crate::text;

verus! {

/// A snapshot holds the rows that have sent and received most, as many as are
/// asked for, or twenty-five, each with what is known of it and with the marks
/// of who is under control; and no more connections than are asked for, or
/// fifty.
pub proof fn snapshots_hold_the_largest_rows(
    rows: Vec<ProcessRow>,
    interface: Option<InterfaceStats>,
    status: Option<String>,
    filter: Option<&str>,
    sets: ControlSets,
    top_n: Option<usize>,
    max_connections: Option<usize>,
    at: u128,
    taken: Snapshot,
    k: int,
)
    requires
        snapshot::totals_fit(rows@),
        call_ensures(
            get_snapshot,
            (rows, &interface, status, filter, &sets, top_n, max_connections, at),
            taken,
        ),
    ensures
        ({
            let asked: int = if top_n is Some {
                top_n->0 as int
            } else {
                25
            };
            let most: int = if max_connections is Some {
                max_connections->0 as int
            } else {
                50
            };
            let size: int = if asked < rows@.len() {
                asked
            } else {
                rows@.len() as int
            };
            let places = ordering::sorted_order(snapshot::total_keys(rows@), true).take(size);
            let measure = |row: ProcessRow| row.tx_bytes + row.rx_bytes;
            &&& taken.processes@.len() == size
            &&& taken.connections@.len() <= most
            &&& ordering::is_top_by(snapshot::top_rows(rows@, asked), rows@, measure, places)
            &&& 0 <= k < size ==> {
                let shown = taken.processes@[k];
                let row = rows@[places[k]];
                &&& (shown.pid, shown.tid, shown.uid) == (
                    row.info.pid,
                    row.info.tid,
                    row.info.uid,
                )
                &&& (shown.tx_bytes, shown.rx_bytes) == (row.tx_bytes, row.rx_bytes)
                &&& shown.is_process_blocked == control::controlled(
                    sets,
                    Target::Process { pid: row.info.pid },
                    Control::Block,
                )
                &&& shown.is_thread_blocked == control::controlled(
                    sets,
                    Target::Thread { pid: row.info.pid, tid: row.info.tid },
                    Control::Block,
                )
                &&& shown.is_user_blocked == control::controlled(
                    sets,
                    Target::User { uid: row.info.uid },
                    Control::Block,
                )
                &&& shown.is_process_rate_limited == control::controlled(
                    sets,
                    Target::Process { pid: row.info.pid },
                    Control::Limit,
                )
                &&& shown.is_thread_rate_limited == control::controlled(
                    sets,
                    Target::Thread { pid: row.info.pid, tid: row.info.tid },
                    Control::Limit,
                )
                &&& shown.is_user_rate_limited == control::controlled(
                    sets,
                    Target::User { uid: row.info.uid },
                    Control::Limit,
                )
            }
            &&& taken.blocked.processes == sets.blocked_pids@.len()
            &&& taken.blocked.threads == sets.blocked_threads@.len()
            &&& taken.blocked.users == sets.blocked_users@.len()
            &&& status matches Some(line) ==> taken.status@ == line@
            &&& taken.captured_at_ms == at
        }),
{
    let asked: int = if top_n is Some {
        top_n->0 as int
    } else {
        25
    };
    let most: int = if max_connections is Some {
        max_connections->0 as int
    } else {
        50
    };
    let top = snapshot::top_rows(rows@, asked);
    snapshot::shown_rows_have_the_largest_totals(rows@, asked);
    snapshot::shown_connections_are_the_first(
        top,
        snapshot::is_active(text::optional_str(filter)),
        most,
    );
    if 0 <= k < top.len() {
        let shown = taken.processes@[k];
        assert(snapshot::describes_row(shown, top[k], sets));
        snapshot::rows_are_handed_on(top[k], sets, shown);
        snapshot::shown_marks_are_controls(top[k], sets, shown);
        let places = ordering::sorted_order(snapshot::total_keys(rows@), true).take(
            top.len() as int,
        );
        assert(0 <= places[k] < rows@.len() && top[k] == rows@[places[k]]);
    }
}

/// Two snapshots of the same rows, the one before and the other after something
/// was recorded, differ in the mark for just that, in the rows of just that
/// target.
pub proof fn snapshots_follow_what_is_recorded(
    rows: Vec<ProcessRow>,
    interface: Option<InterfaceStats>,
    status: Option<String>,
    filter: Option<&str>,
    earlier: ControlSets,
    later: ControlSets,
    top_n: Option<usize>,
    max_connections: Option<usize>,
    at: u128,
    first: Snapshot,
    second: Snapshot,
    target: Target,
    control: Control,
    on: bool,
    k: int,
)
    requires
        rows@.len() > 1 ==> snapshot::totals_fit(rows@),
        call_ensures(
            get_snapshot,
            (rows, &interface, status, filter, &earlier, top_n, max_connections, at),
            first,
        ),
        call_ensures(
            get_snapshot,
            (rows, &interface, status, filter, &later, top_n, max_connections, at),
            second,
        ),
        control::recorded(earlier, later, target, control, on),
        0 <= k < first.processes@.len(),
    ensures
        second.processes@.len() == first.processes@.len(),
        ({
            let was = first.processes@[k];
            let now = second.processes@[k];
            let process = target == (Target::Process { pid: was.pid });
            let thread = target == (Target::Thread { pid: was.pid, tid: was.tid });
            let user = target == (Target::User { uid: was.uid });
            let block = control == Control::Block;
            &&& (now.pid, now.tid, now.uid) == (was.pid, was.tid, was.uid)
            &&& now.is_process_blocked == if process && block {
                on
            } else {
                was.is_process_blocked
            }
            &&& now.is_thread_blocked == if thread && block {
                on
            } else {
                was.is_thread_blocked
            }
            &&& now.is_user_blocked == if user && block {
                on
            } else {
                was.is_user_blocked
            }
            &&& now.is_process_rate_limited == if process && !block {
                on
            } else {
                was.is_process_rate_limited
            }
            &&& now.is_thread_rate_limited == if thread && !block {
                on
            } else {
                was.is_thread_rate_limited
            }
            &&& now.is_user_rate_limited == if user && !block {
                on
            } else {
                was.is_user_rate_limited
            }
        }),
{
    let asked = snapshot::or_default(top_n, snapshot::SNAPSHOT_DEFAULT_TOP_N) as int;
    let row = snapshot::top_rows(rows@, asked)[k];
    let was = first.processes@[k];
    let now = second.processes@[k];
    assert(snapshot::describes_row(was, row, earlier));
    assert(snapshot::describes_row(now, row, later));
    snapshot::rows_are_handed_on(row, earlier, was);
    snapshot::rows_are_handed_on(row, later, now);
    snapshot::recorded_controls_are_shown(row, earlier, later, was, now, target, control, on);
}

/// Without a filter, and where no fewer are asked for, all connections of the
/// rows are shown, in order; with one, those over which anything has gone.
pub proof fn connections_are_collected(
    rows: Vec<ProcessRow>,
    filter_active: bool,
    max_connections: usize,
    list: Vec<ConnectionSnapshot>,
    k: int,
)
    requires
        call_ensures(collect_connections, (&rows, filter_active, max_connections), list),
        0 <= k < list@.len(),
    ensures
        list@.len() <= max_connections,
        !filter_active ==> {
            let all = stats::all_connections(rows@);
            &&& list@.len() == if max_connections < all.len() {
                max_connections as int
            } else {
                all.len() as int
            }
            &&& list@[k].local_addr@ == all[k].local_addr@
            &&& list@[k].remote_addr@ == all[k].remote_addr@
            &&& (list@[k].tx_bytes, list@[k].rx_bytes) == (all[k].tx_bytes, all[k].rx_bytes)
        },
        filter_active ==> list@[k].tx_bytes > 0 || list@[k].rx_bytes > 0,
{
    let all = stats::all_connections(rows@);
    let most = max_connections as int;
    snapshot::shown_connections_are_the_first(rows@, filter_active, most);
    if !filter_active && all.len() > 0 {
        snapshot::connections_are_kept_one_by_one(all, all, all[0], false);
    }
    if all.len() == 0 {
        assert(all =~= Seq::empty());
        assert(snapshot::kept(all, filter_active) =~= Seq::empty());
    }
    let entry = snapshot::shown_connections(rows@, filter_active, most)[k];
    assert(snapshot::describes_connection(list@[k], entry));
    snapshot::connections_are_handed_on(entry, list@[k]);
    snapshot::shown_connections_are_of_shown_rows(rows@, filter_active, most, k);
}

/// The top port is one that a connection goes to, and no connection alone has
/// carried more, sent and received together, than those to it; of two
/// connections to different ports the one that has carried more names it.
pub proof fn top_ports_have_carried_most(
    rows: Vec<ProcessRow>,
    top: Option<(u16, String)>,
    i: int,
)
    requires
        stats::ports_fit(rows@),
        call_ensures(find_top_port, (&rows,), top),
        0 <= i < stats::all_connections(rows@).len(),
    ensures
        ({
            let all = stats::all_connections(rows@);
            &&& top matches Some((port, service))
            &&& stats::port_in_use(all, port)
            &&& service@ == stats::service_text(port)
            &&& all[i].tx_bytes + all[i].rx_bytes <= stats::port_bytes(all, port)
            &&& all.len() == 2 && all[0].remote_port != all[1].remote_port && all[i].tx_bytes
                + all[i].rx_bytes > all[1 - i].tx_bytes + all[1 - i].rx_bytes ==> port
                == all[i].remote_port
        }),
{
    if let Some((port, service)) = top {
        stats::top_ports_have_carried_most(stats::all_connections(rows@), port, i);
    }
}

/// The rates are means of two samples; that of a thread counts both directions,
/// and a spike all threads.
pub proof fn rates_are_worked_out(
    row: ProcessRow,
    sent: u64,
    both: u64,
    rows: Vec<ProcessRow>,
    spike: Option<u64>,
)
    requires
        stats::row_fits(row),
        stats::rows_fit(rows@),
        stats::sum_of_rates(rows@) <= u64::MAX,
        call_ensures(two_second_avg, (&row.tx_history,), sent),
        call_ensures(total_rate, (&row,), both),
        call_ensures(detect_spike, (&rows,), spike),
    ensures
        sent == (row.tx_history@[0] + row.tx_history@[1]) / 2,
        both == (row.tx_history@[0] + row.tx_history@[1]) / 2 + (row.rx_history@[0]
            + row.rx_history@[1]) / 2,
        spike is Some <==> stats::sum_of_rates(rows@) > 500_000_000,
        spike matches Some(rate) ==> rate == stats::sum_of_rates(rows@),
{
    stats::rates_count_both_directions(row, row);
}

/// The top rows are the ones with the highest rates, the highest first, each
/// with its rate.
pub proof fn top_rows_have_the_highest_rates<'a>(
    rows: &'a Vec<ProcessRow>,
    limit: usize,
    top: Vec<(&'a ProcessRow, u64)>,
    k: int,
)
    requires
        stats::rows_fit(rows@),
        call_ensures(compute_top_processes, (rows, limit), top),
        0 <= k < top@.len(),
    ensures
        ({
            let size: int = if limit < rows@.len() {
                limit as int
            } else {
                rows@.len() as int
            };
            let places = ordering::sorted_order(stats::rate_keys(rows@), true).take(size);
            let row = rows@[places[k]];
            let measure = |row: ProcessRow|
                (row.tx_history@[0] + row.tx_history@[1]) / 2 + (row.rx_history@[0]
                    + row.rx_history@[1]) / 2;
            &&& top@.len() == size
            &&& ordering::is_top_by(stats::ranked(rows@).take(size), rows@, measure, places)
            &&& *top@[k].0 == row
            &&& top@[k].1 == (row.tx_history@[0] + row.tx_history@[1]) / 2 + (
            row.rx_history@[0] + row.rx_history@[1]) / 2
        }),
{
    let size: int = if limit < rows@.len() {
        limit as int
    } else {
        rows@.len() as int
    };
    stats::ranked_rows_have_the_highest_rates(rows@, size);
    let places = ordering::sorted_order(stats::rate_keys(rows@), true).take(size);
    assert(stats::ranked(rows@).take(size)[k] == rows@[places[k]]);
    assert(*top@[k].0 == stats::ranked(rows@)[k]);
}

/// Counting goes row by row: the counts of two groups of rows together are
/// those of the one and those of the other, and the three kinds are all.
pub proof fn counts_add_up(
    a: Vec<ProcessRow>,
    b: Vec<ProcessRow>,
    both: Vec<ProcessRow>,
    first: (usize, usize, usize),
    second: (usize, usize, usize),
    sum: (usize, usize, usize),
    connections: usize,
)
    requires
        both@ == a@ + b@,
        stats::all_connections(both@).len() <= usize::MAX,
        call_ensures(count_protocols, (&a,), first),
        call_ensures(count_protocols, (&b,), second),
        call_ensures(count_protocols, (&both,), sum),
        call_ensures(count_connections, (&both,), connections),
    ensures
        sum.0 == first.0 + second.0,
        sum.1 == first.1 + second.1,
        sum.2 == first.2 + second.2,
        connections == sum.0 + sum.1 + sum.2,
{
    let x = stats::all_connections(a@);
    let y = stats::all_connections(b@);
    if a@.len() > 0 {
        stats::connections_add_up(a@, b@, a@[0]);
    } else {
        assert(both@ =~= b@);
        assert(a@ =~= Seq::empty());
        assert(x =~= Seq::empty());
        assert(x + y =~= y);
    }
    if (x + y).len() > 0 {
        let entry = (x + y)[0];
        stats::connections_count_in_their_kind(x, y, entry, stats::ProtocolKind::Tcp);
        stats::connections_count_in_their_kind(x, y, entry, stats::ProtocolKind::Udp);
        stats::connections_count_in_their_kind(x, y, entry, stats::ProtocolKind::Other);
    } else {
        assert(x =~= Seq::empty());
        assert(y =~= Seq::empty());
        assert(x + y =~= Seq::empty());
    }
    stats::kinds_make_up_the_whole(x + y);
}

/// The chart of two groups of rows together is, second by second, what the one
/// has and what the other has, as far as it can be held.
pub proof fn chart_series_add_up(
    a: Vec<ProcessRow>,
    b: Vec<ProcessRow>,
    both: Vec<ProcessRow>,
    received: bool,
    window: usize,
    first: Vec<u64>,
    second: Vec<u64>,
    sum: Vec<u64>,
    i: int,
)
    requires
        both@ == a@ + b@,
        call_ensures(chart_series, (&a, None, received, window), first),
        call_ensures(chart_series, (&b, None, received, window), second),
        call_ensures(chart_series, (&both, None, received, window), sum),
        0 <= i < sum@.len(),
    ensures
        first@.len() == sum@.len() && second@.len() == sum@.len(),
        1 <= sum@.len() <= 300,
        1 <= window <= 300 ==> sum@.len() == window,
        sum@[i] == (if first@[i] + second@[i] > u64::MAX {
            u64::MAX as int
        } else {
            first@[i] + second@[i]
        }),
{
    stats::windows_are_as_asked(window as int);
    if both@.len() > 0 {
        stats::charts_add_up(a@, b@, both@[0], received, i);
    } else {
        assert(a@ =~= Seq::empty());
        assert(b@ =~= Seq::empty());
        assert(both@ =~= Seq::empty());
    }
}

/// The chart of a selected thread is its own history, of what it has received
/// or of what it has sent.
pub proof fn chart_series_show_the_selected_thread(
    rows: Vec<ProcessRow>,
    thread: ThreadKey,
    place: int,
    received: bool,
    window: usize,
    series: Vec<u64>,
    i: int,
)
    requires
        call_ensures(chart_series, (&rows, Some(thread), received, window), series),
        0 <= i < series@.len(),
        0 <= place < rows@.len(),
        forall|k: int|
            0 <= k < place ==> (#[trigger] rows@[k]).info.pid != thread.pid || rows@[k].info.tid
                != thread.tid,
        rows@[place].info.pid == thread.pid && rows@[place].info.tid == thread.tid,
    ensures
        received ==> series@[i] == rows@[place].rx_history@[i],
        !received ==> series@[i] == rows@[place].tx_history@[i],
{
    stats::windows_are_as_asked(window as int);
    stats::charts_show_the_selected_thread(rows@, thread, place, received, i);
}

/// The cards of the dashboard say what was figured out: the newest rate of each
/// direction, the peak, and the counts, which read back.
pub proof fn cards_say_what_was_figured_out(
    cache: DashboardCache,
    interface: InterfaceStats,
    values: KpiValues,
    sent: String,
    received: String,
    most: String,
)
    requires
        call_ensures(kpi_values, (&cache, &interface), values),
        call_ensures(format_bandwidth, (interface.tx_history@[0],), sent),
        call_ensures(format_bandwidth, (interface.rx_history@[0],), received),
        call_ensures(format_bandwidth, (interface.peak_bandwidth_bytes_per_sec,), most),
    ensures
        (values.tx_rate@, values.rx_rate@, values.peak@) == (sent@, received@, most@),
        values.utilization@ == decimal::decimal(cache.network_utilization_percent as nat) + "%"@,
        decimal::parsed(values.connections@, 10, usize::MAX as int) == Some(
            cache.total_connections as int,
        ),
        decimal::parsed(values.processes@, 10, usize::MAX as int) == Some(
            cache.active_process_count as int,
        ),
        decimal::parsed(values.blocked@, 10, usize::MAX as int) == Some(
            cache.blocked_process_count as int,
        ),
        values.any_blocked <==> cache.blocked_process_count > 0,
        scan::words(values.protocols@) == seq![
            "T:"@ + decimal::decimal(cache.protocol_tcp_count as nat),
            "U:"@ + decimal::decimal(cache.protocol_udp_count as nat),
            "O:"@ + decimal::decimal(cache.protocol_other_count as nat),
        ],
{
    decimal::decimal_parses(cache.total_connections as nat, usize::MAX as int);
    decimal::decimal_parses(cache.active_process_count as nat, usize::MAX as int);
    decimal::decimal_parses(cache.blocked_process_count as nat, usize::MAX as int);
    stats::mixes_read_back(
        cache.protocol_tcp_count as nat,
        cache.protocol_udp_count as nat,
        cache.protocol_other_count as nat,
    );
}

/// What is worth knowing is said exactly where it is known: the first of the
/// ranked processes, with its rate, a spike, and the top port, with its
/// service.
pub proof fn insights_say_what_is_known(cache: DashboardCache, found: Insights)
    requires
        cache.top_processes@.len() > 0 ==> dashboard::cuts_cleanly(
            cache.top_processes@[0].name@,
        ),
        call_ensures(insights, (&cache,), found),
    ensures
        found.top_consumer is Some <==> cache.top_processes@.len() > 0,
        found.top_consumer matches Some(line) ==> text::begins_with(
            line@,
            dashboard::short_name(cache.top_processes@[0].name@),
        ) && text::has_part(
            line@,
            units::bandwidth_text(cache.top_processes@[0].rate),
        ),
        found.spike is Some <==> cache.spike_detected is Some,
        found.spike matches Some(line) ==> line@ == units::bandwidth_text(
            cache.spike_detected->0,
        ),
        found.top_port is Some <==> cache.top_port is Some,
        found.top_port matches Some(line) ==> text::has_part(
            line@,
            decimal::decimal((cache.top_port->0).0 as nat),
        ) && text::finishes_with(line@, (cache.top_port->0).1@),
{
    if let Some(line) = found.top_consumer {
        let name = dashboard::short_name(cache.top_processes@[0].name@);
        let rate = units::bandwidth_text(cache.top_processes@[0].rate);
        let whole = name + "\n"@ + rate + "/s"@;
        assert(line@ == whole);
        assert(whole.subrange(0, name.len() as int) =~= name);
        let at = (name + "\n"@).len() as int;
        assert(whole.subrange(at, at + rate.len()) =~= rate);
        assert(text::occurs_at(whole, rate, at));
    }
    if let Some(line) = found.top_port {
        if let Some((port, service)) = cache.top_port {
            let digits = decimal::decimal(port as nat);
            let whole = ":"@ + digits + "\n"@ + service@;
            assert(line@ == whole);
            let at = ":"@.len() as int;
            assert(whole.subrange(at, at + digits.len()) =~= digits);
            assert(text::occurs_at(whole, digits, at));
            assert(whole.subrange(whole.len() - service@.len(), whole.len() as int) =~= service@);
        }
    }
}

/// The share of the peak, as it is shown.
pub proof fn shares_are_shown(current: u64, peak: u64, share: u8, percent: u8)
    requires
        call_ensures(utilization_percent, (current, peak, share), percent),
    ensures
        peak == 0 ==> percent == 0,
        0 < peak <= current ==> percent == 100,
        current < peak && share <= 100 ==> percent == share,
        current < peak && share > 100 ==> percent == 100,
{
    dashboard::utilization_is_a_share(current, peak, share);
}

/// The summary of the interface has each total in its own place, and warns of
/// the current bandwidth.
pub proof fn summaries_keep_directions_apart(
    interface: InterfaceStats,
    show_bits: bool,
    summary: InterfaceSummary,
    sent: String,
    received: String,
)
    requires
        call_ensures(interface_summary, (&interface, show_bits), summary),
        call_ensures(format_bytes_or_bits, (interface.tx_bytes_total, show_bits), sent),
        call_ensures(format_bytes_or_bits, (interface.rx_bytes_total, show_bits), received),
    ensures
        (summary.tx_total@, summary.rx_total@) == (sent@, received@),
        summary.severity == Severity::VeryHigh <==> interface.current_bandwidth_bytes_per_sec
            > 10 * 1024 * 1024,
        summary.severity == Severity::Normal <==> interface.current_bandwidth_bytes_per_sec
            <= 1024 * 1024,
        text::begins_with(
            summary.current@,
            units::bandwidth_text(interface.current_bandwidth_bytes_per_sec),
        ),
        text::begins_with(
            summary.peak@,
            units::bandwidth_text(interface.peak_bandwidth_bytes_per_sec),
        ),
{
    table::severity_goes_by_mebibytes(interface.current_bandwidth_bytes_per_sec as int);
    let current = units::bandwidth_text(interface.current_bandwidth_bytes_per_sec);
    let peak = units::bandwidth_text(interface.peak_bandwidth_bytes_per_sec);
    assert(summary.current@.subrange(0, current.len() as int) =~= current);
    assert(summary.peak@.subrange(0, peak.len() as int) =~= peak);
}

/// The rows of the table are in the order of the chosen column, and all there.
pub proof fn tables_are_sorted(
    rows: Vec<ProcessRow>,
    column: SortColumn,
    ascending: bool,
    sorted: Vec<ProcessRow>,
    a: int,
    b: int,
)
    requires
        forall|i: int| 0 <= i < rows@.len() ==> table::key_fits(#[trigger] rows@[i], column),
        call_ensures(sorted_rows, (rows, column, ascending), sorted),
        0 <= a < b < rows@.len(),
    ensures
        ({
            let places = ordering::sorted_order(table::row_keys(rows@, column), !ascending);
            &&& sorted@.len() == rows@.len()
            &&& ordering::is_drawn_from(sorted@, rows@, places)
            &&& table::rows_in_place(
                sorted@[a],
                sorted@[b],
                column,
                ascending,
                places[a] < places[b],
            )
        }),
{
    table::tables_are_sorted(rows@, column, ascending, a, b);
}

/// The cells of a row of the process table: its numbers read back, names stand
/// as they are, rates and totals each in their own column, the warning goes by
/// the busier direction, and the row is marked as selected if its own thread
/// is.
pub proof fn cells_tell_the_row(
    row: ProcessRow,
    show_bits: bool,
    selected: Option<ThreadKey>,
    cells: ProcessCells,
    sent: String,
    received: String,
)
    requires
        stats::row_fits(row),
        stats::mix_fits(row),
        call_ensures(process_cells, (&row, show_bits, selected), cells),
        call_ensures(format_bytes_or_bits, (row.tx_bytes, show_bits), sent),
        call_ensures(format_bytes_or_bits, (row.rx_bytes, show_bits), received),
    ensures
        decimal::parsed(cells.pid@, 10, 0xffff_ffff) == Some(row.info.pid as int),
        decimal::parsed(cells.tid@, 10, 0xffff_ffff) == Some(row.info.tid as int),
        (cells.process@, cells.user@, cells.thread@) == (
            row.info.name@,
            row.info.username@,
            row.info.thread_name@,
        ),
        cells.tx_rate@ == units::bandwidth_text(
            ((row.tx_history@[0] + row.tx_history@[1]) / 2) as u64,
        ),
        cells.rx_rate@ == units::bandwidth_text(
            ((row.rx_history@[0] + row.rx_history@[1]) / 2) as u64,
        ),
        (cells.tx_total@, cells.rx_total@) == (sent@, received@),
        ({
            let out = (row.tx_history@[0] + row.tx_history@[1]) / 2;
            let into = (row.rx_history@[0] + row.rx_history@[1]) / 2;
            &&& cells.severity == Severity::VeryHigh <==> out > 10 * 1024 * 1024 || into > 10
                * 1024 * 1024
            &&& cells.severity == Severity::Normal <==> out <= 1024 * 1024 && into <= 1024 * 1024
        }),
        cells.is_blocked == row.is_blocked,
        cells.is_selected <==> selected == Some(
            ThreadKey { pid: row.info.pid, tid: row.info.tid },
        ),
{
    decimal::decimal_parses(row.info.pid as nat, 0xffff_ffff);
    decimal::decimal_parses(row.info.tid as nat, 0xffff_ffff);
    let out = stats::short_rate(row.tx_history@);
    let into = stats::short_rate(row.rx_history@);
    table::severity_goes_by_mebibytes(table::larger(out, into));
    table::larger_is_one_of_two(out, into);
}

/// The short table warns of both directions together, and shows bytes.
pub proof fn short_cells_tell_the_row(
    row: ProcessRow,
    cells: ShortProcessCells,
    sent: String,
    received: String,
)
    requires
        stats::row_fits(row),
        call_ensures(short_process_cells, (&row,), cells),
        call_ensures(format_bytes, (row.tx_bytes,), sent),
        call_ensures(format_bytes, (row.rx_bytes,), received),
    ensures
        decimal::parsed(cells.pid@, 10, 0xffff_ffff) == Some(row.info.pid as int),
        (cells.process@, cells.user@) == (row.info.name@, row.info.username@),
        (cells.tx_total@, cells.rx_total@) == (sent@, received@),
        ({
            let rate = (row.tx_history@[0] + row.tx_history@[1]) / 2 + (row.rx_history@[0]
                + row.rx_history@[1]) / 2;
            &&& cells.severity == Severity::VeryHigh <==> rate > 10 * 1024 * 1024
            &&& cells.severity == Severity::Normal <==> rate <= 1024 * 1024
        }),
{
    decimal::decimal_parses(row.info.pid as nat, 0xffff_ffff);
    stats::rates_count_both_directions(row, row);
    table::severity_goes_by_mebibytes(stats::row_rate(row));
}

/// The cells of a connection have its numbers, read back, in the first two and
/// the last two places.
pub proof fn connection_cells_read_back(entry: ConnectionEntry, cells: Vec<String>)
    requires
        call_ensures(connection_cells, (&entry,), cells),
    ensures
        cells@.len() == 11,
        decimal::parsed(cells@[0]@, 10, 0xffff_ffff) == Some(entry.pid as int),
        decimal::parsed(cells@[1]@, 10, 0xffff_ffff) == Some(entry.tid as int),
        (cells@[5]@, cells@[6]@) == (entry.local_addr@, entry.remote_addr@),
        decimal::parsed(cells@[9]@, 10, 0xffff_ffff_ffff_ffff) == Some(entry.tx_bytes as int),
        decimal::parsed(cells@[10]@, 10, 0xffff_ffff_ffff_ffff) == Some(entry.rx_bytes as int),
{
    table::connection_rows_read_back(entry);
    let all = text::texts(cells@);
    assert(all.len() == cells@.len());
    assert(all[0] == cells@[0]@ && all[1] == cells@[1]@);
    assert(all[5] == cells@[5]@ && all[6] == cells@[6]@);
    assert(all[9] == cells@[9]@ && all[10] == cells@[10]@);
}

/// The table of connections has those of the selected thread, or all where none
/// is selected, row by row.
pub proof fn visible_connections_go_row_by_row<'a>(
    row: ProcessRow,
    rows: &'a Vec<ProcessRow>,
    selected: Option<ThreadKey>,
    visible: Vec<VisibleConnection<'a>>,
    i: int,
)
    requires
        rows@ == seq![row],
        call_ensures(collect_visible_connections, (rows, selected), visible),
    ensures
        ({
            let chosen = selected is None || selected == Some(
                ThreadKey { pid: row.info.pid, tid: row.info.tid },
            );
            &&& visible@.len() == if chosen {
                row.connections@.len()
            } else {
                0
            }
            &&& 0 <= i < visible@.len() ==> visible@[i].is_blocked == row.is_blocked
                && *visible@[i].entry == row.connections@[i]
        }),
{
    let none = Seq::<ProcessRow>::empty();
    table::visible_connections_add_up(none, none, row, selected, i);
    let list = table::connection_list(visible@);
    assert(list.len() == visible@.len());
    if 0 <= i < visible@.len() {
        assert(list[i] == (visible@[i].is_blocked, *visible@[i].entry));
    }
}

/// A click selects the thread of the row, or takes the selection back where it
/// was selected; and the selected thread is shown by the first row that has
/// both its numbers.
pub proof fn selections_go_by_thread(
    row: ProcessRow,
    selected: Option<ThreadKey>,
    next: Option<ThreadKey>,
    rows: Vec<ProcessRow>,
    place: int,
    found: Option<SelectedRow>,
)
    requires
        call_ensures(toggled_selection, (&row, selected), next),
        call_ensures(selected_row, (&rows, selected), found),
        selected is Some,
        0 <= place <= rows@.len(),
        forall|k: int|
            0 <= k < place ==> (#[trigger] rows@[k]).info.pid != selected->0.pid
                || rows@[k].info.tid != selected->0.tid,
        place < rows@.len() ==> rows@[place].info.pid == selected->0.pid && rows@[place].info.tid
            == selected->0.tid,
    ensures
        next is None <==> selected == Some(ThreadKey { pid: row.info.pid, tid: row.info.tid }),
        next matches Some(thread) ==> thread == (ThreadKey {
            pid: row.info.pid,
            tid: row.info.tid,
        }),
        found is Some <==> place < rows@.len(),
        found matches Some(shown) ==> {
            &&& (shown.pid, shown.tid) == (selected->0.pid, selected->0.tid)
            &&& shown.uid == rows@[place].info.uid
            &&& (shown.name@, shown.thread_name@, shown.username@) == (
                rows@[place].info.name@,
                rows@[place].info.thread_name@,
                rows@[place].info.username@,
            )
        },
{
    table::clicks_select(row, selected);
    model::row_place_is_here(rows@, selected->0, place);
}

/// The status line names the target by its numbers, and says what was done, or
/// what was not and why.
pub proof fn status_lines_say_what_came_of_it(
    request: Request,
    target: Target,
    name: &str,
    error: String,
    done: String,
    failed: String,
)
    requires
        call_ensures(control_status, (request, target, name, &Ok::<(), String>(())), done),
        call_ensures(control_status, (request, target, name, &Err::<(), String>(error)), failed),
    ensures
        text::has_part(done@, control::numbers_of(target)),
        text::has_part(failed@, control::numbers_of(target)),
        text::finishes_with(failed@, ": "@ + error@),
        text::begins_with(
            done@,
            match request {
                Request::Block => "Blocked "@,
                Request::Unblock => "Unblocked "@,
                Request::Limit { .. } => "Rate-limited "@,
            },
        ),
        text::begins_with(
            failed@,
            match request {
                Request::Block => "Block failed for "@,
                Request::Unblock => "Unblock failed for "@,
                Request::Limit { .. } => "Rate limit failed for "@,
            },
        ),
{
    control::reports_say_what_came_of_it(request, target, name@, error@);
}

/// A written file reads back, whole: the names of the columns, and then each
/// row, with its figures and its names.
pub proof fn written_files_read_back(rows: Vec<HistoryCsvRow>, content: String, i: int)
    requires
        call_ensures(write_history_csv, (&rows,), content),
        forall|k: int| 0 <= k < rows@.len() ==> csv::keeps_record(#[trigger] rows@[k]),
        0 <= i < rows@.len(),
    ensures
        ({
            let found = csv::records(content@);
            let fields = csv::quoted_fields(found[i + 1]);
            let row = rows@[i];
            let number = |n: int| decimal::parsed(fields[n], 10, 0xffff_ffff_ffff_ffff);
            &&& found.len() == rows@.len() + 1
            &&& csv::quoted_fields(found[0]) == csv::column_names()
            &&& fields.len() == 13
            &&& number(0) == Some(row.timestamp as int)
            &&& number(1) == Some(row.pid as int)
            &&& number(2) == Some(row.tid as int)
            &&& csv::unquoted(fields[3]) == row.process@
            &&& csv::unquoted(fields[4]) == row.thread@
            &&& csv::unquoted(fields[5]) == row.user@
            &&& number(6) == Some(row.uid as int)
            &&& number(7) == Some(row.tx_bytes_total as int)
            &&& number(8) == Some(row.rx_bytes_total as int)
            &&& number(9) == Some(row.tx_2s_avg as int)
            &&& number(10) == Some(row.rx_2s_avg as int)
            &&& number(11) == Some(row.tx_10s_avg as int)
            &&& number(12) == Some(row.rx_10s_avg as int)
        }),
{
    csv::files_read_back(rows@);
    csv::figures_stand_in_their_columns(rows@[i], FieldStyle::Quoted);
    assert(csv::keeps_record(rows@[i]));
}

/// An export has a line for each row, the earliest first, and each line can be
/// taken apart at its commas into the figures of the row.
pub proof fn exported_lines_are_in_order(
    rows: Vec<HistoryCsvRow>,
    lines: Option<Vec<String>>,
    a: int,
    b: int,
)
    requires
        call_ensures(export_csv, (rows,), lines),
        0 <= a < b < rows@.len(),
    ensures
        ({
            let places = ordering::sorted_order(csv::history_keys(rows@), false);
            let x = rows@[places[a]];
            let y = rows@[places[b]];
            let first = scan::fields(lines->0@[a]@.drop_last(), ',');
            &&& lines is Some
            &&& lines->0@.len() == rows@.len()
            &&& 0 <= places[a] < rows@.len() && 0 <= places[b] < rows@.len()
            &&& places[a] != places[b]
            &&& x.timestamp <= y.timestamp
            &&& x.timestamp == y.timestamp ==> x.pid <= y.pid
            &&& first.len() == 13
            &&& decimal::parsed(first[0], 10, 0xffff_ffff_ffff_ffff) == Some(x.timestamp as int)
            &&& decimal::parsed(first[1], 10, 0xffff_ffff_ffff_ffff) == Some(x.pid as int)
            &&& decimal::parsed(first[7], 10, 0xffff_ffff_ffff_ffff) == Some(
                x.tx_bytes_total as int,
            )
            &&& decimal::parsed(first[8], 10, 0xffff_ffff_ffff_ffff) == Some(
                x.rx_bytes_total as int,
            )
        }),
{
    csv::exports_are_in_order(rows@, a, b);
    let places = ordering::sorted_order(csv::history_keys(rows@), false);
    let x = csv::by_time(rows@)[a];
    assert(x == rows@[places[a]]);
    assert(csv::by_time(rows@)[b] == rows@[places[b]]);
    assert(places[a] != places[b]);
    csv::plain_lines_split_back(x);
    csv::figures_stand_in_their_columns(x, FieldStyle::Plain);
    assert(lines->0@[a]@ == csv::line_text(x, FieldStyle::Plain));
}

/// The session is changed exactly by a start that went well, and then as it was
/// asked for.
pub proof fn sessions_change_with_the_start(
    start: CaptureStart,
    change: Option<SessionChange>,
    other: Option<String>,
    exists: bool,
    source: Result<String, String>,
    reached: bool,
    running: bool,
    filtered: Result<(), String>,
)
    requires
        call_ensures(CaptureStart::session_change, (&start,), change),
        call_ensures(export_pcap, (other, exists), source),
        call_ensures(apply_filter, (reached, running), filtered),
    ensures
        change is Some <==> start@.stage matches capture::StageView::Done { error: None, .. },
        change matches Some(made) ==> {
            &&& made.clear_history
            &&& capture::recording_path(made.recording) == start@.record_path
            &&& start@.filter matches Some(expression) ==> made.active_filter@ == expression
            &&& start@.filter is None ==> made.active_filter@.len() == 0
        },
        source is Ok <==> other is Some && exists,
        source matches Ok(path) ==> path@ == other->0@,
        filtered is Ok <==> reached && running,
{
}

/// The window starts a capture where there is an interface and none is running,
/// hands on a filter only where there is one to hand on, and takes a rate as it
/// was typed.
pub proof fn windows_hand_on_what_was_asked(
    window: Desktop,
    device_count: usize,
    device: Option<usize>,
    running: bool,
    request: FilterRequest,
    rate: Option<u32>,
    typed: u32,
)
    requires
        call_ensures(Desktop::start_capture, (&window, device_count), device),
        call_ensures(Desktop::apply_bpf_filter, (&window, running), request),
        call_ensures(Desktop::parse_rate_limit_kbps, (&window,), rate),
        window.rate_limit_kbps_input@ == decimal::decimal(typed as nat),
    ensures
        device is Some <==> !window.is_capturing && window.selected_iface < device_count,
        device matches Some(at) ==> at == window.selected_iface,
        request is Apply <==> running && exists|i: int|
            0 <= i < window.bpf_input@.len() && !scan::is_space(#[trigger] window.bpf_input@[i]),
        request matches FilterRequest::Apply { expression } ==> expression@ == scan::trimmed(
            window.bpf_input@,
        ),
        rate == (if typed > 0 {
            Some(typed)
        } else {
            None
        }),
{
    scan::only_space_trims_to_nothing(window.bpf_input@);
    let none = Seq::<char>::empty();
    desktop::rates_read_back(none, typed, none);
    assert(none + decimal::decimal(typed as nat) + none =~= window.rate_limit_kbps_input@);
}

/// The program may go on for the superuser, and else with both capabilities,
/// the bits of 4096 and 8192 in the number behind the heading.
pub proof fn privileges_are_two_capabilities(
    superuser: bool,
    status: &str,
    front: Seq<Seq<char>>,
    number: Seq<char>,
    back: Seq<Seq<char>>,
    set: u64,
    enough: bool,
    result: Result<(), String>,
)
    requires
        call_ensures(has_required_capabilities, (Some(status),), enough),
        call_ensures(ensure_privileges, (superuser, Some(status)), result),
        forall|i: int|
            0 <= i < front.len() ==> !text::begins_with(#[trigger] front[i], "CapEff:"@),
        number.len() > 0,
        forall|i: int| 0 <= i < number.len() ==> !scan::is_space(#[trigger] number[i]),
        decimal::parsed(number, 16, 0xffff_ffff_ffff_ffff) == Some(set as int),
        scan::lines(status@) == front + seq!["CapEff:"@ + seq!['\t'] + number] + back,
    ensures
        enough <==> set / 4096 % 2 == 1 && set / 8192 % 2 == 1,
        result is Ok <==> superuser || enough,
{
    system::capabilities_read_back(front, number, back);
    system::bits_are_those_of_the_capabilities(set);
}

/// Whoever became another user keeps the own home, where it is listed.
pub proof fn homes_are_kept(
    user: &str,
    passwd: &str,
    set: Option<&str>,
    front: Seq<Seq<char>>,
    line: Seq<char>,
    back: Seq<Seq<char>>,
    home: String,
    usual: String,
)
    requires
        call_ensures(get_user_home, (Some(user), Some(passwd), set), home),
        call_ensures(get_user_home, (None, Some(passwd), set), usual),
        forall|i: int|
            0 <= i < front.len() ==> scan::fields(#[trigger] front[i], ':')[0] != user@,
        scan::fields(line, ':').len() >= 6,
        scan::fields(line, ':')[0] == user@,
        scan::lines(passwd@) == front + seq![line] + back,
    ensures
        home@ == scan::fields(line, ':')[5],
        set matches Some(directory) ==> usual@ == directory@,
        set is None ==> usual@ == "/tmp"@,
{
    system::homes_are_listed_by_user(front, user@, line, back);
    system::homes_fall_back(None, Some(passwd@), text::optional_str(set));
}

/// The line of a row and the line of the names have as many fields.
pub proof fn lines_fit_the_header(
    row: HistoryCsvRow,
    header: String,
    line: String,
    summary: String,
    process: ProcessRow,
)
    requires
        call_ensures(history_header, (), header),
        call_ensures(history_line, (&row, FieldStyle::Quoted), line),
        stats::mix_fits(process),
        call_ensures(protocol_mix_summary, (&process,), summary),
    ensures
        csv::quoted_fields(header@.drop_last()).len() == csv::quoted_fields(
            line@.drop_last(),
        ).len(),
        csv::quoted_fields(header@.drop_last()) == csv::column_names(),
        scan::words(summary@).len() == 3,
{
    csv::headers_split_back();
    csv::quoted_lines_split_back(row);
    stats::mixes_read_back(
        stats::count_of(process.connections@, stats::ProtocolKind::Tcp),
        stats::count_of(process.connections@, stats::ProtocolKind::Udp),
        stats::count_of(process.connections@, stats::ProtocolKind::Other),
    );
}

/// The known services are told by their ports, each by one alone, and every
/// other port is none of theirs.
pub proof fn services_are_known_by_their_port(port: u16, name: &str)
    requires
        call_ensures(service_name, (port,), name),
    ensures
        port == 80 <==> name@ == "HTTP"@,
        port == 443 <==> name@ == "HTTPS"@,
        port == 53 <==> name@ == "DNS"@,
        port == 22 <==> name@ == "SSH"@,
        port == 21 <==> name@ == "FTP"@,
        port == 25 <==> name@ == "SMTP"@,
        port == 3306 <==> name@ == "MySQL"@,
        port == 5432 <==> name@ == "PostgreSQL"@,
        port == 6379 <==> name@ == "Redis"@,
        port == 27017 <==> name@ == "MongoDB"@,
{
    reveal_strlit("HTTP");
    reveal_strlit("HTTPS");
    reveal_strlit("DNS");
    reveal_strlit("SSH");
    reveal_strlit("FTP");
    reveal_strlit("SMTP");
    reveal_strlit("MySQL");
    reveal_strlit("PostgreSQL");
    reveal_strlit("Redis");
    reveal_strlit("MongoDB");
    reveal_strlit("Other");
    assert("DNS"@[0] == 'D' && "SSH"@[0] == 'S' && "FTP"@[0] == 'F');
    assert("HTTP"@[0] == 'H' && "SMTP"@[0] == 'S');
    assert("HTTPS"@[0] == 'H' && "MySQL"@[0] == 'M' && "Redis"@[0] == 'R' && "Other"@[0] == 'O');
    assert("PostgreSQL"@.len() == 10 && "MongoDB"@.len() == 7);
    assert("HTTP"@.len() == 4 && "HTTPS"@.len() == 5);
    assert("SSH"@.len() == 3 && "SMTP"@.len() == 4);
}

/// The status line after an export names the file where there is one, and the
/// reason where there is one, at its end.
pub proof fn exports_are_reported(
    path: String,
    error: String,
    table: String,
    no_table: String,
    packets: String,
    no_packets: String,
)
    requires
        call_ensures(csv_status, (&CsvOutcome::Exported { path },), table),
        call_ensures(csv_status, (&CsvOutcome::NotCreated { error },), no_table),
        call_ensures(pcap_status, (&PcapOutcome::Exported { path },), packets),
        call_ensures(pcap_status, (&PcapOutcome::NotCopied { error },), no_packets),
    ensures
        text::finishes_with(table@, path@) && text::begins_with(table@, "Exported CSV to "@),
        text::finishes_with(packets@, path@) && text::begins_with(packets@, "Exported PCAP to "@),
        text::finishes_with(no_table@, error@) && text::begins_with(
            no_table@,
            "CSV export failed: "@,
        ),
        text::finishes_with(no_packets@, error@) && text::begins_with(
            no_packets@,
            "PCAP export failed: "@,
        ),
{
    both_ends_stand("Exported CSV to "@, path@);
    both_ends_stand("Exported PCAP to "@, path@);
    both_ends_stand("CSV export failed: "@, error@);
    both_ends_stand("PCAP export failed: "@, error@);
}

proof fn both_ends_stand(front: Seq<char>, back: Seq<char>)
    ensures
        text::begins_with(front + back, front),
        text::finishes_with(front + back, back),
{
    assert((front + back).subrange(0, front.len() as int) =~= front);
    assert((front + back).subrange(front.len() as int, (front + back).len() as int) =~= back);
}

/// Packets can be exported exactly if they were recorded and the file is there,
/// and both that ask for it agree on that.
pub proof fn packets_are_exported_if_there(
    recording: Option<String>,
    exists: bool,
    source: Result<String, String>,
    obstacle: Option<PcapOutcome>,
)
    requires
        call_ensures(export_pcap, (recording, exists), source),
        call_ensures(pcap_obstacle, (recording is Some, exists), obstacle),
    ensures
        source is Ok <==> recording is Some && exists,
        obstacle is None <==> source is Ok,
        obstacle matches Some(why) ==> (why is NotRecorded <==> recording is None),
        obstacle matches Some(why) ==> (why is NoFile <==> recording is Some),
{
}

/// Each file lies in the home directory, ends in what it is, and has the time
/// between.
pub proof fn files_carry_their_time(
    home: &str,
    seconds: u64,
    recording: String,
    table: String,
    packets: String,
)
    requires
        call_ensures(recording_path, (home, seconds), recording),
        call_ensures(csv_export_path, (home, seconds), table),
        call_ensures(pcap_export_path, (home, seconds), packets),
    ensures
        text::begins_with(recording@, home@ + "/netmon_capture_"@),
        text::begins_with(table@, home@ + "/netmon_export_"@),
        text::begins_with(packets@, home@ + "/netmon_export_"@),
        text::finishes_with(recording@, decimal::decimal(seconds as nat) + ".pcap"@),
        text::finishes_with(table@, decimal::decimal(seconds as nat) + ".csv"@),
        text::finishes_with(packets@, decimal::decimal(seconds as nat) + ".pcap"@),
{
    let time = decimal::decimal(seconds as nat);
    let captured = home@ + "/netmon_capture_"@;
    let exported = home@ + "/netmon_export_"@;
    both_ends_stand(captured, time + ".pcap"@);
    both_ends_stand(exported, time + ".csv"@);
    both_ends_stand(exported, time + ".pcap"@);
    assert(recording@ =~= captured + (time + ".pcap"@));
    assert(table@ =~= exported + (time + ".csv"@));
    assert(packets@ =~= exported + (time + ".pcap"@));
}

/// A question is put exactly if a process waits to be blocked, and it names that
/// process and its number.
pub proof fn questions_name_the_process(
    window: Desktop,
    pid: u32,
    process: String,
    question: Option<String>,
)
    requires
        call_ensures(Desktop::block_question, (&window,), question),
        window.pending_block matches Some(asked) ==> asked == (pid, process),
    ensures
        question is Some <==> window.pending_block is Some,
        question matches Some(line) ==> text::begins_with(
            line@,
            "Block all traffic for "@ + process@,
        ) && text::has_part(line@, "(PID "@ + decimal::decimal(pid as nat) + ")"@),
{
    if let Some(line) = question {
        reveal_strlit(" (PID ");
        reveal_strlit("(PID ");
        reveal_strlit(")");
        reveal_strlit(")? This will insert an nftables rule. Confirm?");
        let front = "Block all traffic for "@ + process@;
        let digits = decimal::decimal(pid as nat);
        assert(line@ == front + " (PID "@ + digits
            + ")? This will insert an nftables rule. Confirm?"@);
        assert(line@.subrange(0, front.len() as int) =~= front);
        let part = "(PID "@ + digits + ")"@;
        let at = front.len() as int + 1;
        assert(line@.subrange(at, at + part.len()) =~= part);
        assert(text::occurs_at(line@, part, at));
    }
}

/// Figures once due stay due, and are so from a tenth of a second on.
pub proof fn figures_stay_due(elapsed: u64, longer: u64, due: bool, still: bool)
    requires
        call_ensures(figures_are_due, (elapsed,), due),
        call_ensures(figures_are_due, (longer,), still),
        elapsed <= longer,
    ensures
        due ==> still,
        due <==> elapsed >= 100,
{
}

} // verus!
