//! The figures of the dashboard, and the words in which they are put.

use vstd::prelude::*;

use crate::decimal;
use crate::decimal::{append_decimal, decimal_text};
use crate::monitor::desktop;
use crate::monitor::desktop::figures_are_due;
use crate::monitor::model::{InterfaceStats, ProcessRow};
use crate::monitor::ordering;
use crate::monitor::stats;
use crate::monitor::stats::{
    compute_top_processes, count_connections, count_protocols, detect_spike, find_top_port,
    mix_line,
};
use crate::monitor::table;
use crate::monitor::table::{severity_of, Severity};
use crate::monitor::units;
use crate::monitor::units::{format_bandwidth, format_bytes_or_bits};
use crate::text::{chars_of, string_of};

verus! {

/// How many processes are ranked.
pub const TOP_PROCESS_COUNT: usize = 5;

/// A process that sends and receives much.
#[derive(Debug)]
pub struct RankedProcess {
    pub pid: u32,
    pub tid: u32,
    pub name: String,
    pub rate: u64,
}

/// The figures of the dashboard.
#[derive(Debug)]
pub struct DashboardCache {
    /// The processes that send and receive most, the first before the others.
    pub top_processes: Vec<RankedProcess>,
    /// The traffic of all processes, where it is a spike.
    pub spike_detected: Option<u64>,
    /// The remote port with the most bytes, and its service.
    pub top_port: Option<(u16, String)>,
    pub blocked_process_count: usize,
    /// How many rows the process table has.
    pub active_process_count: usize,
    pub total_connections: usize,
    pub protocol_tcp_count: usize,
    pub protocol_udp_count: usize,
    pub protocol_other_count: usize,
    /// The traffic in per cent of the most that there was.
    pub network_utilization_percent: u8,
}

/// What a ranked process says of a row.
pub open spec fn ranks_row(shown: RankedProcess, row: ProcessRow) -> bool {
    &&& shown.pid == row.info.pid
    &&& shown.tid == row.info.tid
    &&& shown.name@ == row.info.name@
    &&& shown.rate == stats::row_rate(row)
}

/// The figures of these rows can be computed.
pub open spec fn figures_fit(rows: Seq<ProcessRow>) -> bool {
    &&& stats::rows_fit(rows)
    &&& stats::sum_of_rates(rows) <= u64::MAX
    &&& stats::ports_fit(rows)
    &&& stats::all_connections(rows).len() <= usize::MAX
}

/// The traffic in per cent of the most that there was, given the quotient of
/// the two in whole per cent: none where there never was any, all where it is
/// no less than the most, and else the quotient, but no more than all.
pub open spec fn utilization(current: u64, peak: u64, share: u8) -> int {
    if peak == 0 {
        0
    } else if current >= peak || share > 100 {
        100
    } else {
        share as int
    }
}

/// The figures are those of these rows, of this many blocked processes and of
/// this interface, whose traffic is `share` per cent of the most that there
/// was.
pub open spec fn shows(
    cache: DashboardCache,
    rows: Seq<ProcessRow>,
    blocked: usize,
    interface: InterfaceStats,
    share: u8,
) -> bool {
    let connections = stats::all_connections(rows);
    &&& cache.top_processes@.len() == (if rows.len() < TOP_PROCESS_COUNT {
        rows.len()
    } else {
        TOP_PROCESS_COUNT as nat
    })
    &&& forall|i: int|
        0 <= i < cache.top_processes@.len() ==> ranks_row(
            #[trigger] cache.top_processes@[i],
            stats::ranked(rows)[i],
        )
    &&& match cache.spike_detected {
        Some(rate) => rate == stats::sum_of_rates(rows) && rate
            > stats::SPIKE_THRESHOLD_BYTES_PER_SEC,
        None => stats::sum_of_rates(rows) <= stats::SPIKE_THRESHOLD_BYTES_PER_SEC,
    }
    &&& match cache.top_port {
        Some((port, service)) => {
            &&& stats::port_in_use(connections, port)
            &&& forall|other: u16| #[trigger]
                stats::port_bytes(connections, other) <= stats::port_bytes(connections, port)
            &&& service@ == stats::service_text(port)
        },
        None => connections.len() == 0,
    }
    &&& cache.blocked_process_count == blocked
    &&& cache.active_process_count == rows.len()
    &&& cache.total_connections == connections.len()
    &&& cache.protocol_tcp_count == stats::count_of(connections, stats::ProtocolKind::Tcp)
    &&& cache.protocol_udp_count == stats::count_of(connections, stats::ProtocolKind::Udp)
    &&& cache.protocol_other_count == stats::count_of(connections, stats::ProtocolKind::Other)
    &&& cache.network_utilization_percent == utilization(
        interface.current_bandwidth_bytes_per_sec,
        interface.peak_bandwidth_bytes_per_sec,
        share,
    )
}

/// The traffic in per cent of the most that there was, given the quotient of
/// the two in whole per cent.
pub fn utilization_percent(current: u64, peak: u64, share: u8) -> (percent: u8)
    ensures
        percent == utilization(current, peak, share),
        peak == 0 ==> percent == 0,
        peak > 0 && current >= peak ==> percent == 100,
        peak > 0 && current < peak ==> percent == (if share > 100 {
            100
        } else {
            share
        }),
        percent <= 100,
{
    if peak == 0 {
        0
    } else if current >= peak || share > 100 {
        100
    } else {
        share
    }
}

impl DashboardCache {
    /// No figures yet.
    pub fn new() -> (cache: Self)
        ensures
            cache.top_processes@.len() == 0,
            cache.spike_detected is None,
            cache.top_port is None,
            cache.blocked_process_count == 0,
            cache.active_process_count == 0,
            cache.total_connections == 0,
            cache.protocol_tcp_count == 0,
            cache.protocol_udp_count == 0,
            cache.protocol_other_count == 0,
            cache.network_utilization_percent == 0,
    {
        DashboardCache {
            top_processes: Vec::new(),
            spike_detected: None,
            top_port: None,
            blocked_process_count: 0,
            active_process_count: 0,
            total_connections: 0,
            protocol_tcp_count: 0,
            protocol_udp_count: 0,
            protocol_other_count: 0,
            network_utilization_percent: 0,
        }
    }

    /// The figures of these rows, of this many blocked processes and of this
    /// interface, whose traffic is `share` per cent of the most that there was.
    pub fn compute(
        rows: &Vec<ProcessRow>,
        blocked: usize,
        interface: &InterfaceStats,
        share: u8,
    ) -> (cache: Self)
        requires
            figures_fit(rows@),
        ensures
            shows(cache, rows@, blocked, *interface, share),
    {
        let top = compute_top_processes(rows, TOP_PROCESS_COUNT);
        let mut top_processes: Vec<RankedProcess> = Vec::new();
        let mut i: usize = 0;
        while i < top.len()
            invariant
                i <= top@.len(),
                top_processes@.len() == i,
                forall|k: int|
                    0 <= k < top@.len() ==> (#[trigger] top@[k]).1 == stats::row_rate(*top@[k].0),
                forall|k: int|
                    0 <= k < i ==> ranks_row(#[trigger] top_processes@[k], *top@[k].0),
            decreases top@.len() - i,
        {
            let row = top[i].0;
            assert(top@[i as int].1 == stats::row_rate(*top@[i as int].0));
            top_processes.push(
                RankedProcess {
                    pid: row.info.pid,
                    tid: row.info.tid,
                    name: row.info.name.clone(),
                    rate: top[i].1,
                },
            );
            i += 1;
        }
        let (tcp, udp, other) = count_protocols(rows);
        DashboardCache {
            top_processes,
            spike_detected: detect_spike(rows),
            top_port: find_top_port(rows),
            blocked_process_count: blocked,
            active_process_count: rows.len(),
            total_connections: count_connections(rows),
            protocol_tcp_count: tcp,
            protocol_udp_count: udp,
            protocol_other_count: other,
            network_utilization_percent: utilization_percent(
                interface.current_bandwidth_bytes_per_sec,
                interface.peak_bandwidth_bytes_per_sec,
                share,
            ),
        }
    }

    /// Computes the figures again, unless they were computed only just before,
    /// `elapsed_ms` milliseconds ago.  Whether they were computed is the
    /// result.
    pub fn update(
        &mut self,
        elapsed_ms: u64,
        rows: &Vec<ProcessRow>,
        blocked: usize,
        interface: &InterfaceStats,
        share: u8,
    ) -> (computed: bool)
        requires
            elapsed_ms >= desktop::CACHE_UPDATE_INTERVAL_MS ==> figures_fit(rows@),
        ensures
            computed == (elapsed_ms >= desktop::CACHE_UPDATE_INTERVAL_MS),
            computed ==> shows(*final(self), rows@, blocked, *interface, share),
            !computed ==> *final(self) == *old(self),
    {
        if !figures_are_due(elapsed_ms) {
            return false;
        }
        *self = DashboardCache::compute(rows, blocked, interface, share);
        true
    }
}

/// The figures are in keeping with each other: the connections of the three
/// kinds are all connections, no more processes are ranked than there are, and
/// the utilization is at most all, none where there never was any traffic, and
/// all where there is no less than ever.
pub proof fn figures_are_in_keeping(
    cache: DashboardCache,
    rows: Seq<ProcessRow>,
    blocked: usize,
    interface: InterfaceStats,
    share: u8,
)
    requires
        shows(cache, rows, blocked, interface, share),
    ensures
        cache.total_connections == cache.protocol_tcp_count + cache.protocol_udp_count
            + cache.protocol_other_count,
        cache.top_processes@.len() <= cache.active_process_count,
        cache.network_utilization_percent <= 100,
        interface.peak_bandwidth_bytes_per_sec == 0 ==> cache.network_utilization_percent == 0,
        0 < interface.peak_bandwidth_bytes_per_sec
            <= interface.current_bandwidth_bytes_per_sec ==> cache.network_utilization_percent
            == 100,
{
    stats::kinds_make_up_the_whole(stats::all_connections(rows));
}

/// The values on the cards of the dashboard.
#[derive(Debug)]
pub struct KpiValues {
    pub tx_rate: String,
    pub rx_rate: String,
    pub peak: String,
    pub utilization: String,
    pub connections: String,
    pub processes: String,
    pub blocked: String,
    /// Whether anyone is blocked.
    pub any_blocked: bool,
    pub protocols: String,
}

/// The values on the cards of the dashboard.
pub fn kpi_values(cache: &DashboardCache, interface: &InterfaceStats) -> (values: KpiValues)
    ensures
        values.tx_rate@ == units::bandwidth_text(interface.tx_history@[0]),
        values.rx_rate@ == units::bandwidth_text(interface.rx_history@[0]),
        values.peak@ == units::bandwidth_text(interface.peak_bandwidth_bytes_per_sec),
        values.utilization@ == decimal::decimal(cache.network_utilization_percent as nat) + "%"@,
        values.connections@ == decimal::decimal(cache.total_connections as nat),
        values.processes@ == decimal::decimal(cache.active_process_count as nat),
        values.blocked@ == decimal::decimal(cache.blocked_process_count as nat),
        values.any_blocked == (cache.blocked_process_count > 0),
        values.protocols@ == stats::mix_text(
            cache.protocol_tcp_count as nat,
            cache.protocol_udp_count as nat,
            cache.protocol_other_count as nat,
        ),
{
    let mut utilization = decimal_text(cache.network_utilization_percent as u64);
    utilization.append("%");
    KpiValues {
        tx_rate: format_bandwidth(interface.tx_history[0]),
        rx_rate: format_bandwidth(interface.rx_history[0]),
        peak: format_bandwidth(interface.peak_bandwidth_bytes_per_sec),
        utilization,
        connections: decimal_text(cache.total_connections as u64),
        processes: decimal_text(cache.active_process_count as u64),
        blocked: decimal_text(cache.blocked_process_count as u64),
        any_blocked: cache.blocked_process_count > 0,
        protocols: mix_line(
            cache.protocol_tcp_count as u64,
            cache.protocol_udp_count as u64,
            cache.protocol_other_count as u64,
        ),
    }
}

/// How many bytes a character takes.
pub open spec fn width(c: char) -> int {
    if c as u32 <= 0x7f {
        1
    } else if c as u32 <= 0x7ff {
        2
    } else if c as u32 <= 0xffff {
        3
    } else {
        4
    }
}

/// How many bytes a text takes.
pub open spec fn bytes_of(content: Seq<char>) -> int
    decreases content.len(),
{
    if content.len() == 0 {
        0
    } else {
        bytes_of(content.drop_last()) + width(content.last())
    }
}

/// The first characters of a text that take just so many bytes.
pub open spec fn cut_at(content: Seq<char>, bytes: int, n: int) -> bool {
    0 <= n <= content.len() && bytes_of(content.take(n)) == bytes
}

/// No character of the name lies across the twelfth byte.
pub open spec fn cuts_cleanly(name: Seq<char>) -> bool {
    bytes_of(name) <= 12 || exists|n: int| cut_at(name, 12, n)
}

/// The first twelve bytes of a name, or all of it where it has no more.
pub open spec fn short_name(name: Seq<char>) -> Seq<char> {
    if bytes_of(name) <= 12 {
        name
    } else {
        name.take(choose|n: int| cut_at(name, 12, n))
    }
}

proof fn bytes_grow(content: Seq<char>, a: int, b: int)
    requires
        0 <= a <= b <= content.len(),
    ensures
        bytes_of(content.take(b)) - bytes_of(content.take(a)) >= b - a,
    decreases b - a,
{
    if a < b {
        bytes_grow(content, a, b - 1);
        assert(content.take(b).drop_last() =~= content.take(b - 1));
    }
}

fn char_width(c: char) -> (bytes: usize)
    ensures
        bytes == width(c),
{
    let code: u32 = c as u32;
    if code <= 0x7f {
        1
    } else if code <= 0x7ff {
        2
    } else if code <= 0xffff {
        3
    } else {
        4
    }
}

/// The first twelve bytes of a name, or all of it where it has no more.
pub fn shorten(name: &str) -> (short: String)
    requires
        cuts_cleanly(name@),
    ensures
        short@ == short_name(name@),
{
    let chars = chars_of(name);
    let mut taken: usize = 0;
    let mut i: usize = 0;
    assert(name@.take(0) =~= Seq::empty());
    while i < chars.len() && taken < 12
        invariant
            i <= chars@.len(),
            chars@ == name@,
            taken < 12 + 4,
            taken == bytes_of(name@.take(i as int)),
            cuts_cleanly(name@),
            forall|n: int| cut_at(name@, 12, n) ==> i <= n,
        decreases chars@.len() - i,
    {
        proof {
            assert(name@.take(i + 1).drop_last() =~= name@.take(i as int));
            assert forall|n: int| cut_at(name@, 12, n) implies i + 1 <= n by {
                if n == i {
                    assert(bytes_of(name@.take(i as int)) == 12);
                }
            }
        }
        taken = taken + char_width(chars[i]);
        i += 1;
    }
    proof {
        assert(name@.take(name@.len() as int) =~= name@);
        bytes_grow(name@, i as int, name@.len() as int);
        if bytes_of(name@) <= 12 {
            if i < name@.len() {
                bytes_grow(name@, i as int, name@.len() as int);
            }
            assert(i == name@.len());
        } else {
            let n = choose|n: int| cut_at(name@, 12, n);
            assert(cut_at(name@, 12, n));
            if i < n {
                bytes_grow(name@, i as int, n);
            }
            assert(n == i);
        }
    }
    let short = string_of(&chars, 0, i);
    assert(short@ =~= name@.take(i as int));
    short
}

/// What is worth knowing at once.
#[derive(Debug)]
pub struct Insights {
    pub top_consumer: Option<String>,
    pub spike: Option<String>,
    pub top_port: Option<String>,
}

/// What is worth knowing at once: the process that sends and receives most, a
/// spike, and the port with the most traffic.
pub fn insights(cache: &DashboardCache) -> (found: Insights)
    requires
        cache.top_processes@.len() > 0 ==> cuts_cleanly(cache.top_processes@[0].name@),
    ensures
        found.top_consumer is Some <==> cache.top_processes@.len() > 0,
        found.top_consumer matches Some(line) ==> line@ == short_name(
            cache.top_processes@[0].name@,
        ) + "\n"@ + units::bandwidth_text(cache.top_processes@[0].rate) + "/s"@,
        found.spike is Some <==> cache.spike_detected is Some,
        found.spike matches Some(line) ==> line@ == units::bandwidth_text(
            cache.spike_detected->0,
        ),
        found.top_port is Some <==> cache.top_port is Some,
        found.top_port matches Some(line) ==> (cache.top_port matches Some((port, service))
            && line@ == ":"@ + decimal::decimal(port as nat) + "\n"@ + service@),
{
    let top_consumer = if cache.top_processes.len() > 0 {
        let first = &cache.top_processes[0];
        let mut line = shorten(first.name.as_str());
        line.append("\n");
        let rate = format_bandwidth(first.rate);
        line.append(rate.as_str());
        line.append("/s");
        Some(line)
    } else {
        None
    };
    let spike = match cache.spike_detected {
        Some(rate) => Some(format_bandwidth(rate)),
        None => None,
    };
    let top_port = match &cache.top_port {
        Some((port, service)) => {
            let mut line = ":".to_owned();
            append_decimal(&mut line, *port as u64);
            line.append("\n");
            line.append(service.as_str());
            Some(line)
        },
        None => None,
    };
    Insights { top_consumer, spike, top_port }
}

/// Whether there is anything worth knowing.
pub fn has_insights(found: &Insights) -> (yes: bool)
    ensures
        yes == (found.top_consumer is Some || found.spike is Some || found.top_port is Some),
{
    found.top_consumer.is_some() || found.spike.is_some() || found.top_port.is_some()
}

/// What the summary of the interface says.
#[derive(Debug)]
pub struct InterfaceSummary {
    pub tx_total: String,
    pub rx_total: String,
    pub current: String,
    pub severity: Severity,
    pub peak: String,
}

/// What the summary of the interface says.
pub fn interface_summary(interface: &InterfaceStats, show_bits: bool) -> (summary: InterfaceSummary)
    ensures
        summary.tx_total@ == units::amount_text(interface.tx_bytes_total, show_bits),
        summary.rx_total@ == units::amount_text(interface.rx_bytes_total, show_bits),
        summary.current@ == units::bandwidth_text(interface.current_bandwidth_bytes_per_sec)
            + "/s"@,
        summary.severity == table::severity(interface.current_bandwidth_bytes_per_sec as int),
        summary.peak@ == units::bandwidth_text(interface.peak_bandwidth_bytes_per_sec) + "/s"@,
{
    let mut current = format_bandwidth(interface.current_bandwidth_bytes_per_sec);
    current.append("/s");
    let mut peak = format_bandwidth(interface.peak_bandwidth_bytes_per_sec);
    peak.append("/s");
    InterfaceSummary {
        tx_total: format_bytes_or_bits(interface.tx_bytes_total, show_bits),
        rx_total: format_bytes_or_bits(interface.rx_bytes_total, show_bits),
        current,
        severity: severity_of(interface.current_bandwidth_bytes_per_sec),
        peak,
    }
}

/// A colour.
#[derive(Clone, Copy, Debug, PartialEq, Eq, Structural)]
pub struct Rgb {
    pub red: u8,
    pub green: u8,
    pub blue: u8,
}

/// The colour of a rank: red, orange and gold for the first three.
pub fn rank_color(rank: usize) -> (color: Rgb)
    ensures
        color == (match rank {
            1 => (Rgb { red: 255, green: 100, blue: 100 }),
            2 => (Rgb { red: 255, green: 165, blue: 0 }),
            3 => (Rgb { red: 255, green: 215, blue: 0 }),
            _ => (Rgb { red: 100, green: 150, blue: 255 }),
        }),
{
    match rank {
        1 => Rgb { red: 255, green: 100, blue: 100 },
        2 => Rgb { red: 255, green: 165, blue: 0 },
        3 => Rgb { red: 255, green: 215, blue: 0 },
        _ => Rgb { red: 100, green: 150, blue: 255 },
    }
}

/// Utilization is a share of the peak: none where there was no traffic ever,
/// all where there is no less than ever, and else what the quotient says, which
/// is never taken for more than all.
pub proof fn utilization_is_a_share(current: u64, peak: u64, share: u8)
    ensures
        0 <= utilization(current, peak, share) <= 100,
        peak == 0 ==> utilization(current, peak, share) == 0,
        0 < peak <= current ==> utilization(current, peak, share) == 100,
        current < peak && share <= 100 ==> utilization(current, peak, share) == share,
        current < peak && share > 100 ==> utilization(current, peak, share) == 100,
{
}

/// The ranked processes are the busiest: there are five of them, or as many as
/// there are rows; each is one of the rows, with its numbers, its name and what
/// it sends and receives per second; and no row that is not ranked has a higher
/// rate than one that is.
pub proof fn ranked_processes_are_the_busiest(
    cache: DashboardCache,
    rows: Seq<ProcessRow>,
    blocked: usize,
    interface: InterfaceStats,
    share: u8,
    k: int,
    i: int,
)
    requires
        shows(cache, rows, blocked, interface, share),
        stats::rows_fit(rows),
        0 <= k < cache.top_processes@.len(),
        0 <= i < rows.len(),
    ensures
        cache.top_processes@.len() == (if rows.len() < 5 {
            rows.len() as int
        } else {
            5
        }),
        ({
            let places = ordering::sorted_order(stats::rate_keys(rows), true).take(
                cache.top_processes@.len() as int,
            );
            let shown = cache.top_processes@[k];
            let row = rows[places[k]];
            &&& 0 <= places[k] < rows.len()
            &&& places.no_duplicates()
            &&& (shown.pid, shown.tid, shown.name@) == (
                row.info.pid,
                row.info.tid,
                row.info.name@,
            )
            &&& shown.rate == (row.tx_history@[0] + row.tx_history@[1]) / 2 + (
            row.rx_history@[0] + row.rx_history@[1]) / 2
            &&& !places.contains(i) ==> shown.rate >= (rows[i].tx_history@[0]
                + rows[i].tx_history@[1]) / 2 + (rows[i].rx_history@[0] + rows[i].rx_history@[1])
                / 2
            &&& k > 0 ==> cache.top_processes@[k - 1].rate >= shown.rate
        }),
{
    let n = cache.top_processes@.len() as int;
    stats::ranked_rows_have_the_highest_rates(rows, n);
    let places = ordering::sorted_order(stats::rate_keys(rows), true).take(n);
    let list = stats::ranked(rows).take(n);
    let row = rows[places[k]];
    assert(list[k] == row);
    assert(ranks_row(cache.top_processes@[k], stats::ranked(rows)[k]));
    if k > 0 {
        assert(list[k - 1] == rows[places[k - 1]]);
        assert(ranks_row(cache.top_processes@[k - 1], stats::ranked(rows)[k - 1]));
        assert(places[k - 1] != places[k]);
    }
}

/// The figures come from the rows: there is a spike exactly if all rows together
/// send and receive more than five hundred million bytes per second, and it is
/// that much; the processes are the rows, the connections those of all rows, by
/// kind, the blocked ones as many as was said; and the port is one that some
/// connection goes to.
pub proof fn figures_come_from_the_rows(
    cache: DashboardCache,
    rows: Seq<ProcessRow>,
    blocked: usize,
    interface: InterfaceStats,
    share: u8,
)
    requires
        shows(cache, rows, blocked, interface, share),
    ensures
        cache.spike_detected is Some <==> stats::sum_of_rates(rows) > 500_000_000,
        cache.spike_detected matches Some(rate) ==> rate == stats::sum_of_rates(rows),
        cache.active_process_count == rows.len(),
        cache.blocked_process_count == blocked,
        cache.total_connections == stats::all_connections(rows).len(),
        cache.protocol_tcp_count == stats::count_of(
            stats::all_connections(rows),
            stats::ProtocolKind::Tcp,
        ),
        cache.protocol_udp_count == stats::count_of(
            stats::all_connections(rows),
            stats::ProtocolKind::Udp,
        ),
        cache.protocol_other_count == stats::count_of(
            stats::all_connections(rows),
            stats::ProtocolKind::Other,
        ),
        cache.top_port is None <==> stats::all_connections(rows).len() == 0,
        cache.top_port matches Some((port, service)) ==> {
            &&& exists|i: int|
                0 <= i < stats::all_connections(rows).len() && (#[trigger] stats::all_connections(
                    rows,
                )[i]).remote_port == port
            &&& forall|i: int|
                0 <= i < stats::all_connections(rows).len() ==> (
                #[trigger] stats::all_connections(rows)[i]).tx_bytes + stats::all_connections(
                    rows,
                )[i].rx_bytes <= stats::port_bytes(stats::all_connections(rows), port)
        },
{
    let all = stats::all_connections(rows);
    if let Some((port, service)) = cache.top_port {
        assert forall|i: int| 0 <= i < all.len() implies (#[trigger] all[i]).tx_bytes
            + all[i].rx_bytes <= stats::port_bytes(all, port) by {
            stats::top_ports_have_carried_most(all, port, i);
        }
    }
}

/// A text takes as many bytes as its characters together, and a character one
/// to four, by its number.
pub proof fn bytes_add_up(a: Seq<char>, b: Seq<char>, c: char)
    ensures
        bytes_of(a + b) == bytes_of(a) + bytes_of(b),
        c as int <= 0x7f ==> bytes_of(seq![c]) == 1,
        0x80 <= c as int <= 0x7ff ==> bytes_of(seq![c]) == 2,
        0x800 <= c as int <= 0xffff ==> bytes_of(seq![c]) == 3,
        0x1_0000 <= c as int ==> bytes_of(seq![c]) == 4,
    decreases b.len(),
{
    let one = seq![c];
    assert(one.drop_last() =~= Seq::empty());
    assert(bytes_of(one.drop_last()) == 0);
    assert(one.last() == c);
    if b.len() == 0 {
        assert(a + b =~= a);
    } else {
        bytes_add_up(a, b.drop_last(), c);
        assert((a + b).drop_last() =~= a + b.drop_last());
    }
}

/// A short name is the front of the name: all of it where that takes no more
/// than twelve bytes, and else as much as takes just twelve.
pub proof fn short_names_are_fronts(name: Seq<char>)
    requires
        cuts_cleanly(name),
    ensures
        short_name(name).len() <= name.len(),
        short_name(name) == name.take(short_name(name).len() as int),
        bytes_of(name) <= 12 ==> short_name(name) == name,
        bytes_of(name) > 12 ==> bytes_of(short_name(name)) == 12,
{
    if bytes_of(name) <= 12 {
        assert(name.take(name.len() as int) =~= name);
    }
}

} // verus!
