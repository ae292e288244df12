//! A snapshot of the traffic, as it is handed to a front end.

use vstd::prelude::*;

use crate::controller::scope::{Control, Target};
use crate::decimal;
use crate::monitor::control;
use crate::monitor::control::ControlSets;
use crate::monitor::model::{ConnectionEntry, InterfaceStats, ProcessRow, Protocol};
use crate::monitor::ordering;
use crate::monitor::ordering::stable_sort;
use crate::monitor::stats;
use crate::monitor::stats::protocol_label;
use crate::scan;
use crate::scan::trim;
use crate::text;
use crate::text::chars_of;

verus! {

broadcast use vstd::laws_cmp::group_laws_cmp;

/// How many rows a snapshot holds where nothing else is asked for.
pub const SNAPSHOT_DEFAULT_TOP_N: usize = 25;

/// How many connections a snapshot holds where nothing else is asked for.
pub const SNAPSHOT_DEFAULT_MAX_CONNECTIONS: usize = 50;

/// The traffic of the interface in a snapshot.
#[derive(Debug)]
pub struct InterfaceSnapshot {
    pub tx_bytes_total: u64,
    pub rx_bytes_total: u64,
    pub current_bandwidth_bytes_per_sec: u64,
    pub peak_bandwidth_bytes_per_sec: u64,
    pub tx_history: Vec<u64>,
    pub rx_history: Vec<u64>,
}

/// One thread in a snapshot.
#[derive(Debug)]
pub struct ProcessSnapshot {
    pub pid: u32,
    pub tid: u32,
    pub process: String,
    pub thread: String,
    pub uid: u32,
    pub user: String,
    pub tx_bytes: u64,
    pub rx_bytes: u64,
    pub tx_rate_bytes_per_sec: u64,
    pub rx_rate_bytes_per_sec: u64,
    pub tx_history: Vec<u64>,
    pub rx_history: Vec<u64>,
    pub is_blocked: bool,
    pub is_process_blocked: bool,
    pub is_thread_blocked: bool,
    pub is_user_blocked: bool,
    pub is_process_rate_limited: bool,
    pub is_thread_rate_limited: bool,
    pub is_user_rate_limited: bool,
}

/// One connection in a snapshot.
#[derive(Debug)]
pub struct ConnectionSnapshot {
    pub local_addr: String,
    pub remote_addr: String,
    pub protocol: String,
    pub state: String,
    pub pid: u32,
    pub tid: u32,
    pub process: String,
    pub thread: String,
    pub uid: u32,
    pub user: String,
    pub tx_bytes: u64,
    pub rx_bytes: u64,
}

/// How many are blocked.
#[derive(Clone, Copy, Debug, PartialEq, Eq, Structural)]
pub struct BlockedCounts {
    pub processes: usize,
    pub threads: usize,
    pub users: usize,
}

/// A snapshot of the traffic.
#[derive(Debug)]
pub struct Snapshot {
    pub status: String,
    pub interface: InterfaceSnapshot,
    pub processes: Vec<ProcessSnapshot>,
    pub connections: Vec<ConnectionSnapshot>,
    pub blocked: BlockedCounts,
    pub captured_at_ms: u128,
}

/// By what rows are ranked: all that a thread has sent and received.
pub open spec fn total_keys(rows: Seq<ProcessRow>) -> Seq<Seq<u64>> {
    rows.map_values(
        |row: ProcessRow| ordering::number_key((row.tx_bytes + row.rx_bytes) as u64),
    )
}

/// What each thread has sent and received can be added.
pub open spec fn totals_fit(rows: Seq<ProcessRow>) -> bool {
    forall|i: int|
        0 <= i < rows.len() ==> (#[trigger] rows[i]).tx_bytes + rows[i].rx_bytes <= u64::MAX
}

/// The smaller of two numbers.
pub open spec fn smaller(a: int, b: int) -> int {
    if a < b {
        a
    } else {
        b
    }
}

/// The rows of a snapshot: those with the largest totals, the largest first, and
/// of equal ones the one that came first.
pub open spec fn top_rows(rows: Seq<ProcessRow>, top_n: int) -> Seq<ProcessRow> {
    let sorted = ordering::sorted_by(rows, total_keys(rows), true);
    sorted.take(smaller(top_n, sorted.len() as int))
}

/// The connection is left out: nothing has gone over it, and a filter is active.
pub open spec fn left_out(entry: ConnectionEntry, filter_active: bool) -> bool {
    filter_active && entry.tx_bytes == 0 && entry.rx_bytes == 0
}

/// The connections that are not left out.
pub open spec fn kept(entries: Seq<ConnectionEntry>, filter_active: bool) -> Seq<ConnectionEntry>
    decreases entries.len(),
{
    if entries.len() == 0 {
        Seq::empty()
    } else if left_out(entries.last(), filter_active) {
        kept(entries.drop_last(), filter_active)
    } else {
        kept(entries.drop_last(), filter_active).push(entries.last())
    }
}

/// The connections of a snapshot: those of its rows, in order, as many as are
/// asked for.
pub open spec fn shown_connections(
    rows: Seq<ProcessRow>,
    filter_active: bool,
    max_connections: int,
) -> Seq<ConnectionEntry> {
    let all = kept(stats::all_connections(rows), filter_active);
    all.take(smaller(max_connections, all.len() as int))
}

/// What a snapshot says of a row.
pub open spec fn describes_row(
    shown: ProcessSnapshot,
    row: ProcessRow,
    sets: ControlSets,
) -> bool {
    &&& shown.pid == row.info.pid
    &&& shown.tid == row.info.tid
    &&& shown.process@ == row.info.name@
    &&& shown.thread@ == row.info.thread_name@
    &&& shown.uid == row.info.uid
    &&& shown.user@ == row.info.username@
    &&& shown.tx_bytes == row.tx_bytes
    &&& shown.rx_bytes == row.rx_bytes
    &&& shown.tx_rate_bytes_per_sec == row.tx_history@[0]
    &&& shown.rx_rate_bytes_per_sec == row.rx_history@[0]
    &&& shown.tx_history@ == row.tx_history@
    &&& shown.rx_history@ == row.rx_history@
    &&& shown.is_blocked == row.is_blocked
    &&& shown.is_process_blocked == sets.blocked_pids@.contains(row.info.pid)
    &&& shown.is_thread_blocked == sets.blocked_threads@.contains((row.info.pid, row.info.tid))
    &&& shown.is_user_blocked == sets.blocked_users@.contains(row.info.uid)
    &&& shown.is_process_rate_limited == sets.rate_limited_pids@.contains(row.info.pid)
    &&& shown.is_thread_rate_limited == sets.rate_limited_threads@.contains(
        (row.info.pid, row.info.tid),
    )
    &&& shown.is_user_rate_limited == sets.rate_limited_users@.contains(row.info.uid)
}

/// What a snapshot says of a connection.
pub open spec fn describes_connection(shown: ConnectionSnapshot, entry: ConnectionEntry) -> bool {
    &&& shown.local_addr@ == entry.local_addr@
    &&& shown.remote_addr@ == entry.remote_addr@
    &&& shown.protocol@ == stats::protocol_text(entry.protocol)
    &&& shown.state@ == entry.state@
    &&& shown.pid == entry.pid
    &&& shown.tid == entry.tid
    &&& shown.process@ == entry.process@
    &&& shown.thread@ == entry.thread_name@
    &&& shown.uid == entry.uid
    &&& shown.user@ == entry.username@
    &&& shown.tx_bytes == entry.tx_bytes
    &&& shown.rx_bytes == entry.rx_bytes
}

/// What a snapshot says of the interface; where nothing is known of it,
/// nothing has gone over it, and it has no history.
pub open spec fn describes_interface(
    shown: InterfaceSnapshot,
    stats: Option<InterfaceStats>,
) -> bool {
    match stats {
        Some(known) => {
            &&& shown.tx_bytes_total == known.tx_bytes_total
            &&& shown.rx_bytes_total == known.rx_bytes_total
            &&& shown.current_bandwidth_bytes_per_sec == known.current_bandwidth_bytes_per_sec
            &&& shown.peak_bandwidth_bytes_per_sec == known.peak_bandwidth_bytes_per_sec
            &&& shown.tx_history@ == known.tx_history@
            &&& shown.rx_history@ == known.rx_history@
        },
        None => {
            &&& shown.tx_bytes_total == 0
            &&& shown.rx_bytes_total == 0
            &&& shown.current_bandwidth_bytes_per_sec == 0
            &&& shown.peak_bandwidth_bytes_per_sec == 0
            &&& shown.tx_history@.len() == 0
            &&& shown.rx_history@.len() == 0
        },
    }
}

/// What stands where nothing is asked for.
pub open spec fn or_default(asked: Option<usize>, default: usize) -> usize {
    match asked {
        Some(n) => n,
        None => default,
    }
}

/// A filter with anything but white space is active.
pub open spec fn is_active(filter: Option<Seq<char>>) -> bool {
    filter is Some && scan::trimmed(filter->0).len() > 0
}

fn copied(history: &[u64; 300]) -> (list: Vec<u64>)
    ensures
        list@ == history@,
{
    let mut list: Vec<u64> = Vec::new();
    let mut i: usize = 0;
    while i < 300
        invariant
            i <= 300,
            list@ == history@.take(i as int),
        decreases 300 - i,
    {
        list.push(history[i]);
        assert(list@ =~= history@.take(i + 1));
        i += 1;
    }
    assert(list@ =~= history@);
    list
}

fn interface_snapshot(stats: &Option<InterfaceStats>) -> (shown: InterfaceSnapshot)
    ensures
        describes_interface(shown, *stats),
{
    match stats {
        Some(known) => InterfaceSnapshot {
            tx_bytes_total: known.tx_bytes_total,
            rx_bytes_total: known.rx_bytes_total,
            current_bandwidth_bytes_per_sec: known.current_bandwidth_bytes_per_sec,
            peak_bandwidth_bytes_per_sec: known.peak_bandwidth_bytes_per_sec,
            tx_history: copied(&known.tx_history),
            rx_history: copied(&known.rx_history),
        },
        None => InterfaceSnapshot {
            tx_bytes_total: 0,
            rx_bytes_total: 0,
            current_bandwidth_bytes_per_sec: 0,
            peak_bandwidth_bytes_per_sec: 0,
            tx_history: Vec::new(),
            rx_history: Vec::new(),
        },
    }
}

fn process_snapshot(row: &ProcessRow, sets: &ControlSets) -> (shown: ProcessSnapshot)
    ensures
        describes_row(shown, *row, *sets),
{
    let thread = (row.info.pid, row.info.tid);
    ProcessSnapshot {
        pid: row.info.pid,
        tid: row.info.tid,
        process: row.info.name.clone(),
        thread: row.info.thread_name.clone(),
        uid: row.info.uid,
        user: row.info.username.clone(),
        tx_bytes: row.tx_bytes,
        rx_bytes: row.rx_bytes,
        tx_rate_bytes_per_sec: row.tx_history[0],
        rx_rate_bytes_per_sec: row.rx_history[0],
        tx_history: copied(&row.tx_history),
        rx_history: copied(&row.rx_history),
        is_blocked: row.is_blocked,
        is_process_blocked: sets.blocked_pids.contains(&row.info.pid),
        is_thread_blocked: sets.blocked_threads.contains(&thread),
        is_user_blocked: sets.blocked_users.contains(&row.info.uid),
        is_process_rate_limited: sets.rate_limited_pids.contains(&row.info.pid),
        is_thread_rate_limited: sets.rate_limited_threads.contains(&thread),
        is_user_rate_limited: sets.rate_limited_users.contains(&row.info.uid),
    }
}

fn connection_snapshot(entry: &ConnectionEntry) -> (shown: ConnectionSnapshot)
    ensures
        describes_connection(shown, *entry),
{
    ConnectionSnapshot {
        local_addr: entry.local_addr.clone(),
        remote_addr: entry.remote_addr.clone(),
        protocol: protocol_label(entry.protocol),
        state: entry.state.clone(),
        pid: entry.pid,
        tid: entry.tid,
        process: entry.process.clone(),
        thread: entry.thread_name.clone(),
        uid: entry.uid,
        user: entry.username.clone(),
        tx_bytes: entry.tx_bytes,
        rx_bytes: entry.rx_bytes,
    }
}

fn rank(rows: Vec<ProcessRow>, top_n: usize) -> (top: Vec<ProcessRow>)
    requires
        rows@.len() > 1 ==> totals_fit(rows@),
    ensures
        top@ == top_rows(rows@, top_n as int),
{
    let mut top = if rows.len() <= 1 {
        proof {
            let keys = total_keys(rows@);
            let order = Seq::new(rows@.len(), |i: int| i);
            assert(ordering::is_order(keys, true, order)) by {
                if rows@.len() == 1 {
                    assert(order[0] == 0);
                }
            }
            ordering::order_is_unique(keys, true, order);
            assert(ordering::sorted_by(rows@, keys, true) =~= rows@);
        }
        rows
    } else {
        let mut keys: Vec<Vec<u64>> = Vec::new();
        let mut i: usize = 0;
        while i < rows.len()
            invariant
                i <= rows@.len(),
                totals_fit(rows@),
                keys@.len() == i,
                forall|k: int| 0 <= k < i ==> (#[trigger] keys@[k])@ == total_keys(rows@)[k],
            decreases rows@.len() - i,
        {
            let mut key: Vec<u64> = Vec::new();
            key.push(rows[i].tx_bytes + rows[i].rx_bytes);
            assert(key@ =~= total_keys(rows@)[i as int]);
            keys.push(key);
            i += 1;
        }
        assert(ordering::key_rows(keys@) =~= total_keys(rows@));
        stable_sort(rows, &keys, true)
    };
    let ghost sorted = top@;
    top.truncate(top_n);
    assert(top@ =~= sorted.take(smaller(top_n as int, sorted.len() as int)));
    top
}

proof fn kept_adds_up(a: Seq<ConnectionEntry>, b: Seq<ConnectionEntry>, filter_active: bool)
    ensures
        kept(a + b, filter_active) == kept(a, filter_active) + kept(b, filter_active),
    decreases b.len(),
{
    if b.len() == 0 {
        assert(a + b =~= a);
        assert(kept(a, filter_active) + kept(b, filter_active) =~= kept(a, filter_active));
    } else {
        kept_adds_up(a, b.drop_last(), filter_active);
        assert((a + b).drop_last() =~= a + b.drop_last());
        if !left_out(b.last(), filter_active) {
            assert((kept(a, filter_active) + kept(b.drop_last(), filter_active)).push(b.last())
                =~= kept(a, filter_active) + kept(b.drop_last(), filter_active).push(b.last()));
        }
    }
}

proof fn all_of_front(rows: Seq<ProcessRow>, i: int)
    requires
        0 <= i <= rows.len(),
    ensures
        exists|rest: Seq<ConnectionEntry>|
            stats::all_connections(rows) == #[trigger] (stats::all_connections(rows.take(i)) + rest),
    decreases rows.len() - i,
{
    if i == rows.len() {
        assert(rows.take(i) =~= rows);
        let none = Seq::<ConnectionEntry>::empty();
        assert(stats::all_connections(rows) =~= stats::all_connections(rows.take(i)) + none);
    } else {
        all_of_front(rows, i + 1);
        let rest = choose|rest: Seq<ConnectionEntry>|
            stats::all_connections(rows) == #[trigger] (stats::all_connections(rows.take(i + 1))
                + rest);
        assert(rows.take(i + 1).drop_last() =~= rows.take(i));
        let own = rows[i].connections@;
        assert(stats::all_connections(rows) =~= stats::all_connections(rows.take(i)) + (own + rest));
    }
}

proof fn full_list_is_final(
    rows: Seq<ProcessRow>,
    seen: Seq<ConnectionEntry>,
    rest: Seq<ConnectionEntry>,
    filter_active: bool,
    max: int,
)
    requires
        stats::all_connections(rows) == seen + rest,
        0 <= max <= kept(seen, filter_active).len(),
    ensures
        shown_connections(rows, filter_active, max) == kept(seen, filter_active).take(max),
{
    kept_adds_up(seen, rest, filter_active);
    let all = kept(seen, filter_active) + kept(rest, filter_active);
    assert(all.take(max) =~= kept(seen, filter_active).take(max));
}

/// The connections of a snapshot.
pub fn collect_connections(
    rows: &Vec<ProcessRow>,
    filter_active: bool,
    max_connections: usize,
) -> (list: Vec<ConnectionSnapshot>)
    ensures
        list@.len() == shown_connections(rows@, filter_active, max_connections as int).len(),
        forall|i: int|
            0 <= i < list@.len() ==> describes_connection(
                #[trigger] list@[i],
                shown_connections(rows@, filter_active, max_connections as int)[i],
            ),
{
    let mut list: Vec<ConnectionSnapshot> = Vec::new();
    let ghost mut entries = Seq::<ConnectionEntry>::empty();
    let mut i: usize = 0;
    assert(rows@.take(0) =~= Seq::empty());
    while i < rows.len() && list.len() < max_connections
        invariant
            i <= rows@.len(),
            list@.len() == entries.len(),
            entries.len() <= max_connections,
            forall|k: int|
                0 <= k < list@.len() ==> describes_connection(#[trigger] list@[k], entries[k]),
            entries.len() < max_connections ==> entries == kept(
                stats::all_connections(rows@.take(i as int)),
                filter_active,
            ),
            entries.len() == max_connections ==> entries == shown_connections(
                rows@,
                filter_active,
                max_connections as int,
            ),
        decreases rows@.len() - i,
    {
        let connections = &rows[i].connections;
        let ghost earlier = stats::all_connections(rows@.take(i as int));
        let mut j: usize = 0;
        assert(earlier + connections@.take(0) =~= earlier);
        while j < connections.len() && list.len() < max_connections
            invariant
                i < rows@.len(),
                j <= connections@.len(),
                connections@ == rows@[i as int].connections@,
                earlier == stats::all_connections(rows@.take(i as int)),
                list@.len() == entries.len(),
                entries.len() <= max_connections,
                forall|k: int|
                    0 <= k < list@.len() ==> describes_connection(#[trigger] list@[k], entries[k]),
                entries == kept(earlier + connections@.take(j as int), filter_active),
            decreases connections@.len() - j,
        {
            let entry = &connections[j];
            proof {
                let now = earlier + connections@.take(j + 1);
                assert(now.drop_last() =~= earlier + connections@.take(j as int));
                assert(now.last() == *entry);
            }
            if !(filter_active && entry.tx_bytes == 0 && entry.rx_bytes == 0) {
                list.push(connection_snapshot(entry));
                proof {
                    entries = entries.push(*entry);
                }
            }
            j += 1;
        }
        proof {
            let seen = earlier + connections@.take(j as int);
            all_of_front(rows@, i + 1);
            let after = choose|after: Seq<ConnectionEntry>|
                stats::all_connections(rows@) == #[trigger] (stats::all_connections(
                    rows@.take(i + 1),
                ) + after);
            assert(rows@.take(i + 1).drop_last() =~= rows@.take(i as int));
            assert(rows@.take(i + 1).last() == rows@[i as int]);
            let rest = connections@.skip(j as int) + after;
            assert(stats::all_connections(rows@) =~= seen + rest);
            if entries.len() == max_connections {
                full_list_is_final(rows@, seen, rest, filter_active, max_connections as int);
                assert(entries.take(max_connections as int) =~= entries);
            } else {
                assert(connections@.take(j as int) =~= connections@);
            }
        }
        i += 1;
    }
    proof {
        let all = kept(stats::all_connections(rows@), filter_active);
        if entries.len() < max_connections {
            assert(rows@.take(i as int) =~= rows@);
            assert(all.take(all.len() as int) =~= all);
        } else if max_connections == 0 {
            assert(entries =~= Seq::empty());
            assert(shown_connections(rows@, filter_active, 0) =~= Seq::empty());
        }
    }
    list
}

/// Whether a filter with anything but white space is active.
pub fn filter_is_active(filter: Option<&str>) -> (yes: bool)
    ensures
        yes == is_active(text::optional_str(filter)),
{
    match filter {
        Some(expression) => {
            let inner = trim(&chars_of(expression));
            inner.len() > 0
        },
        None => false,
    }
}

/// A snapshot of the traffic, from what is known of it.
pub fn get_snapshot(
    rows: Vec<ProcessRow>,
    interface: &Option<InterfaceStats>,
    status: Option<String>,
    filter: Option<&str>,
    sets: &ControlSets,
    top_n: Option<usize>,
    max_connections: Option<usize>,
    captured_at_ms: u128,
) -> (snapshot: Snapshot)
    requires
        rows@.len() > 1 ==> totals_fit(rows@),
    ensures
        ({
            let top = top_rows(rows@, or_default(top_n, SNAPSHOT_DEFAULT_TOP_N) as int);
            let shown = shown_connections(
                top,
                is_active(text::optional_str(filter)),
                or_default(max_connections, SNAPSHOT_DEFAULT_MAX_CONNECTIONS) as int,
            );
            &&& snapshot.status@ == (match status {
                Some(line) => line@,
                None => "Unknown"@,
            })
            &&& describes_interface(snapshot.interface, *interface)
            &&& snapshot.processes@.len() == top.len()
            &&& forall|i: int|
                0 <= i < top.len() ==> describes_row(#[trigger] snapshot.processes@[i], top[i], *sets)
            &&& snapshot.connections@.len() == shown.len()
            &&& forall|i: int|
                0 <= i < shown.len() ==> describes_connection(
                    #[trigger] snapshot.connections@[i],
                    shown[i],
                )
            &&& snapshot.blocked.processes == sets.blocked_pids@.len()
            &&& snapshot.blocked.threads == sets.blocked_threads@.len()
            &&& snapshot.blocked.users == sets.blocked_users@.len()
            &&& snapshot.captured_at_ms == captured_at_ms
        }),
{
    let limit: usize = match top_n {
        Some(n) => n,
        None => SNAPSHOT_DEFAULT_TOP_N,
    };
    let most: usize = match max_connections {
        Some(n) => n,
        None => SNAPSHOT_DEFAULT_MAX_CONNECTIONS,
    };
    let top = rank(rows, limit);
    let mut processes: Vec<ProcessSnapshot> = Vec::new();
    let mut i: usize = 0;
    while i < top.len()
        invariant
            i <= top@.len(),
            processes@.len() == i,
            forall|k: int|
                0 <= k < i ==> describes_row(#[trigger] processes@[k], top@[k], *sets),
        decreases top@.len() - i,
    {
        processes.push(process_snapshot(&top[i], sets));
        i += 1;
    }
    let connections = collect_connections(&top, filter_is_active(filter), most);
    let line = match status {
        Some(line) => line,
        None => "Unknown".to_owned(),
    };
    Snapshot {
        status: line,
        interface: interface_snapshot(interface),
        processes,
        connections,
        blocked: BlockedCounts {
            processes: sets.blocked_pids.len(),
            threads: sets.blocked_threads.len(),
            users: sets.blocked_users.len(),
        },
        captured_at_ms,
    }
}

proof fn kept_entries_are_entries(entries: Seq<ConnectionEntry>, filter_active: bool, i: int)
    requires
        0 <= i < kept(entries, filter_active).len(),
    ensures
        entries.contains(kept(entries, filter_active)[i]),
        !left_out(kept(entries, filter_active)[i], filter_active),
    decreases entries.len(),
{
    let front = kept(entries.drop_last(), filter_active);
    if i < front.len() {
        kept_entries_are_entries(entries.drop_last(), filter_active, i);
        let k = choose|k: int| 0 <= k < entries.drop_last().len() && entries.drop_last()[k] == front[i];
        assert(entries[k] == front[i]);
    } else {
        assert(entries[entries.len() - 1] == entries.last());
    }
}

proof fn entries_have_rows(rows: Seq<ProcessRow>, entry: ConnectionEntry)
    requires
        stats::all_connections(rows).contains(entry),
    ensures
        exists|r: int| 0 <= r < rows.len() && (#[trigger] rows[r]).connections@.contains(entry),
    decreases rows.len(),
{
    let all = stats::all_connections(rows);
    let k = choose|k: int| 0 <= k < all.len() && all[k] == entry;
    let front = stats::all_connections(rows.drop_last());
    if k < front.len() {
        assert(front[k] == entry);
        entries_have_rows(rows.drop_last(), entry);
        let r = choose|r: int|
            0 <= r < rows.drop_last().len() && (#[trigger] rows.drop_last()[r]).connections@.contains(
                entry,
            );
        assert(rows[r] == rows.drop_last()[r]);
    } else {
        assert(rows.last().connections@[k - front.len()] == entry);
        assert(rows[rows.len() - 1].connections@.contains(entry));
    }
}

/// A snapshot holds no more connections than are asked for; each is one of a
/// row of the snapshot, and with an active filter something has gone over it.
pub proof fn shown_connections_are_of_shown_rows(
    rows: Seq<ProcessRow>,
    filter_active: bool,
    max_connections: int,
    i: int,
)
    requires
        0 <= max_connections,
        0 <= i < shown_connections(rows, filter_active, max_connections).len(),
    ensures
        shown_connections(rows, filter_active, max_connections).len() <= max_connections,
        exists|r: int|
            0 <= r < rows.len() && (#[trigger] rows[r]).connections@.contains(
                shown_connections(rows, filter_active, max_connections)[i],
            ),
        !left_out(shown_connections(rows, filter_active, max_connections)[i], filter_active),
{
    let all = stats::all_connections(rows);
    kept_entries_are_entries(all, filter_active, i);
    entries_have_rows(rows, kept(all, filter_active)[i]);
}

/// A snapshot holds no more rows than are asked for, and no row of it comes
/// before one that has sent and received more.
pub proof fn shown_rows_are_ranked(rows: Seq<ProcessRow>, top_n: int, a: int, b: int)
    requires
        totals_fit(rows),
        0 <= top_n,
        0 <= a < b < top_rows(rows, top_n).len(),
    ensures
        top_rows(rows, top_n).len() <= top_n,
        top_rows(rows, top_n)[a].tx_bytes + top_rows(rows, top_n)[a].rx_bytes >= top_rows(
            rows,
            top_n,
        )[b].tx_bytes + top_rows(rows, top_n)[b].rx_bytes,
{
    let keys = total_keys(rows);
    let order = ordering::sorted_order(keys, true);
    ordering::order_exists(keys, true);
    ordering::sorting_rearranges(rows, keys, true, 0, a, b);
    let first = rows[order[a]];
    let later = rows[order[b]];
    assert(keys[order[a]] == ordering::number_key((first.tx_bytes + first.rx_bytes) as u64));
    assert(keys[order[b]] == ordering::number_key((later.tx_bytes + later.rx_bytes) as u64));
    if first.tx_bytes + first.rx_bytes < later.tx_bytes + later.rx_bytes {
        assert(ordering::before(keys[order[a]], keys[order[b]]));
    }
}

/// What is recorded is what the next snapshot shows: recording the blocking or
/// the limiting of a process, a thread or a user sets the mark for it, and
/// taking it back clears the mark, in every row of that process, that thread or
/// that user; every other mark of every row stays as it was.
pub proof fn recorded_controls_are_shown(
    row: ProcessRow,
    earlier: ControlSets,
    later: ControlSets,
    was: ProcessSnapshot,
    now: ProcessSnapshot,
    target: Target,
    control: Control,
    on: bool,
)
    requires
        control::recorded(earlier, later, target, control, on),
        describes_row(was, row, earlier),
        describes_row(now, row, later),
    ensures
        ({
            let process = target == (Target::Process { pid: row.info.pid });
            let thread = target == (Target::Thread { pid: row.info.pid, tid: row.info.tid });
            let user = target == (Target::User { uid: row.info.uid });
            let block = control == Control::Block;
            &&& now.is_process_blocked == if process && block {
                on
            } else {
                was.is_process_blocked
            }
            &&& now.is_thread_blocked == if thread && block {
                on
            } else {
                was.is_thread_blocked
            }
            &&& now.is_user_blocked == if user && block {
                on
            } else {
                was.is_user_blocked
            }
            &&& now.is_process_rate_limited == if process && !block {
                on
            } else {
                was.is_process_rate_limited
            }
            &&& now.is_thread_rate_limited == if thread && !block {
                on
            } else {
                was.is_thread_rate_limited
            }
            &&& now.is_user_rate_limited == if user && !block {
                on
            } else {
                was.is_user_rate_limited
            }
            &&& now.is_blocked == was.is_blocked
        }),
{
    let process = Target::Process { pid: row.info.pid };
    let thread = Target::Thread { pid: row.info.pid, tid: row.info.tid };
    let user = Target::User { uid: row.info.uid };
    shown_marks_are_controls(row, earlier, was);
    shown_marks_are_controls(row, later, now);
    assert(control::controlled(later, process, Control::Block) == now.is_process_blocked);
    assert(control::controlled(later, thread, Control::Block) == now.is_thread_blocked);
    assert(control::controlled(later, user, Control::Block) == now.is_user_blocked);
    assert(control::controlled(later, process, Control::Limit) == now.is_process_rate_limited);
    assert(control::controlled(later, thread, Control::Limit) == now.is_thread_rate_limited);
    assert(control::controlled(later, user, Control::Limit) == now.is_user_rate_limited);
}

/// The marks of a row say who is under control: its process, its thread and its
/// user, each blocked, limited, both or neither.
pub proof fn shown_marks_are_controls(row: ProcessRow, sets: ControlSets, shown: ProcessSnapshot)
    requires
        describes_row(shown, row, sets),
    ensures
        ({
            let process = Target::Process { pid: row.info.pid };
            let thread = Target::Thread { pid: row.info.pid, tid: row.info.tid };
            let user = Target::User { uid: row.info.uid };
            &&& shown.is_process_blocked == control::controlled(sets, process, Control::Block)
            &&& shown.is_thread_blocked == control::controlled(sets, thread, Control::Block)
            &&& shown.is_user_blocked == control::controlled(sets, user, Control::Block)
            &&& shown.is_process_rate_limited == control::controlled(
                sets,
                process,
                Control::Limit,
            )
            &&& shown.is_thread_rate_limited == control::controlled(sets, thread, Control::Limit)
            &&& shown.is_user_rate_limited == control::controlled(sets, user, Control::Limit)
            &&& shown.is_blocked == row.is_blocked
        }),
{
}

/// A snapshot hands on what it was told of a thread: its numbers and names, what
/// it has sent and received, the newest sample of each history as the rate, and
/// the whole histories.
pub proof fn rows_are_handed_on(row: ProcessRow, sets: ControlSets, shown: ProcessSnapshot)
    requires
        describes_row(shown, row, sets),
    ensures
        (shown.pid, shown.tid, shown.uid) == (row.info.pid, row.info.tid, row.info.uid),
        (shown.process@, shown.thread@, shown.user@) == (
            row.info.name@,
            row.info.thread_name@,
            row.info.username@,
        ),
        (shown.tx_bytes, shown.rx_bytes) == (row.tx_bytes, row.rx_bytes),
        shown.tx_history@.len() == 300 && shown.rx_history@.len() == 300,
        shown.tx_rate_bytes_per_sec == shown.tx_history@[0],
        shown.rx_rate_bytes_per_sec == shown.rx_history@[0],
        forall|i: int| 0 <= i < 300 ==> #[trigger] shown.tx_history@[i] == row.tx_history@[i],
        forall|i: int| 0 <= i < 300 ==> #[trigger] shown.rx_history@[i] == row.rx_history@[i],
{
}

/// A snapshot hands on what it was told of a connection.
pub proof fn connections_are_handed_on(entry: ConnectionEntry, shown: ConnectionSnapshot)
    requires
        describes_connection(shown, entry),
    ensures
        (shown.local_addr@, shown.remote_addr@) == (entry.local_addr@, entry.remote_addr@),
        (shown.pid, shown.tid, shown.uid) == (entry.pid, entry.tid, entry.uid),
        (shown.process@, shown.thread@, shown.user@) == (
            entry.process@,
            entry.thread_name@,
            entry.username@,
        ),
        shown.state@ == entry.state@,
        (shown.tx_bytes, shown.rx_bytes) == (entry.tx_bytes, entry.rx_bytes),
        entry.protocol is Tcp <==> shown.protocol@ == "TCP"@,
        entry.protocol is Udp <==> shown.protocol@ == "UDP"@,
        entry.protocol matches Protocol::Other(n) ==> text::has_part(
            shown.protocol@,
            decimal::decimal(n as nat),
        ),
{
    reveal_strlit("TCP");
    reveal_strlit("UDP");
    reveal_strlit("Other(");
    assert("TCP"@[0] != "UDP"@[0]);
    if let Protocol::Other(n) = entry.protocol {
        let digits = decimal::decimal(n as nat);
        let label = stats::protocol_text(entry.protocol);
        assert(label[0] == "Other("@[0]);
        assert(label.subrange(6, 6 + digits.len() as int) =~= digits);
        assert(text::occurs_at(label, digits, 6));
    }
}

/// A snapshot hands on what is known of the interface, each figure in its own
/// place, and shows an interface without traffic where nothing is known.
pub proof fn interfaces_are_handed_on(known: InterfaceStats, shown: InterfaceSnapshot)
    ensures
        describes_interface(shown, Some(known)) ==> {
            &&& (shown.tx_bytes_total, shown.rx_bytes_total) == (
                known.tx_bytes_total,
                known.rx_bytes_total,
            )
            &&& shown.current_bandwidth_bytes_per_sec == known.current_bandwidth_bytes_per_sec
            &&& shown.peak_bandwidth_bytes_per_sec == known.peak_bandwidth_bytes_per_sec
            &&& (shown.tx_history@, shown.rx_history@) == (known.tx_history@, known.rx_history@)
        },
        describes_interface(shown, None) ==> {
            &&& shown.tx_bytes_total == 0 && shown.rx_bytes_total == 0
            &&& shown.current_bandwidth_bytes_per_sec == 0
            &&& shown.peak_bandwidth_bytes_per_sec == 0
            &&& shown.tx_history@.len() == 0 && shown.rx_history@.len() == 0
        },
{
}

/// The rows of a snapshot are the ones that have sent and received most, in
/// both directions together, the most first: as many as are asked for, or all,
/// and no row that is left out has more than one that is shown.
pub proof fn shown_rows_have_the_largest_totals(rows: Seq<ProcessRow>, top_n: int)
    requires
        totals_fit(rows),
        0 <= top_n,
    ensures
        top_rows(rows, top_n).len() == (if top_n < rows.len() {
            top_n
        } else {
            rows.len() as int
        }),
        ordering::is_top_by(
            top_rows(rows, top_n),
            rows,
            |row: ProcessRow| row.tx_bytes + row.rx_bytes,
            ordering::sorted_order(total_keys(rows), true).take(
                top_rows(rows, top_n).len() as int,
            ),
        ),
{
    let measure = |row: ProcessRow| row.tx_bytes + row.rx_bytes;
    let keys = total_keys(rows);
    ordering::sorting_loses_nothing(rows, keys, true);
    assert forall|i: int| 0 <= i < rows.len() implies 0 <= measure(#[trigger] rows[i])
        <= u64::MAX && keys[i] == ordering::number_key(measure(rows[i]) as u64) by {
        assert(rows[i].tx_bytes + rows[i].rx_bytes <= u64::MAX);
    }
    let n = if top_n < rows.len() {
        top_n
    } else {
        rows.len() as int
    };
    ordering::fronts_are_the_best(rows, keys, measure, n);
    assert(top_rows(rows, top_n) =~= ordering::sorted_by(rows, keys, true).take(n));
}

/// Every connection is kept or left out for itself: what is kept of two groups
/// is what is kept of the one and then of the other, and one connection is left
/// out exactly if a filter is active and nothing has gone over it either way.
pub proof fn connections_are_kept_one_by_one(
    a: Seq<ConnectionEntry>,
    b: Seq<ConnectionEntry>,
    entry: ConnectionEntry,
    filter_active: bool,
)
    ensures
        kept(a + b, filter_active) == kept(a, filter_active) + kept(b, filter_active),
        kept(a, false) == a,
        kept(seq![entry], filter_active) == (if filter_active && entry.tx_bytes == 0
            && entry.rx_bytes == 0 {
            Seq::empty()
        } else {
            seq![entry]
        }),
{
    kept_adds_up(a, b, filter_active);
    all_are_kept(a);
    let one = seq![entry];
    assert(one.drop_last() =~= Seq::empty());
    assert(one.last() == entry);
    assert(kept(one.drop_last(), filter_active) =~= Seq::empty());
    assert(kept(one, filter_active) =~= if filter_active && entry.tx_bytes == 0 && entry.rx_bytes
        == 0 {
        Seq::empty()
    } else {
        seq![entry]
    });
}

proof fn all_are_kept(entries: Seq<ConnectionEntry>)
    ensures
        kept(entries, false) == entries,
    decreases entries.len(),
{
    if entries.len() > 0 {
        all_are_kept(entries.drop_last());
        assert(entries.drop_last().push(entries.last()) =~= entries);
    } else {
        assert(kept(entries, false) =~= entries);
    }
}

/// A snapshot shows the first of the connections that are kept, in the order of
/// its rows: all of them where no fewer are asked for.
pub proof fn shown_connections_are_the_first(
    rows: Seq<ProcessRow>,
    filter_active: bool,
    max_connections: int,
)
    requires
        0 <= max_connections,
    ensures
        ({
            let all = kept(stats::all_connections(rows), filter_active);
            let shown = shown_connections(rows, filter_active, max_connections);
            &&& shown.len() <= max_connections
            &&& max_connections >= all.len() ==> shown == all
            &&& max_connections <= all.len() ==> shown == all.take(max_connections)
        }),
{
    let all = kept(stats::all_connections(rows), filter_active);
    assert(all.take(all.len() as int) =~= all);
}

/// A filter is active exactly if there is anything in it but white space.
pub proof fn filters_with_content_are_active(filter: Seq<char>)
    ensures
        is_active(Some(filter)) <==> exists|i: int|
            0 <= i < filter.len() && !scan::is_space(#[trigger] filter[i]),
        !is_active(None),
{
    scan::only_space_trims_to_nothing(filter);
}

/// What is asked for counts, and without that the usual number.
pub proof fn requests_are_honoured(n: usize, usual: usize)
    ensures
        or_default(Some(n), usual) == n,
        or_default(None, usual) == usual,
{
}

} // verus!
