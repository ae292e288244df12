//! Figures drawn from the rows: rates, rankings, counts and sums.

use std::collections::BTreeMap;

use vstd::prelude::*;

use crate::decimal;
use crate::decimal::append_decimal;
use crate::monitor::model;
use crate::monitor::model::{
    find_row, ConnectionEntry, ProcessRow, Protocol, ThreadKey, CHART_HISTORY_SECONDS,
};
use crate::monitor::ordering;
use crate::monitor::ordering::stable_sort;
use crate::scan;

verus! {

broadcast use vstd::laws_cmp::group_laws_cmp;

/// The traffic, in bytes per second, above which there is a spike.
pub const SPIKE_THRESHOLD_BYTES_PER_SEC: u64 = 500_000_000;

/// The mean of the two newest samples.
pub open spec fn short_rate(history: Seq<u64>) -> int {
    (history[0] + history[1]) / 2
}

/// The sum of the two newest samples can be held.
pub open spec fn rate_fits(history: Seq<u64>) -> bool {
    history.len() >= 2 && history[0] + history[1] <= u64::MAX
}

/// Both rates of the row can be computed.
pub open spec fn row_fits(row: ProcessRow) -> bool {
    rate_fits(row.tx_history@) && rate_fits(row.rx_history@)
}

/// Both rates of every row can be computed.
pub open spec fn rows_fit(rows: Seq<ProcessRow>) -> bool {
    forall|i: int| 0 <= i < rows.len() ==> row_fits(#[trigger] rows[i])
}

/// What a thread sends and receives per second.
pub open spec fn row_rate(row: ProcessRow) -> int {
    short_rate(row.tx_history@) + short_rate(row.rx_history@)
}

/// What all threads send and receive per second.
pub open spec fn sum_of_rates(rows: Seq<ProcessRow>) -> int
    decreases rows.len(),
{
    if rows.len() == 0 {
        0
    } else {
        sum_of_rates(rows.drop_last()) + row_rate(rows.last())
    }
}

/// The connections of all rows, in order.
pub open spec fn all_connections(rows: Seq<ProcessRow>) -> Seq<ConnectionEntry>
    decreases rows.len(),
{
    if rows.len() == 0 {
        Seq::empty()
    } else {
        all_connections(rows.drop_last()) + rows.last().connections@
    }
}

/// What has gone to and from a remote port.
pub open spec fn port_bytes(connections: Seq<ConnectionEntry>, port: u16) -> int
    decreases connections.len(),
{
    if connections.len() == 0 {
        0
    } else {
        let last = connections.last();
        port_bytes(connections.drop_last(), port) + if last.remote_port == port {
            last.tx_bytes + last.rx_bytes
        } else {
            0
        }
    }
}

/// Some connection goes to the remote port.
pub open spec fn port_in_use(connections: Seq<ConnectionEntry>, port: u16) -> bool {
    exists|i: int| 0 <= i < connections.len() && (#[trigger] connections[i]).remote_port == port
}

/// A kind of protocol.
#[derive(Clone, Copy, Debug, PartialEq, Eq, Structural)]
pub enum ProtocolKind {
    Tcp,
    Udp,
    Other,
}

/// The kind of a protocol.
pub open spec fn kind_of(protocol: Protocol) -> ProtocolKind {
    match protocol {
        Protocol::Tcp => ProtocolKind::Tcp,
        Protocol::Udp => ProtocolKind::Udp,
        Protocol::Other(_) => ProtocolKind::Other,
    }
}

/// How many connections there are of a kind.
pub open spec fn count_of(connections: Seq<ConnectionEntry>, kind: ProtocolKind) -> nat
    decreases connections.len(),
{
    if connections.len() == 0 {
        0
    } else {
        count_of(connections.drop_last(), kind) + if kind_of(connections.last().protocol) == kind {
            1nat
        } else {
            0nat
        }
    }
}

/// The counts of the three kinds in one line.
pub open spec fn mix_text(tcp: nat, udp: nat, other: nat) -> Seq<char> {
    "T:"@ + decimal::decimal(tcp) + " U:"@ + decimal::decimal(udp) + " O:"@ + decimal::decimal(
        other,
    )
}

/// The composition of the connections of one row.
pub open spec fn row_mix(row: ProcessRow) -> Seq<char> {
    mix_text(
        count_of(row.connections@, ProtocolKind::Tcp),
        count_of(row.connections@, ProtocolKind::Udp),
        count_of(row.connections@, ProtocolKind::Other),
    )
}

/// The service that a port is known for.
pub open spec fn service_text(port: u16) -> Seq<char> {
    match port {
        80 => "HTTP"@,
        443 => "HTTPS"@,
        53 => "DNS"@,
        22 => "SSH"@,
        21 => "FTP"@,
        25 => "SMTP"@,
        3306 => "MySQL"@,
        5432 => "PostgreSQL"@,
        6379 => "Redis"@,
        27017 => "MongoDB"@,
        _ => "Other"@,
    }
}

/// The keys by which rows are ranked.
pub open spec fn rate_keys(rows: Seq<ProcessRow>) -> Seq<Seq<u64>> {
    rows.map_values(|row: ProcessRow| ordering::number_key(row_rate(row) as u64))
}

/// The rows that send and receive most, the first before the others; of equal
/// ones the one that came first.
pub open spec fn ranked(rows: Seq<ProcessRow>) -> Seq<ProcessRow> {
    ordering::sorted_by(rows, rate_keys(rows), true)
}

/// The mean of the two newest samples.
pub fn two_second_avg(history: &[u64; 300]) -> (rate: u64)
    requires
        rate_fits(history@),
    ensures
        rate == short_rate(history@),
{
    (history[0] + history[1]) / 2
}

/// What a thread sends and receives per second.
pub fn total_rate(row: &ProcessRow) -> (rate: u64)
    requires
        row_fits(*row),
    ensures
        rate == row_rate(*row),
{
    two_second_avg(&row.tx_history) + two_second_avg(&row.rx_history)
}

/// The `limit` rows that send and receive most, with what they send and
/// receive per second.
pub fn compute_top_processes<'a>(rows: &'a Vec<ProcessRow>, limit: usize) -> (top: Vec<
    (&'a ProcessRow, u64),
>)
    requires
        rows_fit(rows@),
    ensures
        top@.len() == (if rows@.len() < limit {
            rows@.len()
        } else {
            limit as nat
        }),
        forall|i: int|
            0 <= i < top@.len() ==> *(#[trigger] top@[i]).0 == ranked(rows@)[i] && top@[i].1
                == row_rate(ranked(rows@)[i]),
{
    let mut pairs: Vec<(&'a ProcessRow, u64)> = Vec::new();
    let mut keys: Vec<Vec<u64>> = Vec::new();
    let mut i: usize = 0;
    while i < rows.len()
        invariant
            i <= rows@.len(),
            rows_fit(rows@),
            pairs@.len() == i,
            keys@.len() == i,
            forall|k: int|
                0 <= k < i ==> *(#[trigger] pairs@[k]).0 == rows@[k] && pairs@[k].1 == row_rate(rows@[k]),
            forall|k: int| 0 <= k < i ==> (#[trigger] keys@[k])@ == rate_keys(rows@)[k],
        decreases rows@.len() - i,
    {
        let rate: u64 = total_rate(&rows[i]);
        let mut key: Vec<u64> = Vec::new();
        key.push(rate);
        assert(key@ =~= rate_keys(rows@)[i as int]);
        keys.push(key);
        pairs.push((&rows[i], rate));
        i += 1;
    }
    assert(ordering::key_rows(keys@) =~= rate_keys(rows@));
    let ghost all = pairs@;
    let order = ordering::stable_order(&keys, true);
    let ghost places = ordering::positions(order@);
    let mut top = stable_sort(pairs, &keys, true);
    proof {
        assert forall|k: int| 0 <= k < rows@.len() implies *(#[trigger] top@[k]).0 == ranked(
            rows@,
        )[k] && top@[k].1 == row_rate(ranked(rows@)[k]) by {
            assert(places.contains(places[k]));
            assert(top@[k] == all[places[k]]);
        }
    }
    top.truncate(limit);
    top
}

/// The sum of all rates, where it is a spike.
pub fn detect_spike(rows: &Vec<ProcessRow>) -> (spike: Option<u64>)
    requires
        rows_fit(rows@),
        sum_of_rates(rows@) <= u64::MAX,
    ensures
        match spike {
            Some(rate) => rate == sum_of_rates(rows@) && rate > SPIKE_THRESHOLD_BYTES_PER_SEC,
            None => sum_of_rates(rows@) <= SPIKE_THRESHOLD_BYTES_PER_SEC,
        },
{
    let mut sum: u64 = 0;
    let mut i: usize = 0;
    assert(rows@.take(0) =~= Seq::empty());
    while i < rows.len()
        invariant
            i <= rows@.len(),
            rows_fit(rows@),
            sum_of_rates(rows@) <= u64::MAX,
            sum == sum_of_rates(rows@.take(i as int)),
        decreases rows@.len() - i,
    {
        proof {
            assert(rows@.take(i + 1).drop_last() =~= rows@.take(i as int));
            sum_of_rates_grows(rows@, i + 1);
        }
        sum = sum + total_rate(&rows[i]);
        i += 1;
    }
    assert(rows@.take(i as int) =~= rows@);
    if sum > SPIKE_THRESHOLD_BYTES_PER_SEC {
        Some(sum)
    } else {
        None
    }
}

proof fn sum_of_rates_grows(rows: Seq<ProcessRow>, n: int)
    requires
        rows_fit(rows),
        0 <= n <= rows.len(),
    ensures
        sum_of_rates(rows.take(n)) <= sum_of_rates(rows),
    decreases rows.len() - n,
{
    if n == rows.len() {
        assert(rows.take(n) =~= rows);
    } else {
        sum_of_rates_grows(rows, n + 1);
        assert(rows.take(n + 1).drop_last() =~= rows.take(n));
        assert(row_fits(rows[n]));
    }
}

/// The service that a port is known for.
pub fn service_name(port: u16) -> (name: &'static str)
    ensures
        name@ == service_text(port),
{
    match port {
        80 => "HTTP",
        443 => "HTTPS",
        53 => "DNS",
        22 => "SSH",
        21 => "FTP",
        25 => "SMTP",
        3306 => "MySQL",
        5432 => "PostgreSQL",
        6379 => "Redis",
        27017 => "MongoDB",
        _ => "Other",
    }
}

/// No remote port has more bytes than can be held.
pub open spec fn ports_fit(rows: Seq<ProcessRow>) -> bool {
    forall|port: u16| #[trigger] port_bytes(all_connections(rows), port) <= u64::MAX
}

proof fn port_bytes_grows(connections: Seq<ConnectionEntry>, n: int, port: u16)
    requires
        0 <= n <= connections.len(),
    ensures
        0 <= port_bytes(connections.take(n), port) <= port_bytes(connections, port),
    decreases connections.len(),
{
    if n == connections.len() {
        assert(connections.take(n) =~= connections);
        if n > 0 {
            port_bytes_grows(connections.drop_last(), n - 1, port);
        }
    } else {
        port_bytes_grows(connections.drop_last(), n, port);
        assert(connections.drop_last().take(n) =~= connections.take(n));
    }
}

proof fn connections_so_far(rows: Seq<ProcessRow>, i: int, j: int)
    requires
        0 <= i < rows.len(),
        0 <= j <= rows[i].connections@.len(),
    ensures
        ({
            let so_far = all_connections(rows.take(i)) + rows[i].connections@.take(j);
            &&& so_far.len() <= all_connections(rows).len()
            &&& all_connections(rows).take(so_far.len() as int) == so_far
            &&& j < rows[i].connections@.len() ==> so_far.len() < all_connections(rows).len()
        }),
    decreases rows.len(),
{
    let so_far = all_connections(rows.take(i)) + rows[i].connections@.take(j);
    let all = all_connections(rows);
    if i == rows.len() - 1 {
        assert(rows.drop_last() =~= rows.take(i));
        assert(all.take(so_far.len() as int) =~= so_far);
    } else {
        let front = rows.drop_last();
        connections_so_far(front, i, j);
        assert(front.take(i) =~= rows.take(i));
        assert(all.take(so_far.len() as int) =~= all_connections(front).take(so_far.len() as int));
    }
}

/// The remote port with the most bytes over all connections, and the service
/// that it is known for.  Where several have the most, it is one of these.
pub fn find_top_port(rows: &Vec<ProcessRow>) -> (top: Option<(u16, String)>)
    requires
        ports_fit(rows@),
    ensures
        match top {
            Some((port, service)) => {
                &&& port_in_use(all_connections(rows@), port)
                &&& forall|other: u16| #[trigger]
                    port_bytes(all_connections(rows@), other) <= port_bytes(
                        all_connections(rows@),
                        port,
                    )
                &&& service@ == service_text(port)
            },
            None => all_connections(rows@).len() == 0,
        },
{
    let ghost all = all_connections(rows@);
    let mut sums: BTreeMap<u16, u64> = BTreeMap::new();
    let ghost mut done = Seq::<ConnectionEntry>::empty();
    let mut i: usize = 0;
    assert(rows@.take(0) =~= Seq::empty());
    while i < rows.len()
        invariant
            i <= rows@.len(),
            ports_fit(rows@),
            all == all_connections(rows@),
            done == all_connections(rows@.take(i as int)),
            forall|port: u16| #[trigger] sums@.contains_key(port) <==> port_in_use(done, port),
            forall|port: u16| #[trigger]
                sums@.contains_key(port) ==> sums@[port] == port_bytes(done, port),
        decreases rows@.len() - i,
    {
        let ghost earlier = done;
        let connections = &rows[i].connections;
        let mut j: usize = 0;
        assert(earlier + connections@.take(0) =~= earlier);
        while j < connections.len()
            invariant
                i < rows@.len(),
                j <= connections@.len(),
                connections@ == rows@[i as int].connections@,
                ports_fit(rows@),
                all == all_connections(rows@),
                earlier == all_connections(rows@.take(i as int)),
                done == earlier + connections@.take(j as int),
                forall|port: u16| #[trigger] sums@.contains_key(port) <==> port_in_use(done, port),
                forall|port: u16| #[trigger]
                    sums@.contains_key(port) ==> sums@[port] == port_bytes(done, port),
            decreases connections@.len() - j,
        {
            let ghost before = done;
            let ghost was = sums@;
            let port = connections[j].remote_port;
            proof {
                connections_so_far(rows@, i as int, j + 1);
                done = earlier + connections@.take(j + 1);
                assert(done.drop_last() =~= before);
                assert(done.last() == connections@[j as int]);
                port_bytes_grows(all, done.len() as int, port);
                port_bytes_grows(before, before.len() as int, port);
                assert(port_bytes(all, port) <= u64::MAX);
                if !was.contains_key(port) {
                    unused_ports_have_no_bytes(before, port);
                }
            }
            let sum: u64 = match sums.get(&port) {
                Some(sum) => *sum,
                None => 0,
            };
            sums.insert(port, sum + (connections[j].tx_bytes + connections[j].rx_bytes));
            proof {
                assert forall|p: u16| #[trigger] sums@.contains_key(p) <==> port_in_use(done, p) by {
                    if port_in_use(before, p) {
                        let k = choose|k: int|
                            0 <= k < before.len() && (#[trigger] before[k]).remote_port == p;
                        assert(done[k] == before[k]);
                    }
                    if p == port {
                        assert(done[done.len() - 1].remote_port == port);
                    }
                    if port_in_use(done, p) && p != port {
                        let k = choose|k: int|
                            0 <= k < done.len() && (#[trigger] done[k]).remote_port == p;
                        assert(before[k] == done[k]);
                    }
                }
            }
            j += 1;
        }
        proof {
            assert(connections@.take(j as int) =~= connections@);
            assert(rows@.take(i + 1).drop_last() =~= rows@.take(i as int));
            assert(rows@.take(i + 1).last() == rows@[i as int]);
        }
        i += 1;
    }
    assert(rows@.take(i as int) =~= rows@);
    let mut best: Option<(u16, u64)> = None;
    for entry in it: sums.iter()
        invariant
            match best {
                Some((top, sum)) => port_in_use(all, top) && sum == port_bytes(all, top)
                    && forall|k: int| 0 <= k < it.index() ==> *(#[trigger] it.seq()[k]).1 <= sum,
                None => it.index() == 0,
            },
            forall|port: u16| #[trigger] sums@.contains_key(port) <==> port_in_use(all, port),
            forall|port: u16| #[trigger]
                sums@.contains_key(port) ==> sums@[port] == port_bytes(all, port),
            forall|k: int|
                0 <= k < it.seq().len() ==> sums@.contains_key(*(#[trigger] it.seq()[k]).0)
                    && sums@[*it.seq()[k].0] == *it.seq()[k].1,
    {
        let larger = match best {
            Some((_, most)) => *entry.1 > most,
            None => true,
        };
        if larger {
            best = Some((*entry.0, *entry.1));
        }
    }
    proof {
        let walk = vstd::std_specs::btree::spec_btree_map_iter(&sums);
        let seen = vstd::std_specs::iter::IteratorSpec::remaining(&walk);
        assert forall|p: u16| #[trigger] port_in_use(all, p) implies best is Some && port_bytes(
            all,
            p,
        ) <= (best->0).1 by {
            assert(sums@.contains_key(p));
            assert(seen.contains((&p, &sums@[p])));
            let k = choose|k: int| 0 <= k < seen.len() && seen[k] == (&p, &sums@[p]);
            assert(*seen[k].1 == port_bytes(all, p));
        }
    }
    match best {
        Some((top, sum)) => {
            proof {
                assert forall|other: u16| #[trigger] port_bytes(all, other) <= sum by {
                    if !port_in_use(all, other) {
                        unused_ports_have_no_bytes(all, other);
                        port_bytes_grows(all, all.len() as int, top);
                        assert(all.take(all.len() as int) =~= all);
                    }
                }
            }
            Some((top, service_name(top).to_owned()))
        },
        None => {
            proof {
                if all.len() > 0 {
                    assert(all[0].remote_port == all[0].remote_port);
                    assert(port_in_use(all, all[0].remote_port));
                }
            }
            None
        },
    }
}

proof fn unused_ports_have_no_bytes(connections: Seq<ConnectionEntry>, port: u16)
    requires
        !port_in_use(connections, port),
    ensures
        port_bytes(connections, port) == 0,
    decreases connections.len(),
{
    if connections.len() > 0 {
        assert(connections[connections.len() - 1].remote_port != port);
        assert(!port_in_use(connections.drop_last(), port)) by {
            if port_in_use(connections.drop_last(), port) {
                let k = choose|k: int|
                    0 <= k < connections.drop_last().len()
                        && (#[trigger] connections.drop_last()[k]).remote_port == port;
                assert(connections[k].remote_port == port);
            }
        }
        unused_ports_have_no_bytes(connections.drop_last(), port);
    }
}

proof fn counts_add_up(a: Seq<ConnectionEntry>, b: Seq<ConnectionEntry>, kind: ProtocolKind)
    ensures
        count_of(a + b, kind) == count_of(a, kind) + count_of(b, kind),
    decreases b.len(),
{
    if b.len() == 0 {
        assert(a + b =~= a);
    } else {
        counts_add_up(a, b.drop_last(), kind);
        assert((a + b).drop_last() =~= a + b.drop_last());
    }
}

/// Every connection is of one of the three kinds.
pub proof fn kinds_make_up_the_whole(connections: Seq<ConnectionEntry>)
    ensures
        count_of(connections, ProtocolKind::Tcp) + count_of(connections, ProtocolKind::Udp)
            + count_of(connections, ProtocolKind::Other) == connections.len(),
    decreases connections.len(),
{
    if connections.len() > 0 {
        kinds_make_up_the_whole(connections.drop_last());
    }
}

fn count_kinds(connections: &Vec<ConnectionEntry>) -> (counts: (usize, usize, usize))
    ensures
        counts.0 == count_of(connections@, ProtocolKind::Tcp),
        counts.1 == count_of(connections@, ProtocolKind::Udp),
        counts.2 == count_of(connections@, ProtocolKind::Other),
{
    let mut tcp: usize = 0;
    let mut udp: usize = 0;
    let mut other: usize = 0;
    let size: usize = connections.len();
    let mut i: usize = 0;
    assert(connections@.take(0) =~= Seq::empty());
    while i < size
        invariant
            i <= size,
            size == connections@.len(),
            tcp + udp + other == i,
            tcp == count_of(connections@.take(i as int), ProtocolKind::Tcp),
            udp == count_of(connections@.take(i as int), ProtocolKind::Udp),
            other == count_of(connections@.take(i as int), ProtocolKind::Other),
        decreases size - i,
    {
        proof {
            assert(connections@.take(i + 1).drop_last() =~= connections@.take(i as int));
            assert(connections@.take(i + 1).last() == connections@[i as int]);
        }
        match connections[i].protocol {
            Protocol::Tcp => {
                tcp += 1;
            },
            Protocol::Udp => {
                udp += 1;
            },
            Protocol::Other(_) => {
                other += 1;
            },
        }
        i += 1;
    }
    assert(connections@.take(i as int) =~= connections@);
    (tcp, udp, other)
}

/// How many connections there are of each kind: TCP, UDP and others.
pub fn count_protocols(rows: &Vec<ProcessRow>) -> (counts: (usize, usize, usize))
    requires
        all_connections(rows@).len() <= usize::MAX,
    ensures
        counts.0 == count_of(all_connections(rows@), ProtocolKind::Tcp),
        counts.1 == count_of(all_connections(rows@), ProtocolKind::Udp),
        counts.2 == count_of(all_connections(rows@), ProtocolKind::Other),
{
    let mut tcp: usize = 0;
    let mut udp: usize = 0;
    let mut other: usize = 0;
    let mut i: usize = 0;
    assert(rows@.take(0) =~= Seq::empty());
    while i < rows.len()
        invariant
            i <= rows@.len(),
            all_connections(rows@).len() <= usize::MAX,
            tcp == count_of(all_connections(rows@.take(i as int)), ProtocolKind::Tcp),
            udp == count_of(all_connections(rows@.take(i as int)), ProtocolKind::Udp),
            other == count_of(all_connections(rows@.take(i as int)), ProtocolKind::Other),
        decreases rows@.len() - i,
    {
        let (more_tcp, more_udp, more_other) = count_kinds(&rows[i].connections);
        proof {
            let before = all_connections(rows@.take(i as int));
            let own = rows@[i as int].connections@;
            assert(rows@.take(i + 1).drop_last() =~= rows@.take(i as int));
            assert(rows@.take(i + 1).last() == rows@[i as int]);
            counts_add_up(before, own, ProtocolKind::Tcp);
            counts_add_up(before, own, ProtocolKind::Udp);
            counts_add_up(before, own, ProtocolKind::Other);
            kinds_make_up_the_whole(before + own);
            connections_so_far(rows@, i as int, own.len() as int);
            assert(own.take(own.len() as int) =~= own);
        }
        tcp = tcp + more_tcp;
        udp = udp + more_udp;
        other = other + more_other;
        i += 1;
    }
    assert(rows@.take(i as int) =~= rows@);
    (tcp, udp, other)
}

/// How many connections there are in all rows.
pub fn count_connections(rows: &Vec<ProcessRow>) -> (count: usize)
    requires
        all_connections(rows@).len() <= usize::MAX,
    ensures
        count == all_connections(rows@).len(),
{
    let mut count: usize = 0;
    let mut i: usize = 0;
    assert(rows@.take(0) =~= Seq::empty());
    while i < rows.len()
        invariant
            i <= rows@.len(),
            all_connections(rows@).len() <= usize::MAX,
            count == all_connections(rows@.take(i as int)).len(),
        decreases rows@.len() - i,
    {
        proof {
            let own = rows@[i as int].connections@;
            assert(rows@.take(i + 1).drop_last() =~= rows@.take(i as int));
            assert(rows@.take(i + 1).last() == rows@[i as int]);
            connections_so_far(rows@, i as int, own.len() as int);
            assert(own.take(own.len() as int) =~= own);
        }
        count = count + rows[i].connections.len();
        i += 1;
    }
    assert(rows@.take(i as int) =~= rows@);
    count
}

/// The counts of the three kinds in one line.
pub fn mix_line(tcp: u64, udp: u64, other: u64) -> (line: String)
    ensures
        line@ == mix_text(tcp as nat, udp as nat, other as nat),
{
    let mut line = String::new();
    line.append("T:");
    append_decimal(&mut line, tcp);
    line.append(" U:");
    append_decimal(&mut line, udp);
    line.append(" O:");
    append_decimal(&mut line, other);
    assert(line@ =~= mix_text(tcp as nat, udp as nat, other as nat));
    line
}

/// The counts of the connections of the row can be held.
pub open spec fn mix_fits(row: ProcessRow) -> bool {
    &&& count_of(row.connections@, ProtocolKind::Tcp) <= u32::MAX
    &&& count_of(row.connections@, ProtocolKind::Udp) <= u32::MAX
    &&& count_of(row.connections@, ProtocolKind::Other) <= u32::MAX
}

/// The composition of the connections of one row.
pub fn protocol_mix_summary(row: &ProcessRow) -> (line: String)
    requires
        mix_fits(*row),
    ensures
        line@ == row_mix(*row),
{
    let (tcp, udp, other) = count_kinds(&row.connections);
    mix_line(tcp as u64, udp as u64, other as u64)
}

/// A protocol in the tables.
pub fn format_protocol(proto: Protocol) -> (label: &'static str)
    ensures
        label@ == (match proto {
            Protocol::Tcp => "TCP"@,
            Protocol::Udp => "UDP"@,
            Protocol::Other(_) => "OTHER"@,
        }),
{
    match proto {
        Protocol::Tcp => "TCP",
        Protocol::Udp => "UDP",
        Protocol::Other(_) => "OTHER",
    }
}

/// A protocol in a snapshot.
pub open spec fn protocol_text(protocol: Protocol) -> Seq<char> {
    match protocol {
        Protocol::Tcp => "TCP"@,
        Protocol::Udp => "UDP"@,
        Protocol::Other(value) => "Other("@ + decimal::decimal(value as nat) + ")"@,
    }
}

/// A protocol in a snapshot.
pub fn protocol_label(protocol: Protocol) -> (label: String)
    ensures
        label@ == protocol_text(protocol),
{
    match protocol {
        Protocol::Tcp => "TCP".to_owned(),
        Protocol::Udp => "UDP".to_owned(),
        Protocol::Other(value) => {
            let mut label = "Other(".to_owned();
            append_decimal(&mut label, value as u64);
            label.append(")");
            label
        },
    }
}

/// One of the two histories of a row.
pub open spec fn history_of(row: ProcessRow, received: bool) -> Seq<u64> {
    if received {
        row.rx_history@
    } else {
        row.tx_history@
    }
}

/// What all rows together have at one place of their history.
pub open spec fn history_sum(rows: Seq<ProcessRow>, received: bool, i: int) -> int
    decreases rows.len(),
{
    if rows.len() == 0 {
        0
    } else {
        history_sum(rows.drop_last(), received, i) + history_of(rows.last(), received)[i]
    }
}

/// What the chart shows at one second of the past: the history of the selected
/// thread, nothing where it has no row, and the sum over all rows, as far as it
/// can be held, where none is selected.
pub open spec fn chart_value(
    rows: Seq<ProcessRow>,
    selected: Option<ThreadKey>,
    received: bool,
    i: int,
) -> u64 {
    match selected {
        Some(thread) => if model::row_place(rows, thread) < rows.len() {
            history_of(rows[model::row_place(rows, thread)], received)[i]
        } else {
            0
        },
        None => if history_sum(rows, received, i) > u64::MAX {
            u64::MAX
        } else {
            history_sum(rows, received, i) as u64
        },
    }
}

/// How many seconds the chart shows: what is asked for, but at least one and no
/// more than there are.
pub open spec fn chart_seconds(window_seconds: int) -> int {
    if window_seconds < 1 {
        1
    } else if window_seconds > CHART_HISTORY_SECONDS {
        CHART_HISTORY_SECONDS as int
    } else {
        window_seconds
    }
}

/// How many seconds the chart shows.
pub fn chart_window(window_seconds: usize) -> (window: usize)
    ensures
        window == chart_seconds(window_seconds as int),
{
    if window_seconds < 1 {
        1
    } else if window_seconds > CHART_HISTORY_SECONDS {
        CHART_HISTORY_SECONDS
    } else {
        window_seconds
    }
}

fn sample(row: &ProcessRow, received: bool, i: usize) -> (value: u64)
    requires
        i < 300,
    ensures
        value == history_of(*row, received)[i as int],
{
    if received {
        row.rx_history[i]
    } else {
        row.tx_history[i]
    }
}

fn sum_at(rows: &Vec<ProcessRow>, received: bool, i: usize) -> (sum: u64)
    requires
        i < 300,
    ensures
        sum == chart_value(rows@, None, received, i as int),
{
    let mut sum: u64 = 0;
    let mut k: usize = 0;
    assert(rows@.take(0) =~= Seq::empty());
    while k < rows.len()
        invariant
            k <= rows@.len(),
            i < 300,
            0 <= history_sum(rows@.take(k as int), received, i as int),
            sum == chart_value(rows@.take(k as int), None, received, i as int),
        decreases rows@.len() - k,
    {
        proof {
            assert(rows@.take(k + 1).drop_last() =~= rows@.take(k as int));
            assert(rows@.take(k + 1).last() == rows@[k as int]);
        }
        sum = sum.saturating_add(sample(&rows[k], received, i));
        k += 1;
    }
    assert(rows@.take(k as int) =~= rows@);
    sum
}

/// What the chart shows of what was sent, or of what was received: one value
/// for each second of the window, the newest first.
pub fn chart_series(
    rows: &Vec<ProcessRow>,
    selected: Option<ThreadKey>,
    received: bool,
    window_seconds: usize,
) -> (series: Vec<u64>)
    ensures
        series@.len() == chart_seconds(window_seconds as int),
        forall|i: int|
            0 <= i < series@.len() ==> #[trigger] series@[i] == chart_value(
                rows@,
                selected,
                received,
                i,
            ),
{
    let window: usize = chart_window(window_seconds);
    let place = match selected {
        Some(thread) => find_row(rows, thread),
        None => None,
    };
    let mut series: Vec<u64> = Vec::new();
    let mut i: usize = 0;
    while i < window
        invariant
            i <= window <= 300,
            series@.len() == i,
            match selected {
                Some(thread) => match place {
                    Some(at) => at < rows@.len() && at == model::row_place(rows@, thread),
                    None => model::row_place(rows@, thread) == rows@.len(),
                },
                None => true,
            },
            forall|k: int|
                0 <= k < i ==> #[trigger] series@[k] == chart_value(rows@, selected, received, k),
        decreases window - i,
    {
        let value: u64 = if selected.is_some() {
            match place {
                Some(at) => sample(&rows[at], received, i),
                None => 0,
            }
        } else {
            sum_at(rows, received, i)
        };
        series.push(value);
        i += 1;
    }
    series
}

/// A rate is the mean of the two newest samples, rounded down, and older ones
/// do not count.
pub proof fn rates_are_means(history: Seq<u64>, other: Seq<u64>)
    requires
        history.len() >= 2,
        other.len() >= 2,
    ensures
        2 * short_rate(history) <= history[0] + history[1] <= 2 * short_rate(history) + 1,
        history[0] == other[0] && history[1] == other[1] ==> short_rate(history) == short_rate(
            other,
        ),
{
}

/// What is sent and what is received count alike: the rate of a thread is that
/// of the one direction and that of the other.
pub proof fn rates_count_both_directions(row: ProcessRow, mirrored: ProcessRow)
    ensures
        row_rate(row) == (row.tx_history@[0] + row.tx_history@[1]) / 2 + (row.rx_history@[0]
            + row.rx_history@[1]) / 2,
        row.tx_history@ == mirrored.rx_history@ && row.rx_history@ == mirrored.tx_history@
            ==> row_rate(row) == row_rate(mirrored),
{
}

/// Every row counts in the sum of the rates: that of two groups of rows is what
/// the one has and what the other has, and one row has its own rate.
pub proof fn rates_add_up(a: Seq<ProcessRow>, b: Seq<ProcessRow>, row: ProcessRow)
    ensures
        sum_of_rates(a + b) == sum_of_rates(a) + sum_of_rates(b),
        sum_of_rates(seq![row]) == (row.tx_history@[0] + row.tx_history@[1]) / 2 + (
        row.rx_history@[0] + row.rx_history@[1]) / 2,
    decreases b.len(),
{
    let one = seq![row];
    assert(one.drop_last() =~= Seq::empty());
    assert(sum_of_rates(one.drop_last()) == 0);
    assert(one.last() == row);
    if b.len() == 0 {
        assert(a + b =~= a);
    } else {
        rates_add_up(a, b.drop_last(), row);
        assert((a + b).drop_last() =~= a + b.drop_last());
    }
}

/// Every row brings its connections: those of two groups of rows are those of
/// the one and then those of the other, and one row has its own.
pub proof fn connections_add_up(a: Seq<ProcessRow>, b: Seq<ProcessRow>, row: ProcessRow)
    ensures
        all_connections(a + b) == all_connections(a) + all_connections(b),
        all_connections(seq![row]) == row.connections@,
    decreases b.len(),
{
    let one = seq![row];
    assert(one.drop_last() =~= Seq::empty());
    assert(all_connections(one.drop_last()) =~= Seq::empty());
    assert(one.last() == row);
    assert(all_connections(one) =~= row.connections@);
    if b.len() == 0 {
        assert(a + b =~= a);
        assert(all_connections(a) + all_connections(b) =~= all_connections(a));
    } else {
        connections_add_up(a, b.drop_last(), row);
        assert((a + b).drop_last() =~= a + b.drop_last());
        assert(all_connections(a + b) =~= all_connections(a) + all_connections(b));
    }
}

/// The bytes of a port count every connection to it, in both directions: those
/// of two groups of connections are those of the one and those of the other,
/// and one connection has what was sent and what was received over it, for its
/// own port, and nothing for any other.
pub proof fn port_bytes_add_up(
    a: Seq<ConnectionEntry>,
    b: Seq<ConnectionEntry>,
    entry: ConnectionEntry,
    port: u16,
)
    ensures
        port_bytes(a + b, port) == port_bytes(a, port) + port_bytes(b, port),
        port_bytes(seq![entry], port) == (if entry.remote_port == port {
            entry.tx_bytes + entry.rx_bytes
        } else {
            0
        }),
    decreases b.len(),
{
    let one = seq![entry];
    assert(one.drop_last() =~= Seq::empty());
    assert(port_bytes(one.drop_last(), port) == 0);
    assert(one.last() == entry);
    if b.len() == 0 {
        assert(a + b =~= a);
    } else {
        port_bytes_add_up(a, b.drop_last(), entry, port);
        assert((a + b).drop_last() =~= a + b.drop_last());
    }
}

/// No connection alone has carried more, in both directions together, than all
/// connections to the port with the most bytes; so of two connections to
/// different ports the one that has carried more names that port.
pub proof fn top_ports_have_carried_most(
    connections: Seq<ConnectionEntry>,
    top: u16,
    i: int,
)
    requires
        port_in_use(connections, top),
        forall|other: u16| #[trigger]
            port_bytes(connections, other) <= port_bytes(connections, top),
        0 <= i < connections.len(),
    ensures
        connections[i].tx_bytes + connections[i].rx_bytes <= port_bytes(connections, top),
        connections.len() == 2 && connections[0].remote_port != connections[1].remote_port
            && connections[i].tx_bytes + connections[i].rx_bytes > connections[1 - i].tx_bytes
            + connections[1 - i].rx_bytes ==> top == connections[i].remote_port,
{
    let port = connections[i].remote_port;
    let front = connections.take(i);
    let back = connections.skip(i + 1);
    let one = seq![connections[i]];
    assert(connections =~= front + one + back);
    port_bytes_add_up(front + one, back, connections[i], port);
    port_bytes_add_up(front, one, connections[i], port);
    port_bytes_grows(front, front.len() as int, port);
    port_bytes_grows(back, back.len() as int, port);
    assert(port_bytes(connections, port) <= port_bytes(connections, top));
    if connections.len() == 2 && connections[0].remote_port != connections[1].remote_port {
        let k = choose|k: int|
            0 <= k < connections.len() && (#[trigger] connections[k]).remote_port == top;
        let first = seq![connections[0]];
        let second = seq![connections[1]];
        assert(connections =~= first + second);
        port_bytes_add_up(first, second, connections[0], top);
        port_bytes_add_up(first, second, connections[1], top);
        assert(port_bytes(connections, port) <= port_bytes(connections, top));
    }
}

/// Every connection counts in the kind of its own protocol and in no other:
/// the counts of two groups of connections are those of the one and those of
/// the other.
pub proof fn connections_count_in_their_kind(
    a: Seq<ConnectionEntry>,
    b: Seq<ConnectionEntry>,
    entry: ConnectionEntry,
    kind: ProtocolKind,
)
    ensures
        count_of(a + b, kind) == count_of(a, kind) + count_of(b, kind),
        count_of(seq![entry], ProtocolKind::Tcp) == (if entry.protocol is Tcp {
            1nat
        } else {
            0nat
        }),
        count_of(seq![entry], ProtocolKind::Udp) == (if entry.protocol is Udp {
            1nat
        } else {
            0nat
        }),
        count_of(seq![entry], ProtocolKind::Other) == (if entry.protocol is Other {
            1nat
        } else {
            0nat
        }),
{
    counts_add_up(a, b, kind);
    let one = seq![entry];
    assert(one.drop_last() =~= Seq::empty());
    assert(one.last() == entry);
    assert(count_of(one.drop_last(), ProtocolKind::Tcp) == 0);
    assert(count_of(one.drop_last(), ProtocolKind::Udp) == 0);
    assert(count_of(one.drop_last(), ProtocolKind::Other) == 0);
}

/// The line of the three counts reads back: its words are the counts, each
/// behind the letter of its kind.
pub proof fn mixes_read_back(tcp: nat, udp: nat, other: nat)
    ensures
        scan::words(mix_text(tcp, udp, other)) == seq![
            "T:"@ + decimal::decimal(tcp),
            "U:"@ + decimal::decimal(udp),
            "O:"@ + decimal::decimal(other),
        ],
{
    reveal_strlit("T:");
    reveal_strlit("U:");
    reveal_strlit("O:");
    reveal_strlit(" U:");
    reveal_strlit(" O:");
    let first = "T:"@ + decimal::decimal(tcp);
    let second = "U:"@ + decimal::decimal(udp);
    let third = "O:"@ + decimal::decimal(other);
    decimal::decimal_is_digits(tcp);
    decimal::decimal_is_digits(udp);
    decimal::decimal_is_digits(other);
    labelled_number_is_word("T:"@, tcp);
    labelled_number_is_word("U:"@, udp);
    labelled_number_is_word("O:"@, other);
    let rest = second + seq![' '] + third;
    assert(mix_text(tcp, udp, other) =~= first + seq![' '] + rest);
    scan::space_sets_words_apart(first, ' ', rest);
    scan::space_sets_words_apart(second, ' ', third);
    assert(scan::words(mix_text(tcp, udp, other)) =~= seq![first, second, third]);
}

proof fn labelled_number_is_word(label: Seq<char>, n: nat)
    requires
        forall|i: int| 0 <= i < label.len() ==> !scan::is_space(#[trigger] label[i]),
    ensures
        scan::words(label + decimal::decimal(n)) == seq![label + decimal::decimal(n)],
{
    let word = label + decimal::decimal(n);
    decimal::decimal_is_digits(n);
    assert forall|i: int| 0 <= i < word.len() implies !scan::is_space(#[trigger] word[i]) by {
        if i < label.len() {
            assert(word[i] == label[i]);
        } else {
            assert(word[i] == decimal::decimal(n)[i - label.len()]);
        }
    }
    scan::one_word(word);
}

/// The `n` rows that are ranked first are those with the highest rates, in both
/// directions together, the highest first.
pub proof fn ranked_rows_have_the_highest_rates(rows: Seq<ProcessRow>, n: int)
    requires
        rows_fit(rows),
        0 <= n <= rows.len(),
    ensures
        ordering::is_top_by(
            ranked(rows).take(n),
            rows,
            |row: ProcessRow|
                (row.tx_history@[0] + row.tx_history@[1]) / 2 + (row.rx_history@[0]
                    + row.rx_history@[1]) / 2,
            ordering::sorted_order(rate_keys(rows), true).take(n),
        ),
        ranked(rows).len() == rows.len(),
{
    let measure = |row: ProcessRow|
        (row.tx_history@[0] + row.tx_history@[1]) / 2 + (row.rx_history@[0] + row.rx_history@[1])
            / 2;
    let keys = rate_keys(rows);
    assert forall|i: int| 0 <= i < rows.len() implies 0 <= measure(#[trigger] rows[i])
        <= u64::MAX && keys[i] == ordering::number_key(measure(rows[i]) as u64) by {
        assert(row_fits(rows[i]));
    }
    ordering::fronts_are_the_best(rows, keys, measure, n);
    ordering::sorting_loses_nothing(rows, keys, true);
}

/// Protocols that differ have different names in a snapshot.
pub proof fn labels_tell_protocols_apart(a: Protocol, b: Protocol)
    requires
        protocol_text(a) == protocol_text(b),
    ensures
        a == b,
{
    reveal_strlit("TCP");
    reveal_strlit("UDP");
    reveal_strlit("Other(");
    reveal_strlit(")");
    assert(a is Other ==> protocol_text(a)[0] == "Other("@[0]);
    assert(b is Other ==> protocol_text(b)[0] == "Other("@[0]);
    assert(a is Tcp ==> protocol_text(a)[0] == "TCP"@[0]);
    assert(b is Tcp ==> protocol_text(b)[0] == "TCP"@[0]);
    assert(a is Udp ==> protocol_text(a)[0] == "UDP"@[0]);
    assert(b is Udp ==> protocol_text(b)[0] == "UDP"@[0]);
    if let (Protocol::Other(m), Protocol::Other(n)) = (a, b) {
        let x = decimal::decimal(m as nat);
        let y = decimal::decimal(n as nat);
        let whole = protocol_text(a);
        assert(whole.len() == 6 + x.len() + 1);
        assert(whole.len() == 6 + y.len() + 1);
        assert(x =~= whole.subrange(6, 6 + x.len() as int));
        assert(y =~= whole.subrange(6, 6 + y.len() as int));
        decimal::decimal_tells_apart(m as nat, n as nat);
    }
}

proof fn history_sums_add_up(a: Seq<ProcessRow>, b: Seq<ProcessRow>, received: bool, i: int)
    requires
        0 <= i < 300,
    ensures
        history_sum(a + b, received, i) == history_sum(a, received, i) + history_sum(
            b,
            received,
            i,
        ),
        0 <= history_sum(b, received, i),
    decreases b.len(),
{
    if b.len() == 0 {
        assert(a + b =~= a);
    } else {
        history_sums_add_up(a, b.drop_last(), received, i);
        assert((a + b).drop_last() =~= a + b.drop_last());
    }
}

/// Without a selection the chart shows all rows together: two groups of rows
/// have what the one has and what the other has, as far as it can be held, and
/// one row has its own history, of what was received or of what was sent.
pub proof fn charts_add_up(
    a: Seq<ProcessRow>,
    b: Seq<ProcessRow>,
    row: ProcessRow,
    received: bool,
    i: int,
)
    requires
        0 <= i < 300,
    ensures
        ({
            let sum = chart_value(a, None, received, i) + chart_value(b, None, received, i);
            chart_value(a + b, None, received, i) == if sum > u64::MAX {
                u64::MAX as int
            } else {
                sum
            }
        }),
        chart_value(seq![row], None, true, i) == row.rx_history@[i],
        chart_value(seq![row], None, false, i) == row.tx_history@[i],
{
    history_sums_add_up(a, b, received, i);
    history_sums_add_up(Seq::empty(), a, received, i);
    let one = seq![row];
    assert(one.drop_last() =~= Seq::empty());
    assert(one.last() == row);
    assert(history_sum(one.drop_last(), true, i) == 0);
    assert(history_sum(one.drop_last(), false, i) == 0);
}

/// With a selection the chart shows the history of that thread alone, of the
/// first row that has both its numbers, and nothing where there is none.
pub proof fn charts_show_the_selected_thread(
    rows: Seq<ProcessRow>,
    thread: ThreadKey,
    place: int,
    received: bool,
    i: int,
)
    requires
        0 <= i < 300,
        0 <= place <= rows.len(),
        forall|k: int|
            0 <= k < place ==> (#[trigger] rows[k]).info.pid != thread.pid || rows[k].info.tid
                != thread.tid,
        place < rows.len() ==> rows[place].info.pid == thread.pid && rows[place].info.tid
            == thread.tid,
    ensures
        chart_value(rows, Some(thread), received, i) == (if place == rows.len() {
            0
        } else if received {
            rows[place].rx_history@[i]
        } else {
            rows[place].tx_history@[i]
        }),
{
    model::row_place_is_here(rows, thread, place);
}

/// The chart shows as many seconds as are asked for, where there are so many
/// and it is any.
pub proof fn windows_are_as_asked(window_seconds: int)
    ensures
        1 <= chart_seconds(window_seconds) <= 300,
        1 <= window_seconds <= 300 ==> chart_seconds(window_seconds) == window_seconds,
        window_seconds < 1 ==> chart_seconds(window_seconds) == 1,
        window_seconds > 300 ==> chart_seconds(window_seconds) == 300,
{
}

} // verus!
