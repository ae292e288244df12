//! The tables of processes and connections: how rows are sorted, which
//! connections are shown, and what stands in each cell.

use vstd::prelude::*;

use crate::decimal;
use crate::decimal::decimal_text;
use crate::monitor::model;
use crate::monitor::model::{find_row, ConnectionEntry, ProcessRow, ThreadKey};
use crate::monitor::ordering;
use crate::monitor::ordering::stable_sort;
use crate::monitor::stats;
use crate::monitor::stats::{format_protocol, protocol_mix_summary, total_rate, two_second_avg};
use crate::monitor::units;
use crate::monitor::units::{format_bandwidth, format_bytes, format_bytes_or_bits};
use crate::text;
use crate::text::chars_of;

verus! {

/// The rate, in bytes per second, above which traffic is high.
pub const HIGH_TRAFFIC_THRESHOLD_BYTES_PER_SEC: u64 = 1_048_576;

/// The rate, in bytes per second, above which traffic is very high.
pub const VERY_HIGH_TRAFFIC_THRESHOLD_BYTES_PER_SEC: u64 = 10_485_760;

/// What the process table can be sorted by.
#[derive(Clone, Copy, Debug, PartialEq, Eq, Structural)]
pub enum SortColumn {
    Pid,
    Tid,
    Process,
    Thread,
    User,
    ProtocolMix,
    TxRate,
    RxRate,
    TxTotal,
    RxTotal,
}

/// How much traffic there is.
#[derive(Clone, Copy, Debug, PartialEq, Eq, Structural)]
pub enum Severity {
    Normal,
    High,
    VeryHigh,
}

/// What a row is sorted by.
pub open spec fn row_key(row: ProcessRow, column: SortColumn) -> Seq<u64> {
    match column {
        SortColumn::Pid => ordering::number_key(row.info.pid as u64),
        SortColumn::Tid => ordering::number_key(row.info.tid as u64),
        SortColumn::Process => ordering::text_key(row.info.name@),
        SortColumn::Thread => ordering::text_key(row.info.thread_name@),
        SortColumn::User => ordering::text_key(row.info.username@),
        SortColumn::ProtocolMix => ordering::text_key(stats::row_mix(row)),
        SortColumn::TxRate => ordering::number_key(stats::short_rate(row.tx_history@) as u64),
        SortColumn::RxRate => ordering::number_key(stats::short_rate(row.rx_history@) as u64),
        SortColumn::TxTotal => ordering::number_key(row.tx_bytes),
        SortColumn::RxTotal => ordering::number_key(row.rx_bytes),
    }
}

/// What the rows are sorted by.
pub open spec fn row_keys(rows: Seq<ProcessRow>, column: SortColumn) -> Seq<Seq<u64>> {
    rows.map_values(|row: ProcessRow| row_key(row, column))
}

/// What the row is sorted by can be computed.
pub open spec fn key_fits(row: ProcessRow, column: SortColumn) -> bool {
    match column {
        SortColumn::ProtocolMix => stats::mix_fits(row),
        SortColumn::TxRate => stats::rate_fits(row.tx_history@),
        SortColumn::RxRate => stats::rate_fits(row.rx_history@),
        _ => true,
    }
}

/// The rows of the process table, in order.
pub open spec fn table_order(
    rows: Seq<ProcessRow>,
    column: SortColumn,
    ascending: bool,
) -> Seq<ProcessRow> {
    ordering::sorted_by(rows, row_keys(rows, column), !ascending)
}

fn number_key(n: u64) -> (key: Vec<u64>)
    ensures
        key@ == ordering::number_key(n),
{
    let mut key: Vec<u64> = Vec::new();
    key.push(n);
    assert(key@ =~= ordering::number_key(n));
    key
}

fn text_key(content: &str) -> (key: Vec<u64>)
    ensures
        key@ == ordering::text_key(content@),
{
    let chars = chars_of(content);
    let mut key: Vec<u64> = Vec::new();
    let mut i: usize = 0;
    while i < chars.len()
        invariant
            i <= chars@.len(),
            chars@ == content@,
            key@ == ordering::text_key(content@).take(i as int),
        decreases chars@.len() - i,
    {
        key.push(chars[i] as u64);
        assert(key@ =~= ordering::text_key(content@).take(i + 1));
        i += 1;
    }
    assert(key@ =~= ordering::text_key(content@));
    key
}

fn key_of_row(row: &ProcessRow, column: SortColumn) -> (key: Vec<u64>)
    requires
        key_fits(*row, column),
    ensures
        key@ == row_key(*row, column),
{
    match column {
        SortColumn::Pid => number_key(row.info.pid as u64),
        SortColumn::Tid => number_key(row.info.tid as u64),
        SortColumn::Process => text_key(row.info.name.as_str()),
        SortColumn::Thread => text_key(row.info.thread_name.as_str()),
        SortColumn::User => text_key(row.info.username.as_str()),
        SortColumn::ProtocolMix => text_key(protocol_mix_summary(row).as_str()),
        SortColumn::TxRate => number_key(two_second_avg(&row.tx_history)),
        SortColumn::RxRate => number_key(two_second_avg(&row.rx_history)),
        SortColumn::TxTotal => number_key(row.tx_bytes),
        SortColumn::RxTotal => number_key(row.rx_bytes),
    }
}

/// The rows of the process table, in order.
pub fn sorted_rows(rows: Vec<ProcessRow>, column: SortColumn, ascending: bool) -> (sorted: Vec<
    ProcessRow,
>)
    requires
        rows@.len() > 1 ==> forall|i: int|
            0 <= i < rows@.len() ==> key_fits(#[trigger] rows@[i], column),
    ensures
        sorted@ == table_order(rows@, column, ascending),
        sorted@.len() == rows@.len(),
{
    if rows.len() <= 1 {
        proof {
            let keys = row_keys(rows@, column);
            let order = Seq::new(rows@.len(), |i: int| i);
            assert(ordering::is_order(keys, !ascending, order)) by {
                if rows@.len() == 1 {
                    assert(order[0] == 0);
                }
            }
            ordering::order_is_unique(keys, !ascending, order);
            assert(table_order(rows@, column, ascending) =~= rows@);
        }
        return rows;
    }
    let mut keys: Vec<Vec<u64>> = Vec::new();
    let mut i: usize = 0;
    while i < rows.len()
        invariant
            i <= rows@.len(),
            keys@.len() == i,
            forall|k: int| 0 <= k < rows@.len() ==> key_fits(#[trigger] rows@[k], column),
            forall|k: int| 0 <= k < i ==> (#[trigger] keys@[k])@ == row_keys(rows@, column)[k],
        decreases rows@.len() - i,
    {
        keys.push(key_of_row(&rows[i], column));
        i += 1;
    }
    assert(ordering::key_rows(keys@) =~= row_keys(rows@, column));
    stable_sort(rows, &keys, !ascending)
}

/// A connection in the table, and whether its row is blocked.
pub struct VisibleConnection<'a> {
    pub is_blocked: bool,
    pub entry: &'a ConnectionEntry,
}

/// The connections that one row puts into the table.
pub open spec fn row_connections(row: ProcessRow, selected: Option<ThreadKey>) -> Seq<
    (bool, ConnectionEntry),
> {
    if selected is None || model::is_row_of(row, selected->0) {
        row.connections@.map_values(|entry: ConnectionEntry| (row.is_blocked, entry))
    } else {
        Seq::empty()
    }
}

/// The connections in the table: those of the selected thread, or all.
pub open spec fn visible_connections(rows: Seq<ProcessRow>, selected: Option<ThreadKey>) -> Seq<
    (bool, ConnectionEntry),
>
    decreases rows.len(),
{
    if rows.len() == 0 {
        Seq::empty()
    } else {
        visible_connections(rows.drop_last(), selected) + row_connections(rows.last(), selected)
    }
}

/// The model of connections in the table.
pub open spec fn connection_list(list: Seq<VisibleConnection>) -> Seq<(bool, ConnectionEntry)> {
    list.map_values(|shown: VisibleConnection| (shown.is_blocked, *shown.entry))
}

/// The connections in the table: those of the selected thread, or all.
pub fn collect_visible_connections<'a>(
    sorted_rows: &'a Vec<ProcessRow>,
    selected_thread: Option<ThreadKey>,
) -> (visible: Vec<VisibleConnection<'a>>)
    ensures
        connection_list(visible@) == visible_connections(sorted_rows@, selected_thread),
{
    let mut visible: Vec<VisibleConnection<'a>> = Vec::new();
    let mut i: usize = 0;
    assert(sorted_rows@.take(0) =~= Seq::empty());
    assert(connection_list(visible@) =~= visible_connections(sorted_rows@.take(0), selected_thread));
    while i < sorted_rows.len()
        invariant
            i <= sorted_rows@.len(),
            connection_list(visible@) == visible_connections(
                sorted_rows@.take(i as int),
                selected_thread,
            ),
        decreases sorted_rows@.len() - i,
    {
        let row = &sorted_rows[i];
        let ghost before = connection_list(visible@);
        let shown = match selected_thread {
            Some(thread) => row.belongs_to(thread),
            None => true,
        };
        if shown {
            let mut j: usize = 0;
            let ghost own = row_connections(*row, selected_thread);
            assert(before + own.take(0) =~= before);
            while j < row.connections.len()
                invariant
                    j <= row.connections@.len(),
                    own == row.connections@.map_values(
                        |entry: ConnectionEntry| (row.is_blocked, entry),
                    ),
                    connection_list(visible@) == before + own.take(j as int),
                decreases row.connections@.len() - j,
            {
                let ghost so_far = connection_list(visible@);
                visible.push(
                    VisibleConnection { is_blocked: row.is_blocked, entry: &row.connections[j] },
                );
                assert(connection_list(visible@) =~= so_far.push(own[j as int]));
                assert(connection_list(visible@) =~= before + own.take(j + 1));
                j += 1;
            }
            assert(own.take(j as int) =~= own);
        } else {
            assert(before + row_connections(*row, selected_thread) =~= before);
        }
        proof {
            assert(sorted_rows@.take(i + 1).drop_last() =~= sorted_rows@.take(i as int));
            assert(sorted_rows@.take(i + 1).last() == sorted_rows@[i as int]);
        }
        i += 1;
    }
    assert(sorted_rows@.take(i as int) =~= sorted_rows@);
    visible
}

/// How much traffic a rate is.
pub open spec fn severity(rate: int) -> Severity {
    if rate > VERY_HIGH_TRAFFIC_THRESHOLD_BYTES_PER_SEC {
        Severity::VeryHigh
    } else if rate > HIGH_TRAFFIC_THRESHOLD_BYTES_PER_SEC {
        Severity::High
    } else {
        Severity::Normal
    }
}

/// The larger of two rates.
pub open spec fn larger(a: int, b: int) -> int {
    if a > b {
        a
    } else {
        b
    }
}

/// How much traffic a rate is.
pub fn severity_of(rate: u64) -> (level: Severity)
    ensures
        level == severity(rate as int),
{
    if rate > VERY_HIGH_TRAFFIC_THRESHOLD_BYTES_PER_SEC {
        Severity::VeryHigh
    } else if rate > HIGH_TRAFFIC_THRESHOLD_BYTES_PER_SEC {
        Severity::High
    } else {
        Severity::Normal
    }
}

/// One row of the full process table.
#[derive(Debug)]
pub struct ProcessCells {
    pub pid: String,
    pub process: String,
    pub user: String,
    pub mix: String,
    pub tx_rate: String,
    pub rx_rate: String,
    pub tx_total: String,
    pub rx_total: String,
    pub tid: String,
    pub thread: String,
    /// How much goes in the direction in which more goes.
    pub severity: Severity,
    pub is_blocked: bool,
    pub is_selected: bool,
}

/// One row of the full process table.
pub fn process_cells(row: &ProcessRow, show_bits: bool, selected: Option<ThreadKey>) -> (cells:
    ProcessCells)
    requires
        stats::row_fits(*row),
        stats::mix_fits(*row),
    ensures
        cells.pid@ == decimal::decimal(row.info.pid as nat),
        cells.process@ == row.info.name@,
        cells.user@ == row.info.username@,
        cells.mix@ == stats::row_mix(*row),
        cells.tx_rate@ == units::bandwidth_text(stats::short_rate(row.tx_history@) as u64),
        cells.rx_rate@ == units::bandwidth_text(stats::short_rate(row.rx_history@) as u64),
        cells.tx_total@ == units::amount_text(row.tx_bytes, show_bits),
        cells.rx_total@ == units::amount_text(row.rx_bytes, show_bits),
        cells.tid@ == decimal::decimal(row.info.tid as nat),
        cells.thread@ == row.info.thread_name@,
        cells.severity == severity(
            larger(stats::short_rate(row.tx_history@), stats::short_rate(row.rx_history@)),
        ),
        cells.is_blocked == row.is_blocked,
        cells.is_selected == (selected is Some && model::is_row_of(*row, selected->0)),
{
    let tx_rate: u64 = two_second_avg(&row.tx_history);
    let rx_rate: u64 = two_second_avg(&row.rx_history);
    let rate: u64 = if tx_rate > rx_rate {
        tx_rate
    } else {
        rx_rate
    };
    ProcessCells {
        pid: decimal_text(row.info.pid as u64),
        process: row.info.name.clone(),
        user: row.info.username.clone(),
        mix: protocol_mix_summary(row),
        tx_rate: format_bandwidth(tx_rate),
        rx_rate: format_bandwidth(rx_rate),
        tx_total: format_bytes_or_bits(row.tx_bytes, show_bits),
        rx_total: format_bytes_or_bits(row.rx_bytes, show_bits),
        tid: decimal_text(row.info.tid as u64),
        thread: row.info.thread_name.clone(),
        severity: severity_of(rate),
        is_blocked: row.is_blocked,
        is_selected: match selected {
            Some(thread) => row.belongs_to(thread),
            None => false,
        },
    }
}

/// One row of the short process table.
#[derive(Debug)]
pub struct ShortProcessCells {
    pub pid: String,
    pub process: String,
    pub user: String,
    pub tx_rate: String,
    pub rx_rate: String,
    pub tx_total: String,
    pub rx_total: String,
    /// How much goes in both directions together.
    pub severity: Severity,
}

/// One row of the short process table.
pub fn short_process_cells(row: &ProcessRow) -> (cells: ShortProcessCells)
    requires
        stats::row_fits(*row),
    ensures
        cells.pid@ == decimal::decimal(row.info.pid as nat),
        cells.process@ == row.info.name@,
        cells.user@ == row.info.username@,
        cells.tx_rate@ == units::bandwidth_text(stats::short_rate(row.tx_history@) as u64),
        cells.rx_rate@ == units::bandwidth_text(stats::short_rate(row.rx_history@) as u64),
        cells.tx_total@ == units::amount_text(row.tx_bytes, false),
        cells.rx_total@ == units::amount_text(row.rx_bytes, false),
        cells.severity == severity(stats::row_rate(*row)),
{
    ShortProcessCells {
        pid: decimal_text(row.info.pid as u64),
        process: row.info.name.clone(),
        user: row.info.username.clone(),
        tx_rate: format_bandwidth(two_second_avg(&row.tx_history)),
        rx_rate: format_bandwidth(two_second_avg(&row.rx_history)),
        tx_total: format_bytes(row.tx_bytes),
        rx_total: format_bytes(row.rx_bytes),
        severity: severity_of(total_rate(row)),
    }
}

/// What stands in the row of a connection, from left to right.
pub open spec fn connection_texts(entry: ConnectionEntry) -> Seq<Seq<char>> {
    seq![
        decimal::decimal(entry.pid as nat),
        decimal::decimal(entry.tid as nat),
        entry.thread_name@,
        entry.process@,
        entry.username@,
        entry.local_addr@,
        entry.remote_addr@,
        match stats::kind_of(entry.protocol) {
            stats::ProtocolKind::Tcp => "TCP"@,
            stats::ProtocolKind::Udp => "UDP"@,
            stats::ProtocolKind::Other => "OTHER"@,
        },
        entry.state@,
        decimal::decimal(entry.tx_bytes as nat),
        decimal::decimal(entry.rx_bytes as nat),
    ]
}

/// What stands in the row of a connection, from left to right.
pub fn connection_cells(entry: &ConnectionEntry) -> (cells: Vec<String>)
    ensures
        text::texts(cells@) == connection_texts(*entry),
{
    let mut cells: Vec<String> = Vec::new();
    cells.push(decimal_text(entry.pid as u64));
    cells.push(decimal_text(entry.tid as u64));
    cells.push(entry.thread_name.clone());
    cells.push(entry.process.clone());
    cells.push(entry.username.clone());
    cells.push(entry.local_addr.clone());
    cells.push(entry.remote_addr.clone());
    cells.push(format_protocol(entry.protocol).to_owned());
    cells.push(entry.state.clone());
    cells.push(decimal_text(entry.tx_bytes));
    cells.push(decimal_text(entry.rx_bytes));
    assert(text::texts(cells@) =~= connection_texts(*entry));
    cells
}

/// A thread that is named in the controls for the selected row.
#[derive(Debug)]
pub struct SelectedRow {
    pub pid: u32,
    pub tid: u32,
    pub uid: u32,
    pub name: String,
    pub thread_name: String,
    pub username: String,
    /// `name (PID pid, TID tid)`
    pub title: String,
    /// `User: username`
    pub user_line: String,
    /// `name (PID pid) • User: username`
    pub connections_title: String,
}

/// The title of the controls for a row.
pub open spec fn controls_title(row: ProcessRow) -> Seq<char> {
    row.info.name@ + " (PID "@ + decimal::decimal(row.info.pid as nat) + ", TID "@
        + decimal::decimal(row.info.tid as nat) + ")"@
}

/// The title of the connections of a row.
pub open spec fn connections_title(row: ProcessRow) -> Seq<char> {
    row.info.name@ + " (PID "@ + decimal::decimal(row.info.pid as nat) + ") • User: "@
        + row.info.username@
}

/// The row of the selected thread, where it has one.
pub fn selected_row(rows: &Vec<ProcessRow>, selected: Option<ThreadKey>) -> (found: Option<
    SelectedRow,
>)
    ensures
        found is Some <==> selected is Some && model::row_place(rows@, selected->0) < rows@.len(),
        found matches Some(shown) ==> {
            let row = rows@[model::row_place(rows@, selected->0)];
            &&& shown.pid == row.info.pid
            &&& shown.tid == row.info.tid
            &&& shown.uid == row.info.uid
            &&& shown.name@ == row.info.name@
            &&& shown.thread_name@ == row.info.thread_name@
            &&& shown.username@ == row.info.username@
            &&& shown.title@ == controls_title(row)
            &&& shown.user_line@ == "User: "@ + row.info.username@
            &&& shown.connections_title@ == connections_title(row)
        },
{
    let place = match selected {
        Some(thread) => find_row(rows, thread),
        None => None,
    };
    match place {
        Some(at) => {
            let row = &rows[at];
            let pid = decimal_text(row.info.pid as u64);
            let tid = decimal_text(row.info.tid as u64);
            let mut title = String::new();
            title.append(row.info.name.as_str());
            title.append(" (PID ");
            title.append(pid.as_str());
            title.append(", TID ");
            title.append(tid.as_str());
            title.append(")");
            assert(title@ =~= controls_title(*row));
            let mut user_line = String::new();
            user_line.append("User: ");
            user_line.append(row.info.username.as_str());
            assert(user_line@ =~= "User: "@ + row.info.username@);
            let mut connections = String::new();
            connections.append(row.info.name.as_str());
            connections.append(" (PID ");
            connections.append(pid.as_str());
            connections.append(") • User: ");
            connections.append(row.info.username.as_str());
            assert(connections@ =~= connections_title(*row));
            Some(
                SelectedRow {
                    pid: row.info.pid,
                    tid: row.info.tid,
                    uid: row.info.uid,
                    name: row.info.name.clone(),
                    thread_name: row.info.thread_name.clone(),
                    username: row.info.username.clone(),
                    title,
                    user_line,
                    connections_title: connections,
                },
            )
        },
        None => None,
    }
}

/// The selection after a click on the thread of a row: it is selected, or no
/// longer selected if it was.
pub open spec fn toggled(row: ProcessRow, selected: Option<ThreadKey>) -> Option<ThreadKey> {
    if selected is Some && model::is_row_of(row, selected->0) {
        None
    } else {
        Some(ThreadKey { pid: row.info.pid, tid: row.info.tid })
    }
}

/// The selection after a click on the thread of a row.
pub fn toggled_selection(row: &ProcessRow, selected: Option<ThreadKey>) -> (next: Option<ThreadKey>)
    ensures
        next == toggled(*row, selected),
{
    match selected {
        Some(thread) => {
            if row.belongs_to(thread) {
                None
            } else {
                Some(row.thread())
            }
        },
        None => Some(row.thread()),
    }
}

/// Two clicks on a thread leave it selected exactly if it was selected before.
pub proof fn second_click_takes_back_the_first(row: ProcessRow, selected: Option<ThreadKey>)
    ensures
        ({
            let own = ThreadKey { pid: row.info.pid, tid: row.info.tid };
            toggled(row, toggled(row, selected)) == if selected == Some(own) {
                Some(own)
            } else {
                None
            }
        }),
{
}

/// Every connection of a thread is in the table when nothing is selected.
pub proof fn all_connections_are_visible(rows: Seq<ProcessRow>)
    ensures
        visible_connections(rows, None).map_values(|shown: (bool, ConnectionEntry)| shown.1)
            == stats::all_connections(rows),
    decreases rows.len(),
{
    let pick = |shown: (bool, ConnectionEntry)| shown.1;
    if rows.len() > 0 {
        all_connections_are_visible(rows.drop_last());
        let front = visible_connections(rows.drop_last(), None);
        let own = row_connections(rows.last(), None);
        assert(own.map_values(pick) =~= rows.last().connections@);
        assert((front + own).map_values(pick) =~= front.map_values(pick) + own.map_values(pick));
    } else {
        assert(visible_connections(rows, None).map_values(pick) =~= Seq::empty());
    }
}

/// Of two rows in the table, with numbers `x` and `y`, the first has the
/// smaller number, or the larger where the table is sorted downwards; where the
/// numbers are equal it stood first before.
pub open spec fn numbers_in_place(x: int, y: int, ascending: bool, stood_first: bool) -> bool {
    if x == y {
        stood_first
    } else {
        (x < y) == ascending
    }
}

/// The same for texts, which come in the order of the dictionary.
pub open spec fn texts_in_place(
    x: Seq<char>,
    y: Seq<char>,
    ascending: bool,
    stood_first: bool,
) -> bool {
    if x == y {
        stood_first
    } else if ascending {
        ordering::text_before(x, y)
    } else {
        ordering::text_before(y, x)
    }
}

proof fn number_keys_in_place(
    keys: Seq<Seq<u64>>,
    ascending: bool,
    i: int,
    j: int,
    x: u64,
    y: u64,
)
    requires
        ordering::precedes(keys, !ascending, i, j),
        keys[i] == ordering::number_key(x),
        keys[j] == ordering::number_key(y),
    ensures
        numbers_in_place(x as int, y as int, ascending, i < j),
{
    let none = Seq::<char>::empty();
    ordering::keys_mean_what_they_are_made_of(x, y, none, none);
    ordering::keys_mean_what_they_are_made_of(y, x, none, none);
}

proof fn text_keys_in_place(
    keys: Seq<Seq<u64>>,
    ascending: bool,
    i: int,
    j: int,
    x: Seq<char>,
    y: Seq<char>,
)
    requires
        ordering::precedes(keys, !ascending, i, j),
        keys[i] == ordering::text_key(x),
        keys[j] == ordering::text_key(y),
    ensures
        texts_in_place(x, y, ascending, i < j),
{
    ordering::keys_mean_what_they_are_made_of(0, 0, x, y);
    ordering::keys_mean_what_they_are_made_of(0, 0, y, x);
}

/// Of two rows in the table the first comes first by the column, upwards or
/// downwards, or, where they are equal there, stood first before.
pub open spec fn rows_in_place(
    x: ProcessRow,
    y: ProcessRow,
    column: SortColumn,
    ascending: bool,
    first: bool,
) -> bool {
    match column {
        SortColumn::Pid => numbers_in_place(
            x.info.pid as int,
            y.info.pid as int,
            ascending,
            first,
        ),
        SortColumn::Tid => numbers_in_place(
            x.info.tid as int,
            y.info.tid as int,
            ascending,
            first,
        ),
        SortColumn::Process => texts_in_place(
            x.info.name@,
            y.info.name@,
            ascending,
            first,
        ),
        SortColumn::Thread => texts_in_place(
            x.info.thread_name@,
            y.info.thread_name@,
            ascending,
            first,
        ),
        SortColumn::User => texts_in_place(
            x.info.username@,
            y.info.username@,
            ascending,
            first,
        ),
        SortColumn::ProtocolMix => texts_in_place(
            stats::row_mix(x),
            stats::row_mix(y),
            ascending,
            first,
        ),
        SortColumn::TxRate => numbers_in_place(
            (x.tx_history@[0] + x.tx_history@[1]) / 2,
            (y.tx_history@[0] + y.tx_history@[1]) / 2,
            ascending,
            first,
        ),
        SortColumn::RxRate => numbers_in_place(
            (x.rx_history@[0] + x.rx_history@[1]) / 2,
            (y.rx_history@[0] + y.rx_history@[1]) / 2,
            ascending,
            first,
        ),
        SortColumn::TxTotal => numbers_in_place(
            x.tx_bytes as int,
            y.tx_bytes as int,
            ascending,
            first,
        ),
        SortColumn::RxTotal => numbers_in_place(
            x.rx_bytes as int,
            y.rx_bytes as int,
            ascending,
            first,
        ),
    }
}

/// The table has all rows, each once, and any two of them in the order of the
/// chosen column, upwards or downwards; rows that are equal there keep the
/// order in which they came, either way.
pub proof fn tables_are_sorted(
    rows: Seq<ProcessRow>,
    column: SortColumn,
    ascending: bool,
    a: int,
    b: int,
)
    requires
        forall|i: int| 0 <= i < rows.len() ==> key_fits(#[trigger] rows[i], column),
        0 <= a < b < rows.len(),
    ensures
        ({
            let places = ordering::sorted_order(row_keys(rows, column), !ascending);
            let sorted = table_order(rows, column, ascending);
            let x = sorted[a];
            let y = sorted[b];
            let first = places[a] < places[b];
            &&& sorted.len() == rows.len()
            &&& ordering::is_drawn_from(sorted, rows, places)
            &&& rows_in_place(x, y, column, ascending, first)
        }),
{
    let keys = row_keys(rows, column);
    let places = ordering::sorted_order(keys, !ascending);
    ordering::sorting_loses_nothing(rows, keys, !ascending);
    let i = places[a];
    let j = places[b];
    assert(ordering::precedes(keys, !ascending, i, j));
    let x = rows[i];
    let y = rows[j];
    assert(key_fits(x, column) && key_fits(y, column));
    assert(keys[i] == row_key(x, column));
    assert(keys[j] == row_key(y, column));
    match column {
        SortColumn::Pid => {
            number_keys_in_place(keys, ascending, i, j, x.info.pid as u64, y.info.pid as u64);
        },
        SortColumn::Tid => {
            number_keys_in_place(keys, ascending, i, j, x.info.tid as u64, y.info.tid as u64);
        },
        SortColumn::Process => {
            text_keys_in_place(keys, ascending, i, j, x.info.name@, y.info.name@);
        },
        SortColumn::Thread => {
            text_keys_in_place(keys, ascending, i, j, x.info.thread_name@, y.info.thread_name@);
        },
        SortColumn::User => {
            text_keys_in_place(keys, ascending, i, j, x.info.username@, y.info.username@);
        },
        SortColumn::ProtocolMix => {
            text_keys_in_place(keys, ascending, i, j, stats::row_mix(x), stats::row_mix(y));
        },
        SortColumn::TxRate => {
            number_keys_in_place(
                keys,
                ascending,
                i,
                j,
                stats::short_rate(x.tx_history@) as u64,
                stats::short_rate(y.tx_history@) as u64,
            );
        },
        SortColumn::RxRate => {
            number_keys_in_place(
                keys,
                ascending,
                i,
                j,
                stats::short_rate(x.rx_history@) as u64,
                stats::short_rate(y.rx_history@) as u64,
            );
        },
        SortColumn::TxTotal => {
            number_keys_in_place(keys, ascending, i, j, x.tx_bytes, y.tx_bytes);
        },
        SortColumn::RxTotal => {
            number_keys_in_place(keys, ascending, i, j, x.rx_bytes, y.rx_bytes);
        },
    }
}

/// Every row counts for itself in the table of connections: two groups of rows
/// have those of the one and then those of the other; one row has all of its
/// connections, with the mark whether it is blocked, where nothing is selected
/// or its own thread is, and none where another thread is, be it of the same
/// process.
pub proof fn visible_connections_add_up(
    a: Seq<ProcessRow>,
    b: Seq<ProcessRow>,
    row: ProcessRow,
    selected: Option<ThreadKey>,
    i: int,
)
    ensures
        visible_connections(a + b, selected) == visible_connections(a, selected)
            + visible_connections(b, selected),
        ({
            let shown = visible_connections(seq![row], selected);
            let chosen = selected is None || (selected->0.pid == row.info.pid && selected->0.tid
                == row.info.tid);
            &&& shown.len() == if chosen {
                row.connections@.len()
            } else {
                0
            }
            &&& chosen && 0 <= i < row.connections@.len() ==> shown[i] == (
                row.is_blocked,
                row.connections@[i],
            )
        }),
    decreases b.len(),
{
    let one = seq![row];
    assert(one.drop_last() =~= Seq::empty());
    assert(one.last() == row);
    assert(visible_connections(one.drop_last(), selected) =~= Seq::empty());
    assert(visible_connections(one, selected) =~= row_connections(row, selected));
    if b.len() == 0 {
        assert(a + b =~= a);
        assert(visible_connections(a, selected) + visible_connections(b, selected)
            =~= visible_connections(a, selected));
    } else {
        visible_connections_add_up(a, b.drop_last(), row, selected, i);
        assert((a + b).drop_last() =~= a + b.drop_last());
        assert(visible_connections(a + b, selected) =~= visible_connections(a, selected)
            + visible_connections(b, selected));
    }
}

/// Traffic is high above one mebibyte per second, and very high above ten.
pub proof fn severity_goes_by_mebibytes(rate: int)
    ensures
        severity(rate) == Severity::VeryHigh <==> rate > 10 * 1024 * 1024,
        severity(rate) == Severity::Normal <==> rate <= 1024 * 1024,
{
}

/// The larger of two rates is one of them, and not below the other.
pub proof fn larger_is_one_of_two(a: int, b: int)
    ensures
        larger(a, b) == a || larger(a, b) == b,
        larger(a, b) >= a && larger(a, b) >= b,
{
}

/// The row of a connection tells all of it: the numbers read back, the names
/// and addresses stand as they are, and the protocol by its kind.
pub proof fn connection_rows_read_back(entry: ConnectionEntry)
    ensures
        ({
            let cells = connection_texts(entry);
            &&& cells.len() == 11
            &&& decimal::parsed(cells[0], 10, 0xffff_ffff) == Some(entry.pid as int)
            &&& decimal::parsed(cells[1], 10, 0xffff_ffff) == Some(entry.tid as int)
            &&& (cells[2], cells[3], cells[4]) == (
                entry.thread_name@,
                entry.process@,
                entry.username@,
            )
            &&& (cells[5], cells[6]) == (entry.local_addr@, entry.remote_addr@)
            &&& entry.protocol is Tcp <==> cells[7] == "TCP"@
            &&& entry.protocol is Udp <==> cells[7] == "UDP"@
            &&& entry.protocol is Other <==> cells[7] == "OTHER"@
            &&& cells[8] == entry.state@
            &&& decimal::parsed(cells[9], 10, 0xffff_ffff_ffff_ffff) == Some(
                entry.tx_bytes as int,
            )
            &&& decimal::parsed(cells[10], 10, 0xffff_ffff_ffff_ffff) == Some(
                entry.rx_bytes as int,
            )
        }),
{
    reveal_strlit("TCP");
    reveal_strlit("UDP");
    reveal_strlit("OTHER");
    assert("TCP"@[0] == 'T' && "UDP"@[0] == 'U' && "OTHER"@[0] == 'O');
    decimal::decimal_parses(entry.pid as nat, 0xffff_ffff);
    decimal::decimal_parses(entry.tid as nat, 0xffff_ffff);
    decimal::decimal_parses(entry.tx_bytes as nat, 0xffff_ffff_ffff_ffff);
    decimal::decimal_parses(entry.rx_bytes as nat, 0xffff_ffff_ffff_ffff);
}

/// A click on a thread selects it, whatever else was selected, unless it was
/// selected itself: then nothing is.
pub proof fn clicks_select(row: ProcessRow, selected: Option<ThreadKey>)
    ensures
        toggled(row, selected) is None <==> selected == Some(
            ThreadKey { pid: row.info.pid, tid: row.info.tid },
        ),
        toggled(row, selected) matches Some(thread) ==> thread.pid == row.info.pid && thread.tid
            == row.info.tid,
{
}

/// The titles of a selected row name it: both have its name, followed by its
/// process, the one its thread too, and the other its user.
pub proof fn titles_name_the_row(row: ProcessRow)
    ensures
        text::begins_with(
            controls_title(row),
            row.info.name@ + " (PID "@ + decimal::decimal(row.info.pid as nat),
        ),
        text::finishes_with(
            controls_title(row),
            ", TID "@ + decimal::decimal(row.info.tid as nat) + ")"@,
        ),
        text::begins_with(
            connections_title(row),
            row.info.name@ + " (PID "@ + decimal::decimal(row.info.pid as nat) + ")"@,
        ),
        text::finishes_with(connections_title(row), "User: "@ + row.info.username@),
{
    reveal_strlit(")");
    reveal_strlit("User: ");
    reveal_strlit(") • User: ");
    reveal_strlit(" • ");
    let front = row.info.name@ + " (PID "@ + decimal::decimal(row.info.pid as nat);
    let tail = ", TID "@ + decimal::decimal(row.info.tid as nat) + ")"@;
    at_both_ends(front, tail);
    assert(controls_title(row) =~= front + tail);
    let user = "User: "@ + row.info.username@;
    assert(") • User: "@ =~= ")"@ + " • "@ + "User: "@);
    at_both_ends(front + ")"@, " • "@ + user);
    at_both_ends(front + ")"@ + " • "@, user);
    assert(connections_title(row) =~= (front + ")"@) + (" • "@ + user));
    assert(connections_title(row) =~= (front + ")"@ + " • "@) + user);
}

proof fn at_both_ends(front: Seq<char>, back: Seq<char>)
    ensures
        text::begins_with(front + back, front),
        text::finishes_with(front + back, back),
{
    let whole = front + back;
    assert(whole.subrange(0, front.len() as int) =~= front);
    assert(whole.subrange(whole.len() - back.len(), whole.len() as int) =~= back);
}

} // verus!
