//! What the monitor is told of the traffic.

use vstd::prelude::*;

verus! {

/// How many seconds of history are kept; the newest comes first.
pub const CHART_HISTORY_SECONDS: usize = 300;

/// The protocol of a connection; another one by its number.
#[derive(Clone, Copy, Debug, PartialEq, Eq, Structural)]
pub enum Protocol {
    Tcp,
    Udp,
    Other(u8),
}

/// A thread of a process.
#[derive(Clone, Copy, Debug, PartialEq, Eq, Structural)]
pub struct ThreadKey {
    pub pid: u32,
    pub tid: u32,
}

/// Who a thread is and whom it works for.
#[derive(Debug)]
pub struct ProcessInfo {
    pub pid: u32,
    pub tid: u32,
    pub name: String,
    pub thread_name: String,
    pub uid: u32,
    pub username: String,
}

/// One connection, and what has gone over it.
#[derive(Debug)]
pub struct ConnectionEntry {
    pub local_addr: String,
    pub remote_addr: String,
    pub remote_port: u16,
    pub protocol: Protocol,
    pub state: String,
    pub pid: u32,
    pub tid: u32,
    pub process: String,
    pub thread_name: String,
    pub uid: u32,
    pub username: String,
    pub tx_bytes: u64,
    pub rx_bytes: u64,
}

/// One thread, and what it has sent and received.
#[derive(Debug)]
pub struct ProcessRow {
    pub info: ProcessInfo,
    pub tx_bytes: u64,
    pub rx_bytes: u64,
    pub tx_history: [u64; 300],
    pub rx_history: [u64; 300],
    pub is_blocked: bool,
    pub connections: Vec<ConnectionEntry>,
}

/// The traffic of the interface as a whole.
#[derive(Debug)]
pub struct InterfaceStats {
    pub tx_bytes_total: u64,
    pub rx_bytes_total: u64,
    pub current_bandwidth_bytes_per_sec: u64,
    pub peak_bandwidth_bytes_per_sec: u64,
    pub tx_history: [u64; 300],
    pub rx_history: [u64; 300],
}

/// What a thread had sent and received at one moment of the session.
#[derive(Debug)]
pub struct HistoryCsvRow {
    pub timestamp: u64,
    pub pid: u32,
    pub tid: u32,
    pub process: String,
    pub thread: String,
    pub user: String,
    pub uid: u32,
    pub tx_bytes_total: u64,
    pub rx_bytes_total: u64,
    pub tx_2s_avg: u64,
    pub rx_2s_avg: u64,
    pub tx_10s_avg: u64,
    pub rx_10s_avg: u64,
}

/// The row is that of the thread.
pub open spec fn is_row_of(row: ProcessRow, thread: ThreadKey) -> bool {
    row.info.pid == thread.pid && row.info.tid == thread.tid
}

impl ProcessRow {
    /// The thread that the row is about.
    pub fn thread(&self) -> (thread: ThreadKey)
        ensures
            thread == (ThreadKey { pid: self.info.pid, tid: self.info.tid }),
    {
        ThreadKey { pid: self.info.pid, tid: self.info.tid }
    }

    /// Whether the row is that of the thread.
    pub fn belongs_to(&self, thread: ThreadKey) -> (yes: bool)
        ensures
            yes == is_row_of(*self, thread),
    {
        self.info.pid == thread.pid && self.info.tid == thread.tid
    }
}

impl InterfaceStats {
    /// An interface over which nothing has gone.
    pub fn idle() -> (stats: Self)
        ensures
            stats.tx_bytes_total == 0,
            stats.rx_bytes_total == 0,
            stats.current_bandwidth_bytes_per_sec == 0,
            stats.peak_bandwidth_bytes_per_sec == 0,
            forall|i: int| 0 <= i < 300 ==> stats.tx_history@[i] == 0,
            forall|i: int| 0 <= i < 300 ==> stats.rx_history@[i] == 0,
    {
        InterfaceStats {
            tx_bytes_total: 0,
            rx_bytes_total: 0,
            current_bandwidth_bytes_per_sec: 0,
            peak_bandwidth_bytes_per_sec: 0,
            tx_history: [0;300],
            rx_history: [0;300],
        }
    }
}

/// The first row of the thread; the number of rows where there is none.
pub open spec fn row_place(rows: Seq<ProcessRow>, thread: ThreadKey) -> int
    decreases rows.len(),
{
    if rows.len() == 0 {
        0
    } else if is_row_of(rows[0], thread) {
        0
    } else {
        1 + row_place(rows.drop_first(), thread)
    }
}

/// What `row_place` finds: the first row of the thread.
pub proof fn row_place_is_first(rows: Seq<ProcessRow>, thread: ThreadKey)
    ensures
        0 <= row_place(rows, thread) <= rows.len(),
        forall|i: int| 0 <= i < row_place(rows, thread) ==> !is_row_of(#[trigger] rows[i], thread),
        row_place(rows, thread) < rows.len() ==> is_row_of(rows[row_place(rows, thread)], thread),
    decreases rows.len(),
{
    if rows.len() > 0 && !is_row_of(rows[0], thread) {
        let rest = rows.drop_first();
        row_place_is_first(rest, thread);
        assert forall|i: int| 0 <= i < row_place(rows, thread) implies !is_row_of(
            #[trigger] rows[i],
            thread,
        ) by {
            if i > 0 {
                assert(rest[i - 1] == rows[i]);
            }
        }
        if row_place(rows, thread) < rows.len() {
            assert(rest[row_place(rest, thread)] == rows[row_place(rows, thread)]);
        }
    }
}

/// The place of the first row of the thread.
pub fn find_row(rows: &Vec<ProcessRow>, thread: ThreadKey) -> (place: Option<usize>)
    ensures
        match place {
            Some(at) => at < rows@.len() && at == row_place(rows@, thread),
            None => row_place(rows@, thread) == rows@.len(),
        },
{
    let mut i: usize = 0;
    assert(rows@.skip(0) =~= rows@);
    while i < rows.len()
        invariant
            i <= rows@.len(),
            row_place(rows@, thread) == i + row_place(rows@.skip(i as int), thread),
        decreases rows@.len() - i,
    {
        assert(rows@.skip(i as int)[0] == rows@[i as int]);
        if rows[i].belongs_to(thread) {
            return Some(i);
        }
        assert(rows@.skip(i as int).drop_first() =~= rows@.skip(i + 1));
        i += 1;
    }
    None
}

/// A place before which no row has both numbers of the thread, and at which one
/// has, is the one that `row_place` gives.
pub proof fn row_place_is_here(rows: Seq<ProcessRow>, thread: ThreadKey, place: int)
    requires
        0 <= place <= rows.len(),
        forall|k: int|
            0 <= k < place ==> (#[trigger] rows[k]).info.pid != thread.pid || rows[k].info.tid
                != thread.tid,
        place < rows.len() ==> rows[place].info.pid == thread.pid && rows[place].info.tid
            == thread.tid,
    ensures
        row_place(rows, thread) == place,
    decreases rows.len(),
{
    if place > 0 {
        assert(rows[0].info.pid != thread.pid || rows[0].info.tid != thread.tid);
        let rest = rows.drop_first();
        assert forall|k: int| 0 <= k < place - 1 implies (#[trigger] rest[k]).info.pid
            != thread.pid || rest[k].info.tid != thread.tid by {
            assert(rest[k] == rows[k + 1]);
        }
        row_place_is_here(rest, thread, place - 1);
    }
}

} // verus!
