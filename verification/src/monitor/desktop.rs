//! The state of the desktop window, and how it changes.

use vstd::prelude::*;

use crate::decimal;
use crate::decimal::{append_decimal, parse_number};
use crate::monitor::model::ThreadKey;
use crate::monitor::table::SortColumn;
use crate::scan;
use crate::scan::trim;
use crate::text;
use crate::text::{chars_of, stands_at, string_of};

verus! {

/// How many seconds the chart shows at first.
pub const DEFAULT_CHART_WINDOW_SECONDS: usize = 60;

/// What the desktop window keeps between two frames.
#[derive(Debug)]
pub struct Desktop {
    pub selected_iface: usize,
    pub selected_thread: Option<ThreadKey>,
    pub sort_column: SortColumn,
    pub sort_ascending: bool,
    pub is_capturing: bool,
    pub bpf_input: String,
    pub show_bits: bool,
    /// The last filter that was applied with success.
    pub active_filter: String,
    pub chart_window_seconds: usize,
    pub rate_limit_kbps_input: String,
    /// Where the packets of the session are recorded.
    pub recording_path: Option<String>,
    /// The process whose blocking has still to be confirmed.
    pub pending_block: Option<(u32, String)>,
    pub virtualization_warning: bool,
}

/// What is to be done about a filter expression.
#[derive(Debug)]
pub enum FilterRequest {
    /// Nothing but to say so.
    Refuse { status: String },
    /// Hand it to the capture.
    Apply { expression: String },
}

/// One step of stopping and starting the capture.
#[derive(Clone, Copy, Debug, PartialEq, Eq, Structural)]
pub enum CaptureStep {
    Stop,
    Start,
}

/// The file with the packets of a session, in the given directory.
pub open spec fn recording_text(home: Seq<char>, seconds: u64) -> Seq<char> {
    home + "/netmon_capture_"@ + decimal::decimal(seconds as nat) + ".pcap"@
}

/// A file to export to, in the given directory.
pub open spec fn export_text(home: Seq<char>, seconds: u64, extension: Seq<char>) -> Seq<char> {
    home + "/netmon_export_"@ + decimal::decimal(seconds as nat) + extension
}

/// A number above zero that a `u32` can hold, with white space around it or
/// without.
pub open spec fn rate_in(input: Seq<char>) -> Option<u32> {
    match decimal::parsed(scan::trimmed(input), 10, 0xffff_ffff) {
        Some(rate) => if rate > 0 {
            Some(rate as u32)
        } else {
            None
        },
        None => None,
    }
}

/// What the table is sorted by, and whether upwards, after a column was chosen.
pub open spec fn sort_after(column: SortColumn, ascending: bool, chosen: SortColumn) -> (
    SortColumn,
    bool,
) {
    if column == chosen {
        (column, !ascending)
    } else {
        (chosen, true)
    }
}

impl Desktop {
    /// The window as it opens.
    pub fn new(virtualization_warning: bool) -> (desktop: Self)
        ensures
            desktop.selected_iface == 0,
            desktop.selected_thread is None,
            desktop.sort_column == SortColumn::Pid,
            desktop.sort_ascending,
            !desktop.is_capturing,
            desktop.bpf_input@ == Seq::<char>::empty(),
            !desktop.show_bits,
            desktop.active_filter@ == Seq::<char>::empty(),
            desktop.chart_window_seconds == DEFAULT_CHART_WINDOW_SECONDS,
            desktop.rate_limit_kbps_input@ == "1024"@,
            desktop.recording_path is None,
            desktop.pending_block is None,
            desktop.virtualization_warning == virtualization_warning,
    {
        Desktop {
            selected_iface: 0,
            selected_thread: None,
            sort_column: SortColumn::Pid,
            sort_ascending: true,
            is_capturing: false,
            bpf_input: String::new(),
            show_bits: false,
            active_filter: String::new(),
            chart_window_seconds: DEFAULT_CHART_WINDOW_SECONDS,
            rate_limit_kbps_input: "1024".to_owned(),
            recording_path: None,
            pending_block: None,
            virtualization_warning,
        }
    }

    /// Sorts by the column; where the table is sorted by it already, turns the
    /// direction round.
    pub fn set_sort(&mut self, col: SortColumn)
        ensures
            (final(self).sort_column, final(self).sort_ascending) == sort_after(
                old(self).sort_column,
                old(self).sort_ascending,
                col,
            ),
            *final(self) == (Desktop {
                sort_column: final(self).sort_column,
                sort_ascending: final(self).sort_ascending,
                ..*old(self)
            }),
    {
        if self.sort_column == col {
            self.sort_ascending = !self.sort_ascending;
        } else {
            self.sort_column = col;
            self.sort_ascending = true;
        }
    }

    /// The interface on which capture is to start: the selected one, unless
    /// capture is running or there is no such interface.
    pub fn start_capture(&self, device_count: usize) -> (device: Option<usize>)
        ensures
            device == (if !self.is_capturing && self.selected_iface < device_count {
                Some(self.selected_iface)
            } else {
                None
            }),
    {
        if self.is_capturing || device_count == 0 {
            return None;
        }
        if self.selected_iface < device_count {
            Some(self.selected_iface)
        } else {
            None
        }
    }

    /// Capture has started on the interface: what the status line says.
    pub fn capture_started(&mut self, iface: &str, path: String) -> (status: String)
        ensures
            *final(self) == (Desktop {
                is_capturing: true,
                recording_path: Some(path),
                ..*old(self)
            }),
            status@ == "Capturing on "@ + iface@ + "..."@,
    {
        self.recording_path = Some(path);
        self.is_capturing = true;
        let mut status = "Capturing on ".to_owned();
        status.append(iface);
        status.append("...");
        status
    }

    /// Capture could not be started: what the status line says.
    pub fn capture_failed(&mut self, iface: &str, error: &str) -> (status: String)
        ensures
            *final(self) == (Desktop { recording_path: None, ..*old(self) }),
            status@ == "Failed to start capture on "@ + iface@ + ": "@ + error@,
    {
        self.recording_path = None;
        let mut status = "Failed to start capture on ".to_owned();
        status.append(iface);
        status.append(": ");
        status.append(error);
        status
    }

    /// Ends the capture: what the status line says, where one was running.
    pub fn stop_capture(&mut self) -> (status: Option<String>)
        ensures
            *final(self) == (Desktop { is_capturing: false, ..*old(self) }),
            status is Some <==> old(self).is_capturing,
            status matches Some(line) ==> line@ == "Capture stopped"@,
    {
        if !self.is_capturing {
            return None;
        }
        self.is_capturing = false;
        Some("Capture stopped".to_owned())
    }

    /// What is to be done when another interface was selected: a running
    /// capture is stopped and started again.
    pub fn restart_capture_for_interface_change(&self) -> (steps: Vec<CaptureStep>)
        ensures
            steps@ == (if self.is_capturing {
                seq![CaptureStep::Stop, CaptureStep::Start]
            } else {
                Seq::empty()
            }),
    {
        let mut steps: Vec<CaptureStep> = Vec::new();
        if self.is_capturing {
            steps.push(CaptureStep::Stop);
            steps.push(CaptureStep::Start);
        }
        assert(steps@ =~= if self.is_capturing {
            seq![CaptureStep::Stop, CaptureStep::Start]
        } else {
            Seq::empty()
        });
        steps
    }

    /// What is to be done about the filter expression in the text box.
    pub fn apply_bpf_filter(&self, running: bool) -> (request: FilterRequest)
        ensures
            match request {
                FilterRequest::Apply { expression } => running && scan::trimmed(
                    self.bpf_input@,
                ).len() > 0 && expression@ == scan::trimmed(self.bpf_input@),
                FilterRequest::Refuse { status } => if running {
                    scan::trimmed(self.bpf_input@).len() == 0 && status@
                        == "Enter a BPF expression before applying it"@
                } else {
                    status@ == "Cannot apply BPF: capture is not running"@
                },
            },
    {
        if !running {
            return FilterRequest::Refuse {
                status: "Cannot apply BPF: capture is not running".to_owned(),
            };
        }
        let expression = trim(&chars_of(self.bpf_input.as_str()));
        if expression.len() == 0 {
            return FilterRequest::Refuse {
                status: "Enter a BPF expression before applying it".to_owned(),
            };
        }
        let content = string_of(&expression, 0, expression.len());
        assert(content@ =~= expression@);
        FilterRequest::Apply { expression: content }
    }

    /// Takes in a message from the capture: a filter that was applied becomes
    /// the active one, and a capture that ended by itself is no longer running.
    /// Whether it ended is the result.
    pub fn update_status(&mut self, message: &str) -> (ended: bool)
        ensures
            ended == text::begins_with(message@, "Capture stopped:"@),
            text::begins_with(message@, "Filter applied: "@) ==> final(self).active_filter@
                == message@.skip("Filter applied: "@.len() as int),
            *final(self) == (Desktop {
                active_filter: if text::begins_with(message@, "Filter applied: "@) {
                    final(self).active_filter
                } else {
                    old(self).active_filter
                },
                is_capturing: old(self).is_capturing && !ended,
                ..*old(self)
            }),
    {
        let chars = chars_of(message);
        let applied = chars_of("Filter applied: ");
        if stands_at(&chars, &applied, 0) {
            let filter = string_of(&chars, applied.len(), chars.len());
            assert(filter@ =~= message@.skip("Filter applied: "@.len() as int));
            self.active_filter = filter;
        }
        let ended = stands_at(&chars, &chars_of("Capture stopped:"), 0);
        if ended {
            self.is_capturing = false;
        }
        ended
    }

    /// The rate in the text box.
    pub fn parse_rate_limit_kbps(&self) -> (rate: Option<u32>)
        ensures
            rate == rate_in(self.rate_limit_kbps_input@),
    {
        let number = trim(&chars_of(self.rate_limit_kbps_input.as_str()));
        match parse_number(&number, 10, 0xffff_ffff) {
            Some(rate) => {
                if rate > 0 {
                    Some(rate as u32)
                } else {
                    None
                }
            },
            None => None,
        }
    }

    /// Asks for the blocking of a process to be confirmed.
    pub fn ask_to_block(&mut self, pid: u32, process: &str)
        ensures
            final(self).pending_block matches Some((asked, name)) && asked == pid && name@
                == process@,
            *final(self) == (Desktop { pending_block: final(self).pending_block, ..*old(self) }),
    {
        self.pending_block = Some((pid, process.to_owned()));
    }

    /// The question put before a process is blocked.
    pub fn block_question(&self) -> (question: Option<String>)
        ensures
            question is Some <==> self.pending_block is Some,
            self.pending_block matches Some((pid, process)) ==> question->0@
                == "Block all traffic for "@ + process@ + " (PID "@ + decimal::decimal(pid as nat)
                + ")? This will insert an nftables rule. Confirm?"@,
    {
        match &self.pending_block {
            Some((pid, process)) => {
                let mut question = "Block all traffic for ".to_owned();
                question.append(process.as_str());
                question.append(" (PID ");
                append_decimal(&mut question, *pid as u64);
                question.append(")? This will insert an nftables rule. Confirm?");
                Some(question)
            },
            None => None,
        }
    }

    /// Takes back the question; what it was about.
    pub fn close_question(&mut self) -> (asked: Option<(u32, String)>)
        ensures
            asked == old(self).pending_block,
            *final(self) == (Desktop { pending_block: None, ..*old(self) }),
    {
        self.pending_block.take()
    }

    /// Drops the selection.
    pub fn clear_selection(&mut self)
        ensures
            *final(self) == (Desktop { selected_thread: None, ..*old(self) }),
    {
        self.selected_thread = None;
    }
}

/// The file with the packets of a session that starts at the given time.
pub fn recording_path(home: &str, seconds: u64) -> (path: String)
    ensures
        path@ == recording_text(home@, seconds),
{
    let mut path = home.to_owned();
    path.append("/netmon_capture_");
    append_decimal(&mut path, seconds);
    path.append(".pcap");
    path
}

/// The file to which a table is exported at the given time.
pub fn csv_export_path(home: &str, seconds: u64) -> (path: String)
    ensures
        path@ == export_text(home@, seconds, ".csv"@),
{
    let mut path = home.to_owned();
    path.append("/netmon_export_");
    append_decimal(&mut path, seconds);
    path.append(".csv");
    path
}

/// The file to which packets are exported at the given time.
pub fn pcap_export_path(home: &str, seconds: u64) -> (path: String)
    ensures
        path@ == export_text(home@, seconds, ".pcap"@),
{
    let mut path = home.to_owned();
    path.append("/netmon_export_");
    append_decimal(&mut path, seconds);
    path.append(".pcap");
    path
}

/// What the status line says of a filter that the capture did not take.
pub fn filter_refused(error: &str) -> (status: String)
    ensures
        status@ == "BPF error: "@ + error@,
{
    let mut status = "BPF error: ".to_owned();
    status.append(error);
    status
}

/// What the status line says of a rate that is none.
pub fn rate_refused() -> (status: String)
    ensures
        status@ == "Enter a positive kbit/s value before limiting bandwidth"@,
{
    "Enter a positive kbit/s value before limiting bandwidth".to_owned()
}

/// How long ago, in milliseconds, the figures of the dashboard must have been
/// computed for them to be computed again.
pub const CACHE_UPDATE_INTERVAL_MS: u64 = 100;

/// Whether the figures of the dashboard are to be computed again.
pub fn figures_are_due(elapsed_ms: u64) -> (due: bool)
    ensures
        due == (elapsed_ms >= CACHE_UPDATE_INTERVAL_MS),
{
    elapsed_ms >= CACHE_UPDATE_INTERVAL_MS
}

/// Choosing a column by which the table is sorted turns the direction round,
/// and choosing it once more turns it back.
pub proof fn choosing_a_column_again_turns_it_round(
    column: SortColumn,
    ascending: bool,
    chosen: SortColumn,
)
    ensures
        ({
            let first = sort_after(column, ascending, chosen);
            let second = sort_after(first.0, first.1, chosen);
            let third = sort_after(second.0, second.1, chosen);
            &&& second == (chosen, !first.1)
            &&& third == first
        }),
{
}

/// A message is never both: one that reports a filter does not end a capture.
pub proof fn filters_do_not_end_captures(message: Seq<char>)
    requires
        text::begins_with(message, "Filter applied: "@),
    ensures
        !text::begins_with(message, "Capture stopped:"@),
{
    reveal_strlit("Filter applied: ");
    reveal_strlit("Capture stopped:");
    if text::begins_with(message, "Capture stopped:"@) {
        assert(message.subrange(0, 16)[0] == 'F');
        assert(message.subrange(0, 16)[0] == 'C');
    }
}

/// A rate is read as it was written, with white space around it or without,
/// and only a rate above zero is one.
pub proof fn rates_read_back(front: Seq<char>, rate: u32, back: Seq<char>)
    requires
        forall|i: int| 0 <= i < front.len() ==> scan::is_space(#[trigger] front[i]),
        forall|i: int| 0 <= i < back.len() ==> scan::is_space(#[trigger] back[i]),
    ensures
        rate_in(front + decimal::decimal(rate as nat) + back) == (if rate > 0 {
            Some(rate)
        } else {
            None
        }),
{
    decimal::decimal_is_digits(rate as nat);
    decimal::decimal_parses(rate as nat, 0xffff_ffff);
    scan::trimming_takes_space_only(front, decimal::decimal(rate as nat), back);
}

/// What has anything but digits in it is no rate.
pub proof fn other_rates_are_none(input: Seq<char>, i: int)
    requires
        0 <= i < input.len(),
        !scan::is_space(input[0]),
        !scan::is_space(input.last()),
        input[i] != '+',
        !('0' <= input[i] <= '9'),
    ensures
        rate_in(input) is None,
{
    let none = Seq::<char>::empty();
    scan::trimming_takes_space_only(none, input, none);
    assert(none + input + none =~= input);
    decimal::other_texts_are_no_numbers(input, 10, 0xffff_ffff, i);
}

/// Choosing another column sorts by that column, upwards.
pub proof fn other_columns_are_sorted_upwards(
    column: SortColumn,
    ascending: bool,
    chosen: SortColumn,
)
    ensures
        sort_after(column, ascending, chosen).0 == chosen,
        column != chosen ==> sort_after(column, ascending, chosen).1,
        column == chosen ==> sort_after(column, ascending, chosen).1 == !ascending,
{
}

/// Files of different times have different names, and recordings are told from
/// exports by theirs.
pub proof fn files_of_different_times_differ(
    home: Seq<char>,
    a: u64,
    b: u64,
    extension: Seq<char>,
)
    ensures
        recording_text(home, a) == recording_text(home, b) ==> a == b,
        export_text(home, a, extension) == export_text(home, b, extension) ==> a == b,
        recording_text(home, a) != export_text(home, b, ".pcap"@),
{
    reveal_strlit("/netmon_capture_");
    reveal_strlit("/netmon_export_");
    reveal_strlit(".pcap");
    let x = decimal::decimal(a as nat);
    let y = decimal::decimal(b as nat);
    let n = home.len() as int;
    if recording_text(home, a) == recording_text(home, b) {
        let whole = recording_text(home, a);
        assert(whole.len() == n + 16 + x.len() + 5);
        assert(recording_text(home, b).len() == n + 16 + y.len() + 5);
        assert(x =~= whole.subrange(n + 16, n + 16 + x.len()));
        assert(y =~= whole.subrange(n + 16, n + 16 + y.len()));
        decimal::decimal_tells_apart(a as nat, b as nat);
    }
    if export_text(home, a, extension) == export_text(home, b, extension) {
        let whole = export_text(home, a, extension);
        assert(whole.len() == n + 15 + x.len() + extension.len());
        assert(export_text(home, b, extension).len() == n + 15 + y.len() + extension.len());
        assert(x =~= whole.subrange(n + 15, n + 15 + x.len()));
        assert(y =~= whole.subrange(n + 15, n + 15 + y.len()));
        decimal::decimal_tells_apart(a as nat, b as nat);
    }
    assert(recording_text(home, a)[n + 8] == "/netmon_capture_"@[8]);
    assert(export_text(home, b, ".pcap"@)[n + 8] == "/netmon_export_"@[8]);
}

} // verus!
