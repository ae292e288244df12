//! What the status line says of exports.

use vstd::prelude::*;

verus! {

/// What came of exporting the history of the session.
#[derive(Debug)]
pub enum CsvOutcome {
    /// There was nothing to export.
    NoHistory,
    /// The file could not be made.
    NotCreated { error: String },
    /// The names of the columns could not be written.
    HeaderNotWritten,
    /// Not all rows could be written.
    RowsNotWritten,
    Exported { path: String },
}

/// What came of exporting the packets of the session.
#[derive(Debug)]
pub enum PcapOutcome {
    /// There is no recording.
    NotRecorded,
    /// The file of the recording is not there.
    NoFile,
    /// The file could not be copied.
    NotCopied { error: String },
    Exported { path: String },
}

/// What the status line says of exporting the history.
pub fn csv_status(outcome: &CsvOutcome) -> (status: String)
    ensures
        status@ == (match *outcome {
            CsvOutcome::NoHistory => "No session history captured yet"@,
            CsvOutcome::NotCreated { error } => "CSV export failed: "@ + error@,
            CsvOutcome::HeaderNotWritten => "CSV export failed while writing header"@,
            CsvOutcome::RowsNotWritten => "CSV export failed while writing rows"@,
            CsvOutcome::Exported { path } => "Exported CSV to "@ + path@,
        }),
{
    match outcome {
        CsvOutcome::NoHistory => "No session history captured yet".to_owned(),
        CsvOutcome::NotCreated { error } => {
            let mut status = "CSV export failed: ".to_owned();
            status.append(error.as_str());
            status
        },
        CsvOutcome::HeaderNotWritten => "CSV export failed while writing header".to_owned(),
        CsvOutcome::RowsNotWritten => "CSV export failed while writing rows".to_owned(),
        CsvOutcome::Exported { path } => {
            let mut status = "Exported CSV to ".to_owned();
            status.append(path.as_str());
            status
        },
    }
}

/// What the status line says of exporting the packets.
pub fn pcap_status(outcome: &PcapOutcome) -> (status: String)
    ensures
        status@ == (match *outcome {
            PcapOutcome::NotRecorded => "PCAP export unavailable: start capture first"@,
            PcapOutcome::NoFile => "PCAP export unavailable: no recording file yet"@,
            PcapOutcome::NotCopied { error } => "PCAP export failed: "@ + error@,
            PcapOutcome::Exported { path } => "Exported PCAP to "@ + path@,
        }),
{
    match outcome {
        PcapOutcome::NotRecorded => "PCAP export unavailable: start capture first".to_owned(),
        PcapOutcome::NoFile => "PCAP export unavailable: no recording file yet".to_owned(),
        PcapOutcome::NotCopied { error } => {
            let mut status = "PCAP export failed: ".to_owned();
            status.append(error.as_str());
            status
        },
        PcapOutcome::Exported { path } => {
            let mut status = "Exported PCAP to ".to_owned();
            status.append(path.as_str());
            status
        },
    }
}

/// What stands in the way of exporting the packets: there is no recording, or
/// its file is not there.
pub fn pcap_obstacle(recorded: bool, exists: bool) -> (obstacle: Option<PcapOutcome>)
    ensures
        obstacle == (if !recorded {
            Some(PcapOutcome::NotRecorded)
        } else if !exists {
            Some(PcapOutcome::NoFile)
        } else {
            None
        }),
{
    if !recorded {
        Some(PcapOutcome::NotRecorded)
    } else if !exists {
        Some(PcapOutcome::NoFile)
    } else {
        None
    }
}

} // verus!
