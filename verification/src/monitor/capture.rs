//! Starting a capture: what is done in which order, and what is taken back
//! when a step fails.

use vstd::prelude::*;

use crate::decimal;
use crate::decimal::append_decimal;
use crate::text;
use crate::text::same_text;

verus! {

/// Where packets are recorded.
#[derive(Debug)]
pub enum Recording {
    /// In the file that was asked for.
    At { path: String },
    /// In a file of the program's own.
    Generated,
}

/// How far the start of a capture has got.
enum Stage {
    Claim,
    FindDevice,
    Spawn { device: usize },
    ApplyFilter { expression: String },
    StoreControl,
    Done { result: Result<(), String>, release: bool },
}

/// The start of a capture.
pub struct CaptureStart {
    interface: String,
    filter: Option<String>,
    record_path: Option<String>,
    stage: Stage,
}

/// The next thing to be done.
#[derive(Debug)]
pub enum StartAction {
    /// Set the mark that a capture is running, and see whether it was set.
    Claim,
    /// Get the names of the interfaces.
    ReadDevices,
    /// Start the capture on the interface at this place.
    Spawn { device: usize, recording: Recording },
    /// Hand the capture this filter.
    ApplyFilter { expression: String },
    /// Keep the control of the capture.
    StoreControl,
    /// Nothing: this is the result.  Where `release` says so, the mark is taken
    /// back.
    Finish { result: Result<(), String>, release: bool },
}

/// What came of an action.
#[derive(Debug)]
pub enum StartEvent {
    Claimed { was_running: bool },
    /// The names, unless they could not be reached.
    Devices { names: Option<Vec<String>> },
    Spawned { result: Result<(), String> },
    Filtered { result: Result<(), String> },
    Stored { reached: bool },
}

/// What a session becomes when a capture has started.
#[derive(Debug)]
pub struct SessionChange {
    /// Whether the history of the session is emptied.
    pub clear_history: bool,
    /// The recording that the session keeps: the one that the capture was
    /// started with.
    pub recording: Recording,
    /// The filter that is active; none is the empty one.
    pub active_filter: String,
}

/// The model of what a session becomes.
pub struct ChangeView {
    pub clear_history: bool,
    pub record_path: Option<Seq<char>>,
    pub active_filter: Seq<char>,
}

/// The file that was asked for, if any.
pub open spec fn recording_path(recording: Recording) -> Option<Seq<char>> {
    match recording {
        Recording::At { path } => Some(path@),
        Recording::Generated => None,
    }
}

impl View for SessionChange {
    type V = ChangeView;

    open spec fn view(&self) -> ChangeView {
        ChangeView {
            clear_history: self.clear_history,
            record_path: recording_path(self.recording),
            active_filter: self.active_filter@,
        }
    }
}

/// The model of how far the start has got.
pub enum StageView {
    Claim,
    FindDevice,
    Spawn { device: int },
    ApplyFilter { expression: Seq<char> },
    StoreControl,
    Done { error: Option<Seq<char>>, release: bool },
}

/// The model of the start of a capture.
pub struct StartView {
    pub interface: Seq<char>,
    pub filter: Option<Seq<char>>,
    pub record_path: Option<Seq<char>>,
    pub stage: StageView,
}

/// The model of an event.
pub enum StartEventView {
    Claimed { was_running: bool },
    Devices { names: Option<Seq<Seq<char>>> },
    Spawned { error: Option<Seq<char>> },
    Filtered { error: Option<Seq<char>> },
    Stored { reached: bool },
}

/// The model of an action.
pub enum StartActionView {
    Claim,
    ReadDevices,
    Spawn { device: int, record_path: Option<Seq<char>> },
    ApplyFilter { expression: Seq<char> },
    StoreControl,
    Finish { error: Option<Seq<char>>, release: bool },
}

/// The error of a result, where it is one.
pub open spec fn error_of(result: Result<(), String>) -> Option<Seq<char>> {
    match result {
        Ok(()) => None,
        Err(error) => Some(error@),
    }
}

impl View for Stage {
    type V = StageView;

    closed spec fn view(&self) -> StageView {
        match self {
            Stage::Claim => StageView::Claim,
            Stage::FindDevice => StageView::FindDevice,
            Stage::Spawn { device } => StageView::Spawn { device: *device as int },
            Stage::ApplyFilter { expression } => StageView::ApplyFilter { expression: expression@ },
            Stage::StoreControl => StageView::StoreControl,
            Stage::Done { result, release } => StageView::Done {
                error: error_of(*result),
                release: *release,
            },
        }
    }
}

impl View for CaptureStart {
    type V = StartView;

    closed spec fn view(&self) -> StartView {
        StartView {
            interface: self.interface@,
            filter: text::optional(self.filter),
            record_path: text::optional(self.record_path),
            stage: self.stage@,
        }
    }
}

impl View for StartAction {
    type V = StartActionView;

    open spec fn view(&self) -> StartActionView {
        match self {
            StartAction::Claim => StartActionView::Claim,
            StartAction::ReadDevices => StartActionView::ReadDevices,
            StartAction::Spawn { device, recording } => StartActionView::Spawn {
                device: *device as int,
                record_path: recording_path(*recording),
            },
            StartAction::ApplyFilter { expression } => StartActionView::ApplyFilter {
                expression: expression@,
            },
            StartAction::StoreControl => StartActionView::StoreControl,
            StartAction::Finish { result, release } => StartActionView::Finish {
                error: error_of(*result),
                release: *release,
            },
        }
    }
}

impl View for StartEvent {
    type V = StartEventView;

    open spec fn view(&self) -> StartEventView {
        match self {
            StartEvent::Claimed { was_running } => StartEventView::Claimed {
                was_running: *was_running,
            },
            StartEvent::Devices { names } => StartEventView::Devices {
                names: match names {
                    Some(list) => Some(text::texts(list@)),
                    None => None,
                },
            },
            StartEvent::Spawned { result } => StartEventView::Spawned { error: error_of(*result) },
            StartEvent::Filtered { result } => StartEventView::Filtered { error: error_of(*result) },
            StartEvent::Stored { reached } => StartEventView::Stored { reached: *reached },
        }
    }
}

/// What the session becomes: where the capture has started its history is
/// emptied, it keeps the recording, and the filter that was given, or the empty
/// one, is active; else nothing.
pub open spec fn change_of(start: StartView) -> Option<ChangeView> {
    match start.stage {
        StageView::Done { error: None, .. } => Some(
            ChangeView {
                clear_history: true,
                record_path: start.record_path,
                active_filter: match start.filter {
                    Some(expression) => expression,
                    None => Seq::empty(),
                },
            },
        ),
        _ => None,
    }
}

/// The start after several events.
pub open spec fn run(start: StartView, events: Seq<StartEventView>) -> StartView
    decreases events.len(),
{
    if events.len() == 0 {
        start
    } else {
        run(step(start, events[0]), events.drop_first())
    }
}

/// Each event answers what the start has done when it comes.
pub open spec fn all_answer(start: StartView, events: Seq<StartEventView>) -> bool
    decreases events.len(),
{
    events.len() > 0 ==> answers(next_action(start), events[0]) && all_answer(
        step(start, events[0]),
        events.drop_first(),
    )
}

/// The first place of a name; the number of names where it is not among them.
pub open spec fn name_place(names: Seq<Seq<char>>, name: Seq<char>) -> int
    decreases names.len(),
{
    if names.len() == 0 {
        0
    } else if names[0] == name {
        0
    } else {
        1 + name_place(names.drop_first(), name)
    }
}

/// The start failed, and the mark is taken back.
pub open spec fn failed(error: Seq<char>) -> StageView {
    StageView::Done { error: Some(error), release: true }
}

/// Where the start goes after an event.
pub open spec fn next_stage(start: StartView, event: StartEventView) -> StageView {
    match (start.stage, event) {
        (StageView::Claim, StartEventView::Claimed { was_running }) => if was_running {
            StageView::Done { error: Some("capture already running"@), release: false }
        } else {
            StageView::FindDevice
        },
        (StageView::FindDevice, StartEventView::Devices { names }) => match names {
            Some(list) => if name_place(list, start.interface) < list.len() {
                StageView::Spawn { device: name_place(list, start.interface) }
            } else {
                failed("interface not found"@)
            },
            None => failed("device cache lock poisoned"@),
        },
        (StageView::Spawn { .. }, StartEventView::Spawned { error }) => match error {
            Some(message) => failed(message),
            None => match start.filter {
                Some(expression) => StageView::ApplyFilter { expression },
                None => StageView::StoreControl,
            },
        },
        (StageView::ApplyFilter { .. }, StartEventView::Filtered { error }) => match error {
            Some(message) => failed(message),
            None => StageView::StoreControl,
        },
        (StageView::StoreControl, StartEventView::Stored { reached }) => if reached {
            StageView::Done { error: None, release: false }
        } else {
            failed("capture control lock poisoned"@)
        },
        _ => start.stage,
    }
}

/// The start after an event.
pub open spec fn step(start: StartView, event: StartEventView) -> StartView {
    StartView { stage: next_stage(start, event), ..start }
}

/// The next thing that the start has done.
pub open spec fn next_action(start: StartView) -> StartActionView {
    match start.stage {
        StageView::Claim => StartActionView::Claim,
        StageView::FindDevice => StartActionView::ReadDevices,
        StageView::Spawn { device } => StartActionView::Spawn {
            device,
            record_path: start.record_path,
        },
        StageView::ApplyFilter { expression } => StartActionView::ApplyFilter { expression },
        StageView::StoreControl => StartActionView::StoreControl,
        StageView::Done { error, release } => StartActionView::Finish { error, release },
    }
}

/// The event is one that can come of the action.
pub open spec fn answers(action: StartActionView, event: StartEventView) -> bool {
    match action {
        StartActionView::Claim => event is Claimed,
        StartActionView::ReadDevices => event is Devices,
        StartActionView::Spawn { .. } => event is Spawned,
        StartActionView::ApplyFilter { .. } => event is Filtered,
        StartActionView::StoreControl => event is Stored,
        StartActionView::Finish { .. } => false,
    }
}

/// The first place of a name.
pub fn find_name(names: &Vec<String>, name: &str) -> (place: Option<usize>)
    ensures
        match place {
            Some(at) => at < names@.len() && at == name_place(text::texts(names@), name@),
            None => name_place(text::texts(names@), name@) == names@.len(),
        },
{
    let ghost all = text::texts(names@);
    let mut i: usize = 0;
    assert(all.skip(0) =~= all);
    while i < names.len()
        invariant
            i <= names@.len(),
            all == text::texts(names@),
            name_place(all, name@) == i + name_place(all.skip(i as int), name@),
        decreases names@.len() - i,
    {
        assert(all.skip(i as int)[0] == names@[i as int]@);
        if same_text(names[i].as_str(), name) {
            return Some(i);
        }
        assert(all.skip(i as int).drop_first() =~= all.skip(i + 1));
        i += 1;
    }
    None
}

fn same_result(result: &Result<(), String>) -> (same: Result<(), String>)
    ensures
        error_of(same) == error_of(*result),
{
    match result {
        Ok(()) => Ok(()),
        Err(error) => Err(error.clone()),
    }
}

/// Starts a capture on the interface, with the filter and recorded in the file
/// that are given, if any.
pub fn start_capture(
    interface: String,
    bpf_filter: Option<String>,
    record_path: Option<String>,
) -> (start: CaptureStart)
    ensures
        start@ == (StartView {
            interface: interface@,
            filter: text::optional(bpf_filter),
            record_path: text::optional(record_path),
            stage: StageView::Claim,
        }),
{
    CaptureStart { interface, filter: bpf_filter, record_path, stage: Stage::Claim }
}

impl CaptureStart {
    /// The next thing to be done.
    pub fn action(&self) -> (action: StartAction)
        ensures
            action@ == next_action(self@),
    {
        match &self.stage {
            Stage::Claim => StartAction::Claim,
            Stage::FindDevice => StartAction::ReadDevices,
            Stage::Spawn { device } => StartAction::Spawn {
                device: *device,
                recording: self.recording(),
            },
            Stage::ApplyFilter { expression } => StartAction::ApplyFilter {
                expression: expression.clone(),
            },
            Stage::StoreControl => StartAction::StoreControl,
            Stage::Done { result, release } => StartAction::Finish {
                result: same_result(result),
                release: *release,
            },
        }
    }

    /// The start after what came of its action.
    pub fn resume(self, event: StartEvent) -> (next: CaptureStart)
        requires
            answers(next_action(self@), event@),
        ensures
            next@ == step(self@, event@),
    {
        let CaptureStart { interface, filter, record_path, stage } = self;
        let stage = match (stage, event) {
            (Stage::Claim, StartEvent::Claimed { was_running }) => {
                if was_running {
                    Stage::Done {
                        result: Err("capture already running".to_owned()),
                        release: false,
                    }
                } else {
                    Stage::FindDevice
                }
            },
            (Stage::FindDevice, StartEvent::Devices { names }) => {
                match names {
                    Some(list) => {
                        match find_name(&list, interface.as_str()) {
                            Some(device) => Stage::Spawn { device },
                            None => Stage::Done {
                                result: Err("interface not found".to_owned()),
                                release: true,
                            },
                        }
                    },
                    None => Stage::Done {
                        result: Err("device cache lock poisoned".to_owned()),
                        release: true,
                    },
                }
            },
            (Stage::Spawn { .. }, StartEvent::Spawned { result }) => {
                match result {
                    Ok(()) => {
                        match &filter {
                            Some(expression) => Stage::ApplyFilter {
                                expression: expression.clone(),
                            },
                            None => Stage::StoreControl,
                        }
                    },
                    Err(error) => Stage::Done { result: Err(error), release: true },
                }
            },
            (Stage::ApplyFilter { .. }, StartEvent::Filtered { result }) => {
                match result {
                    Ok(()) => Stage::StoreControl,
                    Err(error) => Stage::Done { result: Err(error), release: true },
                }
            },
            (Stage::StoreControl, StartEvent::Stored { reached }) => {
                if reached {
                    Stage::Done { result: Ok(()), release: false }
                } else {
                    Stage::Done {
                        result: Err("capture control lock poisoned".to_owned()),
                        release: true,
                    }
                }
            },
            (unchanged, _) => unchanged,
        };
        CaptureStart { interface, filter, record_path, stage }
    }

    /// What the session becomes, once the capture has started; nothing as long
    /// as it has not, and where it could not be started.
    pub fn session_change(&self) -> (change: Option<SessionChange>)
        ensures
            match change {
                Some(made) => change_of(self@) == Some(made@),
                None => change_of(self@) is None,
            },
            change is Some <==> (self@.stage matches StageView::Done { error, .. }
                && error is None),
            change matches Some(made) ==> made.clear_history,
    {
        match &self.stage {
            Stage::Done { result: Ok(()), .. } => {
                let active_filter = match &self.filter {
                    Some(expression) => expression.clone(),
                    None => {
                        let none = String::new();
                        assert(none@ =~= Seq::empty());
                        none
                    },
                };
                Some(
                    SessionChange { clear_history: true, recording: self.recording(), active_filter },
                )
            },
            _ => None,
        }
    }

    fn recording(&self) -> (recording: Recording)
        ensures
            recording_path(recording) == self@.record_path,
    {
        match &self.record_path {
            Some(path) => Recording::At { path: path.clone() },
            None => Recording::Generated,
        }
    }
}

/// The name of a recording of the program's own that starts at the given time.
pub fn generated_name(seconds: u64) -> (name: String)
    ensures
        name@ == "netmon_capture_"@ + decimal::decimal(seconds as nat) + ".pcap"@,
{
    let mut name = "netmon_capture_".to_owned();
    append_decimal(&mut name, seconds);
    name.append(".pcap");
    name
}

/// What stands in the way of applying a filter to the capture: its control
/// cannot be reached, or there is none.
pub fn apply_filter(reached: bool, running: bool) -> (result: Result<(), String>)
    ensures
        error_of(result) == (if !reached {
            Some("capture control lock poisoned"@)
        } else if !running {
            Some("capture not running"@)
        } else {
            None
        }),
{
    if !reached {
        Err("capture control lock poisoned".to_owned())
    } else if !running {
        Err("capture not running".to_owned())
    } else {
        Ok(())
    }
}

/// The file that is to be exported, given where packets were recorded and
/// whether that file is there.
pub fn export_pcap(recording: Option<String>, exists: bool) -> (source: Result<String, String>)
    ensures
        match recording {
            Some(path) => if exists {
                source is Ok && source->Ok_0@ == path@
            } else {
                source is Err && source->Err_0@ == "PCAP recording file missing"@
            },
            None => source is Err && source->Err_0@ == "no PCAP recording available"@,
        },
{
    match recording {
        Some(path) => {
            if exists {
                Ok(path)
            } else {
                Err("PCAP recording file missing".to_owned())
            }
        },
        None => Err("no PCAP recording available".to_owned()),
    }
}

/// A start that fails takes back the mark that it set, and one that found the
/// mark set leaves it: the mark says whether a capture is running.
pub proof fn failed_starts_release_the_mark(start: StartView, event: StartEventView)
    requires
        answers(next_action(start), event),
        step(start, event).stage is Done,
    ensures
        ({
            let done = step(start, event).stage;
            &&& done->error is Some ==> (done->release <==> !(start.stage is Claim))
            &&& done->error is None ==> !done->release && start.stage is StoreControl
        }),
{
}

/// A start that begins the session anew has done all of this, and in this
/// order: it found that no capture was running, found the interface, started
/// the capture there with the recording that the session keeps, handed it the
/// filter where one was given, and had its control kept.
pub proof fn sessions_change_after_all_steps(start: StartView, events: Seq<StartEventView>)
    requires
        start.stage is Claim,
        all_answer(start, events),
    ensures
        change_of(run(start, events)) is Some ==> ({
            let change = change_of(run(start, events))->0;
            let filtered: int = if start.filter is Some {
                1
            } else {
                0
            };
            &&& events.len() == 4 + filtered
            &&& events[0] == (StartEventView::Claimed { was_running: false })
            &&& events[1] matches StartEventView::Devices { names: Some(list) }
            &&& name_place(list, start.interface) < list.len()
            &&& next_action(run(start, events.take(2))) == (StartActionView::Spawn {
                device: name_place(list, start.interface),
                record_path: change.record_path,
            })
            &&& events[2] == (StartEventView::Spawned { error: None })
            &&& start.filter matches Some(expression) ==> {
                &&& next_action(run(start, events.take(3))) == (StartActionView::ApplyFilter {
                    expression,
                })
                &&& events[3] == (StartEventView::Filtered { error: None })
                &&& change.active_filter == expression
            }
            &&& start.filter is None ==> change.active_filter == Seq::<char>::empty()
            &&& next_action(run(start, events.take(3 + filtered))) is StoreControl
            &&& events[3 + filtered] == (StartEventView::Stored { reached: true })
            &&& change.record_path == start.record_path
            &&& change.clear_history
        }),
{
    reveal_with_fuel(run, 6);
    reveal_with_fuel(all_answer, 6);
}

/// The events of a start in which all goes well.
pub open spec fn going_well(start: StartView, names: Seq<Seq<char>>) -> Seq<StartEventView> {
    let begun = seq![
        StartEventView::Claimed { was_running: false },
        StartEventView::Devices { names: Some(names) },
        StartEventView::Spawned { error: None },
    ];
    let filtered = if start.filter is Some {
        begun.push(StartEventView::Filtered { error: None })
    } else {
        begun
    };
    filtered.push(StartEventView::Stored { reached: true })
}

/// A start on an interface that is there, in which all goes well, changes the
/// session.
pub proof fn starts_that_go_well_change_the_session(start: StartView, names: Seq<Seq<char>>)
    requires
        start.stage is Claim,
        name_place(names, start.interface) < names.len(),
    ensures
        all_answer(start, going_well(start, names)),
        run(start, going_well(start, names)).stage == (StageView::Done {
            error: None,
            release: false,
        }),
        change_of(run(start, going_well(start, names))) is Some,
{
    reveal_with_fuel(run, 6);
    reveal_with_fuel(all_answer, 6);
}

/// A start that does not end well changes nothing of the session.
pub proof fn failed_starts_change_nothing(start: StartView, error: Seq<char>, release: bool)
    requires
        start.stage == (StageView::Done { error: Some(error), release }),
    ensures
        change_of(start) is None,
{
}

/// How many answers a start still takes, at most.
pub open spec fn answers_left(stage: StageView) -> nat {
    match stage {
        StageView::Claim => 5,
        StageView::FindDevice => 4,
        StageView::Spawn { .. } => 3,
        StageView::ApplyFilter { .. } => 2,
        StageView::StoreControl => 1,
        StageView::Done { .. } => 0,
    }
}

/// Each answer brings the end of a start nearer.
pub proof fn every_start_ends(start: StartView, event: StartEventView)
    requires
        answers(next_action(start), event),
    ensures
        answers_left(step(start, event).stage) < answers_left(start.stage),
{
}

/// The interface is the first of its name: no earlier one has the name, and it
/// is found exactly if some one has.
pub proof fn interfaces_are_found_by_name(names: Seq<Seq<char>>, name: Seq<char>)
    ensures
        0 <= name_place(names, name) <= names.len(),
        forall|i: int| 0 <= i < name_place(names, name) ==> #[trigger] names[i] != name,
        name_place(names, name) < names.len() ==> names[name_place(names, name)] == name,
    decreases names.len(),
{
    if names.len() > 0 && names[0] != name {
        let rest = names.drop_first();
        interfaces_are_found_by_name(rest, name);
        assert forall|i: int| 0 <= i < name_place(names, name) implies #[trigger] names[i] != name by {
            if i > 0 {
                assert(rest[i - 1] == names[i]);
            }
        }
        if name_place(names, name) < names.len() {
            assert(rest[name_place(rest, name)] == names[name_place(names, name)]);
        }
    }
}

/// Every failure ends the start, and its reason is the result: the words of the
/// capture as they are, and else what stood in the way.
pub proof fn failures_give_their_reason(start: StartView, message: Seq<char>, list: Seq<Seq<char>>)
    ensures
        start.stage is Claim ==> next_action(
            step(start, StartEventView::Claimed { was_running: true }),
        ) == (StartActionView::Finish {
            error: Some("capture already running"@),
            release: false,
        }),
        start.stage is FindDevice ==> next_action(
            step(start, StartEventView::Devices { names: None }),
        ) == (StartActionView::Finish {
            error: Some("device cache lock poisoned"@),
            release: true,
        }),
        start.stage is FindDevice && !list.contains(start.interface) ==> next_action(
            step(start, StartEventView::Devices { names: Some(list) }),
        ) == (StartActionView::Finish { error: Some("interface not found"@), release: true }),
        start.stage is Spawn ==> next_action(
            step(start, StartEventView::Spawned { error: Some(message) }),
        ) == (StartActionView::Finish { error: Some(message), release: true }),
        start.stage is ApplyFilter ==> next_action(
            step(start, StartEventView::Filtered { error: Some(message) }),
        ) == (StartActionView::Finish { error: Some(message), release: true }),
        start.stage is StoreControl ==> next_action(
            step(start, StartEventView::Stored { reached: false }),
        ) == (StartActionView::Finish {
            error: Some("capture control lock poisoned"@),
            release: true,
        }),
{
    interfaces_are_found_by_name(list, start.interface);
}

} // verus!
