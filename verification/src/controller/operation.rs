//! The operations of the controller.
//!
//! An operation decides; it does not act.  It names the next thing to be done,
//! and goes on from what came of it, until it has a result.

use std::collections::BTreeSet;

use vstd::prelude::*;

use crate::controller::nft;
use crate::controller::nft::{
    command_result, find_rule_handles_by_marker, script_result, NftReply,
};
use crate::controller::procfs;
use crate::controller::procfs::{
    collect_net_table_ports, collect_socket_inodes, process_links_dir, status_file,
    thread_links_dir, uid_in_status,
};
use crate::controller::registry::RuleRegistry;
use crate::controller::rules;
use crate::controller::rules::{
    add_table_args, build_port_ruleset, build_user_rule, chain_script, delete_rule_args,
    flush_args, kbps_to_packets_per_second, list_args,
};
use crate::controller::scope;
use crate::controller::scope::{key_of, scope_marker, scoped_comment, Control, Target};
use crate::decimal;
use crate::decimal::append_decimal;
use crate::scan;
use crate::text;
use crate::text::text_contains;

verus! {

/// What an operation is to bring about.
enum Goal {
    /// The table and the chain are there.
    Setup,
    /// The rules for the target are in place; where a limit is given, they
    /// match only what exceeds it.
    Install { target: Target, limit: Option<u32>, label: String },
    /// The rules for the target are gone.
    Remove { target: Target, control: Control },
    /// The chain is empty.
    Flush,
}

/// How far an operation has got.
enum Stage {
    AddTable,
    AddChain,
    Take,
    ListOld,
    Delete { handles: Vec<u64>, next: usize },
    TcpLinks,
    TcpTables { inodes: BTreeSet<u64> },
    UdpLinks { tcp: BTreeSet<u16> },
    UdpTables { tcp: BTreeSet<u16>, inodes: BTreeSet<u64> },
    ReadUser,
    Apply { script: String },
    ListNew,
    Keep { handles: Vec<u64> },
    FlushChain,
    Forget,
    Done { result: Result<(), String> },
}

/// An operation of the controller.
pub struct Operation {
    goal: Goal,
    stage: Stage,
}

/// The next thing to be done.
#[derive(Debug)]
pub enum Action {
    /// Run nft with these arguments.
    RunCommand { args: Vec<String> },
    /// Run nft on this script.
    RunScript { script: String },
    /// Take the rules of the scope out of the registry.
    TakeHandles { key: String },
    /// Put the rules of the scope into the registry.
    KeepHandles { key: String, handles: Vec<u64> },
    /// Empty the registry.
    ForgetAll,
    /// Read the targets of the links in the directory, those that can be read.
    ReadLinks { dir: String },
    /// Read the files, those that can be read.
    ReadTables { paths: Vec<String> },
    /// Read the file, if it can be read.
    ReadStatus { path: String },
    /// Nothing: this is what the operation came to.
    Finish { result: Result<(), String> },
}

/// What came of an action.
#[derive(Debug)]
pub enum Event {
    /// nft was run, or could not be run.
    Nft { reply: NftReply },
    /// The rules that were in the registry.
    Taken { handles: Option<Vec<u64>> },
    /// The rules are in the registry.
    Kept,
    /// The registry is empty.
    Forgotten,
    /// The registry could not be reached.
    MapPoisoned,
    /// The targets of the links.
    Links { targets: Vec<String> },
    /// The contents of the files.
    Tables { contents: Vec<Option<String>> },
    /// The content of the file.
    Status { content: Option<String> },
}

/// The model of a goal.
pub enum GoalView {
    Setup,
    Install { target: Target, limit: Option<u32>, label: Seq<char> },
    Remove { target: Target, control: Control },
    Flush,
}

/// The model of a stage.
pub enum StageView {
    AddTable,
    AddChain,
    Take,
    ListOld,
    Delete { rest: Seq<u64> },
    TcpLinks,
    TcpTables { inodes: Set<u64> },
    UdpLinks { tcp: Set<u16> },
    UdpTables { tcp: Set<u16>, inodes: Set<u64> },
    ReadUser,
    Apply { script: Seq<char> },
    ListNew,
    Keep { handles: Seq<u64> },
    FlushChain,
    Forget,
    Done { outcome: nft::Outcome },
}

/// The model of an operation.
pub struct OperationView {
    pub goal: GoalView,
    pub stage: StageView,
}

/// The model of an action.
pub enum ActionView {
    RunCommand { args: Seq<Seq<char>> },
    RunScript { script: Seq<char> },
    TakeHandles { key: Seq<char> },
    KeepHandles { key: Seq<char>, handles: Seq<u64> },
    ForgetAll,
    ReadLinks { dir: Seq<char> },
    ReadTables { paths: Seq<Seq<char>> },
    ReadStatus { path: Seq<char> },
    Finish { outcome: nft::Outcome },
}

/// The model of an event.
pub enum EventView {
    Nft { reply: nft::ReplyView },
    Taken { handles: Option<Seq<u64>> },
    Kept,
    Forgotten,
    MapPoisoned,
    Links { targets: Seq<Seq<char>> },
    Tables { contents: Seq<Option<Seq<char>>> },
    Status { content: Option<Seq<char>> },
}

impl View for Goal {
    type V = GoalView;

    closed spec fn view(&self) -> GoalView {
        match self {
            Goal::Setup => GoalView::Setup,
            Goal::Install { target, limit, label } => GoalView::Install {
                target: *target,
                limit: *limit,
                label: label@,
            },
            Goal::Remove { target, control } => GoalView::Remove {
                target: *target,
                control: *control,
            },
            Goal::Flush => GoalView::Flush,
        }
    }
}

impl View for Stage {
    type V = StageView;

    closed spec fn view(&self) -> StageView {
        match self {
            Stage::AddTable => StageView::AddTable,
            Stage::AddChain => StageView::AddChain,
            Stage::Take => StageView::Take,
            Stage::ListOld => StageView::ListOld,
            Stage::Delete { handles, next } => StageView::Delete {
                rest: handles@.skip(*next as int),
            },
            Stage::TcpLinks => StageView::TcpLinks,
            Stage::TcpTables { inodes } => StageView::TcpTables { inodes: inodes@ },
            Stage::UdpLinks { tcp } => StageView::UdpLinks { tcp: tcp@ },
            Stage::UdpTables { tcp, inodes } => StageView::UdpTables {
                tcp: tcp@,
                inodes: inodes@,
            },
            Stage::ReadUser => StageView::ReadUser,
            Stage::Apply { script } => StageView::Apply { script: script@ },
            Stage::ListNew => StageView::ListNew,
            Stage::Keep { handles } => StageView::Keep { handles: handles@ },
            Stage::FlushChain => StageView::FlushChain,
            Stage::Forget => StageView::Forget,
            Stage::Done { result } => StageView::Done { outcome: nft::outcome(*result) },
        }
    }
}

impl View for Operation {
    type V = OperationView;

    closed spec fn view(&self) -> OperationView {
        OperationView { goal: self.goal@, stage: self.stage@ }
    }
}

impl View for Action {
    type V = ActionView;

    open spec fn view(&self) -> ActionView {
        match self {
            Action::RunCommand { args } => ActionView::RunCommand { args: text::texts(args@) },
            Action::RunScript { script } => ActionView::RunScript { script: script@ },
            Action::TakeHandles { key } => ActionView::TakeHandles { key: key@ },
            Action::KeepHandles { key, handles } => ActionView::KeepHandles {
                key: key@,
                handles: handles@,
            },
            Action::ForgetAll => ActionView::ForgetAll,
            Action::ReadLinks { dir } => ActionView::ReadLinks { dir: dir@ },
            Action::ReadTables { paths } => ActionView::ReadTables { paths: text::texts(paths@) },
            Action::ReadStatus { path } => ActionView::ReadStatus { path: path@ },
            Action::Finish { result } => ActionView::Finish { outcome: nft::outcome(*result) },
        }
    }
}

/// The model of handles that may be missing.
pub open spec fn optional_handles(handles: Option<Vec<u64>>) -> Option<Seq<u64>> {
    match handles {
        Some(list) => Some(list@),
        None => None,
    }
}

impl View for Event {
    type V = EventView;

    open spec fn view(&self) -> EventView {
        match self {
            Event::Nft { reply } => EventView::Nft { reply: reply@ },
            Event::Taken { handles } => EventView::Taken { handles: optional_handles(*handles) },
            Event::Kept => EventView::Kept,
            Event::Forgotten => EventView::Forgotten,
            Event::MapPoisoned => EventView::MapPoisoned,
            Event::Links { targets } => EventView::Links { targets: text::texts(targets@) },
            Event::Tables { contents } => EventView::Tables {
                contents: procfs::optional_texts(contents@),
            },
            Event::Status { content } => EventView::Status { content: text::optional(*content) },
        }
    }
}

/// What rules with the given limit, or with none, do.
pub open spec fn control_of(limit: Option<u32>) -> Control {
    if limit is Some {
        Control::Limit
    } else {
        Control::Block
    }
}

/// The key of the scope that an operation is about.
pub open spec fn goal_key(goal: GoalView) -> Seq<char> {
    match goal {
        GoalView::Install { target, limit, .. } => scope::target_key(target, control_of(limit)),
        GoalView::Remove { target, control } => scope::target_key(target, control),
        _ => Seq::empty(),
    }
}

/// The comment of the rules that an operation makes.
pub open spec fn goal_comment(goal: GoalView) -> Seq<char> {
    match goal {
        GoalView::Install { label, .. } => scope::comment_text(goal_key(goal), label),
        _ => Seq::empty(),
    }
}

/// The directory of the open files of a target.
pub open spec fn links_path(target: Target) -> Seq<char> {
    match target {
        Target::Process { pid } => procfs::process_links_path(pid),
        Target::Thread { pid, tid } => procfs::thread_links_path(pid, tid),
        Target::User { .. } => Seq::empty(),
    }
}

/// The files with the sockets of a protocol.
pub open spec fn table_paths(udp: bool) -> Seq<Seq<char>> {
    if udp {
        seq!["/proc/net/udp"@, "/proc/net/udp6"@]
    } else {
        seq!["/proc/net/tcp"@, "/proc/net/tcp6"@]
    }
}

/// The error of an operation that could not reach the registry.
pub open spec fn poisoned() -> nft::Outcome {
    nft::Outcome::Refused { error: "rules map poisoned"@ }
}

/// The error of an operation on a process of which nothing is known.
pub open spec fn unknown_process(pid: u32) -> nft::Outcome {
    nft::Outcome::Refused {
        error: "Could not determine ports or UID for PID "@ + decimal::decimal(pid as nat),
    }
}

/// The error of an operation on a thread without ports.
pub open spec fn thread_without_ports(pid: u32, tid: u32) -> nft::Outcome {
    nft::Outcome::Refused {
        error: "No ports found for PID "@ + decimal::decimal(pid as nat) + " TID "@
            + decimal::decimal(tid as nat),
    }
}

/// Where an operation goes once the table and the chain have been seen to.
/// One that is to make rules goes on, whatever came of it.
pub open spec fn after_setup(goal: GoalView, outcome: nft::Outcome) -> StageView {
    match goal {
        GoalView::Install { .. } => StageView::Take,
        _ => StageView::Done { outcome },
    }
}

/// Where an operation goes once the earlier rules of its scope are gone.
pub open spec fn after_removal(goal: GoalView) -> StageView {
    match goal {
        GoalView::Install { target: Target::User { uid }, limit, .. } => StageView::Apply {
            script: rules::user_rule_text(uid, limit, goal_comment(goal)),
        },
        GoalView::Install { .. } => StageView::TcpLinks,
        _ => StageView::Done { outcome: nft::Outcome::Done },
    }
}

/// Where an operation goes that still has these rules to delete.
pub open spec fn deleting(goal: GoalView, handles: Seq<u64>) -> StageView {
    if handles.len() == 0 {
        after_removal(goal)
    } else {
        StageView::Delete { rest: handles }
    }
}

/// Where an operation goes that has found these ports.
pub open spec fn with_ports(goal: GoalView, tcp: Set<u16>, udp: Set<u16>) -> StageView {
    match goal {
        GoalView::Install { target, limit, .. } => if tcp.is_empty() && udp.is_empty() {
            match target {
                Target::Thread { pid, tid } => if limit is Some {
                    StageView::Apply { script: Seq::empty() }
                } else {
                    StageView::Done { outcome: thread_without_ports(pid, tid) }
                },
                _ => StageView::ReadUser,
            }
        } else {
            StageView::Apply { script: rules::port_rules(tcp, udp, limit, goal_comment(goal)) }
        },
        _ => StageView::Done { outcome: nft::Outcome::Done },
    }
}

/// Where an operation goes that has found this user for a process.
pub open spec fn with_user(goal: GoalView, uid: Option<u32>) -> StageView {
    match (goal, uid) {
        (GoalView::Install { limit, .. }, Some(uid)) => StageView::Apply {
            script: rules::user_rule_text(uid, limit, goal_comment(goal)),
        },
        (GoalView::Install { target: Target::Process { pid }, .. }, None) => StageView::Done {
            outcome: unknown_process(pid),
        },
        _ => StageView::Done { outcome: nft::Outcome::Done },
    }
}

/// Where an operation goes after an event.
pub open spec fn next_stage(goal: GoalView, stage: StageView, event: EventView) -> StageView {
    match (stage, event) {
        (StageView::AddTable, EventView::Nft { reply }) => match nft::command_outcome(reply, true) {
            nft::Outcome::Done => StageView::AddChain,
            nft::Outcome::Refused { error } => after_setup(goal, nft::Outcome::Refused { error }),
        },
        (StageView::AddChain, EventView::Nft { reply }) => match nft::script_outcome(reply) {
            nft::Outcome::Done => after_setup(goal, nft::Outcome::Done),
            nft::Outcome::Refused { error } => if nft::says_exists(error) {
                after_setup(goal, nft::Outcome::Done)
            } else {
                after_setup(goal, nft::Outcome::Refused { error })
            },
        },
        (StageView::Take, EventView::Taken { handles }) => match handles {
            Some(list) => if list.len() == 0 {
                StageView::ListOld
            } else {
                StageView::Delete { rest: list }
            },
            None => StageView::ListOld,
        },
        (StageView::ListOld, EventView::Nft { reply }) => match nft::listing_found(
            reply,
            scope::marker_text(goal_key(goal)),
        ) {
            nft::Found::Handles { handles } => deleting(goal, handles),
            nft::Found::Refused { error } => StageView::Done {
                outcome: nft::Outcome::Refused { error },
            },
        },
        (StageView::Delete { rest }, EventView::Nft { reply }) => match nft::command_outcome(
            reply,
            false,
        ) {
            nft::Outcome::Done => deleting(goal, rest.drop_first()),
            nft::Outcome::Refused { error } => StageView::Done {
                outcome: nft::Outcome::Refused { error },
            },
        },
        (StageView::TcpLinks, EventView::Links { targets }) => StageView::TcpTables {
            inodes: procfs::inodes_in_links(targets),
        },
        (StageView::TcpTables { inodes }, EventView::Tables { contents }) => StageView::UdpLinks {
            tcp: procfs::ports_in_tables(contents, Some(inodes)),
        },
        (StageView::UdpLinks { tcp }, EventView::Links { targets }) => StageView::UdpTables {
            tcp,
            inodes: procfs::inodes_in_links(targets),
        },
        (StageView::UdpTables { tcp, inodes }, EventView::Tables { contents }) => with_ports(
            goal,
            tcp,
            procfs::ports_in_tables(contents, Some(inodes)),
        ),
        (StageView::ReadUser, EventView::Status { content }) => with_user(
            goal,
            match content {
                Some(status) => procfs::uid_in_lines(scan::lines(status)),
                None => None,
            },
        ),
        (StageView::Apply { .. }, EventView::Nft { reply }) => match nft::script_outcome(reply) {
            nft::Outcome::Done => StageView::ListNew,
            nft::Outcome::Refused { error } => StageView::Done {
                outcome: nft::Outcome::Refused { error },
            },
        },
        (StageView::ListNew, EventView::Nft { reply }) => match nft::listing_found(
            reply,
            scope::marker_text(goal_key(goal)),
        ) {
            nft::Found::Handles { handles } => StageView::Keep { handles },
            nft::Found::Refused { error } => StageView::Done {
                outcome: nft::Outcome::Refused { error },
            },
        },
        (StageView::Keep { .. }, EventView::Kept) => StageView::Done {
            outcome: nft::Outcome::Done,
        },
        (StageView::FlushChain, EventView::Nft { reply }) => match nft::command_outcome(
            reply,
            false,
        ) {
            nft::Outcome::Done => StageView::Forget,
            nft::Outcome::Refused { error } => StageView::Done {
                outcome: nft::Outcome::Refused { error },
            },
        },
        (StageView::Forget, EventView::Forgotten) => StageView::Done {
            outcome: nft::Outcome::Done,
        },
        (_, EventView::MapPoisoned) => StageView::Done { outcome: poisoned() },
        _ => stage,
    }
}

/// The operation after an event.
pub open spec fn step(operation: OperationView, event: EventView) -> OperationView {
    OperationView {
        goal: operation.goal,
        stage: next_stage(operation.goal, operation.stage, event),
    }
}

/// The next thing that an operation has done.
pub open spec fn next_action(operation: OperationView) -> ActionView {
    let goal = operation.goal;
    match operation.stage {
        StageView::AddTable => ActionView::RunCommand { args: rules::add_table_words() },
        StageView::AddChain => ActionView::RunScript { script: rules::chain_script_text() },
        StageView::Take => ActionView::TakeHandles { key: goal_key(goal) },
        StageView::ListOld => ActionView::RunCommand { args: rules::list_words(true) },
        StageView::Delete { rest } => ActionView::RunCommand {
            args: rules::delete_rule_words(rest[0]),
        },
        StageView::TcpLinks => ActionView::ReadLinks { dir: goal_links(goal) },
        StageView::TcpTables { .. } => ActionView::ReadTables { paths: table_paths(false) },
        StageView::UdpLinks { .. } => ActionView::ReadLinks { dir: goal_links(goal) },
        StageView::UdpTables { .. } => ActionView::ReadTables { paths: table_paths(true) },
        StageView::ReadUser => ActionView::ReadStatus { path: goal_status(goal) },
        StageView::Apply { script } => ActionView::RunScript { script },
        StageView::ListNew => ActionView::RunCommand { args: rules::list_words(true) },
        StageView::Keep { handles } => ActionView::KeepHandles { key: goal_key(goal), handles },
        StageView::FlushChain => ActionView::RunCommand { args: rules::flush_words() },
        StageView::Forget => ActionView::ForgetAll,
        StageView::Done { outcome } => ActionView::Finish { outcome },
    }
}

/// The directory of the open files of the target of an operation.
pub open spec fn goal_links(goal: GoalView) -> Seq<char> {
    match goal {
        GoalView::Install { target, .. } => links_path(target),
        _ => Seq::empty(),
    }
}

/// The file with the status of the process that an operation is about.
pub open spec fn goal_status(goal: GoalView) -> Seq<char> {
    match goal {
        GoalView::Install { target: Target::Process { pid }, .. } => procfs::status_file_path(pid),
        _ => Seq::empty(),
    }
}

/// The event is one that can come of the action.
pub open spec fn answers(action: ActionView, event: EventView) -> bool {
    match action {
        ActionView::RunCommand { .. } => event is Nft,
        ActionView::RunScript { .. } => event is Nft,
        ActionView::TakeHandles { .. } => event is Taken || event is MapPoisoned,
        ActionView::KeepHandles { .. } => event is Kept || event is MapPoisoned,
        ActionView::ForgetAll => event is Forgotten || event is MapPoisoned,
        ActionView::ReadLinks { .. } => event is Links,
        ActionView::ReadTables { .. } => event is Tables,
        ActionView::ReadStatus { .. } => event is Status,
        ActionView::Finish { .. } => false,
    }
}

/// The operation is at a stage that its goal can bring it to.
pub open spec fn consistent(operation: OperationView) -> bool {
    match operation.stage {
        StageView::Done { .. } => true,
        StageView::AddTable => operation.goal is Setup || operation.goal is Install,
        StageView::AddChain => operation.goal is Setup || operation.goal is Install,
        StageView::Take => operation.goal is Install || operation.goal is Remove,
        StageView::ListOld => operation.goal is Install || operation.goal is Remove,
        StageView::Delete { rest } => rest.len() > 0 && (operation.goal is Install
            || operation.goal is Remove),
        StageView::FlushChain => operation.goal is Flush,
        StageView::Forget => operation.goal is Flush,
        StageView::ReadUser => operation.goal matches GoalView::Install { target, .. }
            && target is Process,
        StageView::TcpLinks => operation.goal matches GoalView::Install { target, .. }
            && !(target is User),
        StageView::TcpTables { .. } => operation.goal matches GoalView::Install { target, .. }
            && !(target is User),
        StageView::UdpLinks { .. } => operation.goal matches GoalView::Install { target, .. }
            && !(target is User),
        StageView::UdpTables { .. } => operation.goal matches GoalView::Install { target, .. }
            && !(target is User),
        _ => operation.goal is Install,
    }
}

/// What becomes of an operation that works on the registry itself.
pub open spec fn settled_operation(
    operation: OperationView,
    registry: Map<Seq<char>, Seq<u64>>,
) -> OperationView {
    match next_action(operation) {
        ActionView::TakeHandles { key } => step(
            operation,
            EventView::Taken {
                handles: if registry.dom().contains(key) {
                    Some(registry[key])
                } else {
                    None
                },
            },
        ),
        ActionView::KeepHandles { .. } => step(operation, EventView::Kept),
        ActionView::ForgetAll => step(operation, EventView::Forgotten),
        _ => operation,
    }
}

/// What becomes of the registry on which an operation works.
pub open spec fn settled_registry(
    operation: OperationView,
    registry: Map<Seq<char>, Seq<u64>>,
) -> Map<Seq<char>, Seq<u64>> {
    match next_action(operation) {
        ActionView::TakeHandles { key } => registry.remove(key),
        ActionView::KeepHandles { key, handles } => registry.insert(key, handles),
        ActionView::ForgetAll => Map::empty(),
        _ => registry,
    }
}

fn limit_control(limit: Option<u32>) -> (control: Control)
    ensures
        control == control_of(limit),
{
    match limit {
        Some(_) => Control::Limit,
        None => Control::Block,
    }
}

impl Goal {
    fn key(&self) -> (key: String)
        ensures
            key@ == goal_key(self@),
    {
        match self {
            Goal::Install { target, limit, .. } => key_of(*target, limit_control(*limit)),
            Goal::Remove { target, control } => key_of(*target, *control),
            _ => {
                let key = String::new();
                assert(key@ =~= Seq::empty());
                key
            },
        }
    }

    fn marker(&self) -> (marker: String)
        ensures
            marker@ == scope::marker_text(goal_key(self@)),
    {
        scope_marker(self.key().as_str())
    }

    fn comment(&self) -> (comment: String)
        ensures
            comment@ == goal_comment(self@),
    {
        match self {
            Goal::Install { label, .. } => scoped_comment(self.key().as_str(), label.as_str()),
            _ => {
                let comment = String::new();
                assert(comment@ =~= Seq::empty());
                comment
            },
        }
    }

    fn links_dir(&self) -> (dir: String)
        ensures
            dir@ == goal_links(self@),
    {
        if let Goal::Install { target, .. } = self {
            match target {
                Target::Process { pid } => {
                    return process_links_dir(*pid);
                },
                Target::Thread { pid, tid } => {
                    return thread_links_dir(*pid, *tid);
                },
                Target::User { .. } => {},
            }
        }
        let dir = String::new();
        assert(dir@ =~= Seq::empty());
        dir
    }

    fn status_path(&self) -> (path: String)
        ensures
            path@ == goal_status(self@),
    {
        if let Goal::Install { target: Target::Process { pid }, .. } = self {
            return status_file(*pid);
        }
        let path = String::new();
        assert(path@ =~= Seq::empty());
        path
    }

    fn after_setup(&self, result: Result<(), String>) -> (stage: Stage)
        ensures
            stage@ == after_setup(self@, nft::outcome(result)),
            !(stage is Delete),
    {
        match self {
            Goal::Install { .. } => Stage::Take,
            _ => Stage::Done { result },
        }
    }

    fn after_removal(&self) -> (stage: Stage)
        ensures
            stage@ == after_removal(self@),
            !(stage is Delete),
    {
        match self {
            Goal::Install { target, limit, .. } => {
                match target {
                    Target::User { uid } => Stage::Apply {
                        script: build_user_rule(*uid, *limit, self.comment().as_str()),
                    },
                    _ => Stage::TcpLinks,
                }
            },
            _ => Stage::Done { result: Ok(()) },
        }
    }

    fn deleting(&self, handles: Vec<u64>, next: usize) -> (stage: Stage)
        requires
            next <= handles@.len(),
        ensures
            stage@ == deleting(self@, handles@.skip(next as int)),
            stage matches Stage::Delete { handles: list, next: at } ==> at < list@.len(),
    {
        if next == handles.len() {
            self.after_removal()
        } else {
            Stage::Delete { handles, next }
        }
    }

    fn with_ports(&self, tcp: &BTreeSet<u16>, udp: &BTreeSet<u16>) -> (stage: Stage)
        ensures
            stage@ == with_ports(self@, tcp@, udp@),
            !(stage is Delete),
    {
        match self {
            Goal::Install { target, limit, .. } => {
                if !tcp.is_empty() || !udp.is_empty() {
                    return Stage::Apply {
                        script: build_port_ruleset(tcp, udp, *limit, self.comment().as_str()),
                    };
                }
                match target {
                    Target::Thread { pid, tid } => {
                        if limit.is_some() {
                            let script = String::new();
                            assert(script@ =~= Seq::empty());
                            return Stage::Apply { script };
                        }
                        let mut error = String::new();
                        error.append("No ports found for PID ");
                        append_decimal(&mut error, *pid as u64);
                        error.append(" TID ");
                        append_decimal(&mut error, *tid as u64);
                        assert(error@ =~= thread_without_ports(*pid, *tid)->error);
                        Stage::Done { result: Err(error) }
                    },
                    _ => Stage::ReadUser,
                }
            },
            _ => Stage::Done { result: Ok(()) },
        }
    }

    fn with_user(&self, uid: Option<u32>) -> (stage: Stage)
        ensures
            stage@ == with_user(self@, uid),
            !(stage is Delete),
    {
        match self {
            Goal::Install { target, limit, .. } => {
                match uid {
                    Some(user) => Stage::Apply {
                        script: build_user_rule(user, *limit, self.comment().as_str()),
                    },
                    None => {
                        match target {
                            Target::Process { pid } => {
                                let mut error = String::new();
                                error.append("Could not determine ports or UID for PID ");
                                append_decimal(&mut error, *pid as u64);
                                assert(error@ =~= unknown_process(*pid)->error);
                                Stage::Done { result: Err(error) }
                            },
                            _ => Stage::Done { result: Ok(()) },
                        }
                    },
                }
            },
            _ => Stage::Done { result: Ok(()) },
        }
    }

    fn after_event(&self, stage: Stage, event: Event) -> (next: Stage)
        requires
            stage matches Stage::Delete { handles, next: at } ==> at < handles@.len(),
        ensures
            next@ == next_stage(self@, stage@, event@),
            next matches Stage::Delete { handles, next: at } ==> at < handles@.len(),
    {
        match (stage, event) {
            (Stage::AddTable, Event::Nft { reply }) => {
                match command_result(&reply, true) {
                    Ok(()) => Stage::AddChain,
                    Err(error) => self.after_setup(Err(error)),
                }
            },
            (Stage::AddChain, Event::Nft { reply }) => {
                match script_result(&reply) {
                    Ok(()) => self.after_setup(Ok(())),
                    Err(error) => {
                        if text_contains(error.as_str(), "exists") {
                            self.after_setup(Ok(()))
                        } else {
                            self.after_setup(Err(error))
                        }
                    },
                }
            },
            (Stage::Take, Event::Taken { handles }) => {
                match handles {
                    Some(list) => {
                        if list.len() == 0 {
                            Stage::ListOld
                        } else {
                            assert(list@.skip(0) =~= list@);
                            Stage::Delete { handles: list, next: 0 }
                        }
                    },
                    None => Stage::ListOld,
                }
            },
            (Stage::ListOld, Event::Nft { reply }) => {
                match find_rule_handles_by_marker(&reply, self.marker().as_str()) {
                    Ok(list) => {
                        assert(list@.skip(0) =~= list@);
                        self.deleting(list, 0)
                    },
                    Err(error) => Stage::Done { result: Err(error) },
                }
            },
            (Stage::Delete { handles, next: at }, Event::Nft { reply }) => {
                match command_result(&reply, false) {
                    Ok(()) => {
                        let size: usize = handles.len();
                        assert(at < size);
                        assert(handles@.skip(at as int).drop_first() =~= handles@.skip(at + 1));
                        self.deleting(handles, at + 1)
                    },
                    Err(error) => Stage::Done { result: Err(error) },
                }
            },
            (Stage::TcpLinks, Event::Links { targets }) => Stage::TcpTables {
                inodes: collect_socket_inodes(&targets),
            },
            (Stage::TcpTables { inodes }, Event::Tables { contents }) => Stage::UdpLinks {
                tcp: collect_net_table_ports(&contents, Some(&inodes)),
            },
            (Stage::UdpLinks { tcp }, Event::Links { targets }) => Stage::UdpTables {
                tcp,
                inodes: collect_socket_inodes(&targets),
            },
            (Stage::UdpTables { tcp, inodes }, Event::Tables { contents }) => {
                let udp = collect_net_table_ports(&contents, Some(&inodes));
                self.with_ports(&tcp, &udp)
            },
            (Stage::ReadUser, Event::Status { content }) => {
                match content {
                    Some(status) => self.with_user(uid_in_status(status.as_str())),
                    None => self.with_user(None),
                }
            },
            (Stage::Apply { .. }, Event::Nft { reply }) => {
                match script_result(&reply) {
                    Ok(()) => Stage::ListNew,
                    Err(error) => Stage::Done { result: Err(error) },
                }
            },
            (Stage::ListNew, Event::Nft { reply }) => {
                match find_rule_handles_by_marker(&reply, self.marker().as_str()) {
                    Ok(handles) => Stage::Keep { handles },
                    Err(error) => Stage::Done { result: Err(error) },
                }
            },
            (Stage::Keep { .. }, Event::Kept) => Stage::Done { result: Ok(()) },
            (Stage::FlushChain, Event::Nft { reply }) => {
                match command_result(&reply, false) {
                    Ok(()) => Stage::Forget,
                    Err(error) => Stage::Done { result: Err(error) },
                }
            },
            (Stage::Forget, Event::Forgotten) => Stage::Done { result: Ok(()) },
            (_, Event::MapPoisoned) => Stage::Done { result: Err("rules map poisoned".to_owned()) },
            (unchanged, _) => unchanged,
        }
    }
}

fn table_files(udp: bool) -> (paths: Vec<String>)
    ensures
        text::texts(paths@) == table_paths(udp),
{
    let mut paths: Vec<String> = Vec::new();
    if udp {
        paths.push("/proc/net/udp".to_owned());
        paths.push("/proc/net/udp6".to_owned());
    } else {
        paths.push("/proc/net/tcp".to_owned());
        paths.push("/proc/net/tcp6".to_owned());
    }
    assert(text::texts(paths@) =~= table_paths(udp));
    paths
}

fn same_result(result: &Result<(), String>) -> (same: Result<(), String>)
    ensures
        nft::outcome(same) == nft::outcome(*result),
{
    match result {
        Ok(()) => Ok(()),
        Err(error) => Err(error.clone()),
    }
}

fn same_handles(handles: &Vec<u64>) -> (same: Vec<u64>)
    ensures
        same@ == handles@,
{
    let mut same: Vec<u64> = Vec::new();
    let mut i: usize = 0;
    while i < handles.len()
        invariant
            i <= handles@.len(),
            same@ == handles@.take(i as int),
        decreases handles@.len() - i,
    {
        same.push(handles[i]);
        assert(same@ =~= handles@.take(i + 1));
        i += 1;
    }
    assert(same@ =~= handles@);
    same
}

impl Operation {
    #[verifier::type_invariant]
    spec fn inv(self) -> bool {
        &&& consistent(self@)
        &&& self.stage matches Stage::Delete { handles, next } ==> next < handles@.len()
    }

    /// The next thing to be done.
    pub fn action(&self) -> (action: Action)
        ensures
            action@ == next_action(self@),
    {
        proof {
            use_type_invariant(self);
        }
        match &self.stage {
            Stage::AddTable => Action::RunCommand { args: add_table_args() },
            Stage::AddChain => Action::RunScript { script: chain_script() },
            Stage::Take => Action::TakeHandles { key: self.goal.key() },
            Stage::ListOld => Action::RunCommand { args: list_args(true) },
            Stage::Delete { handles, next } => Action::RunCommand {
                args: delete_rule_args(handles[*next]),
            },
            Stage::TcpLinks => Action::ReadLinks { dir: self.goal.links_dir() },
            Stage::TcpTables { .. } => Action::ReadTables { paths: table_files(false) },
            Stage::UdpLinks { .. } => Action::ReadLinks { dir: self.goal.links_dir() },
            Stage::UdpTables { .. } => Action::ReadTables { paths: table_files(true) },
            Stage::ReadUser => Action::ReadStatus { path: self.goal.status_path() },
            Stage::Apply { script } => Action::RunScript { script: script.clone() },
            Stage::ListNew => Action::RunCommand { args: list_args(true) },
            Stage::Keep { handles } => Action::KeepHandles {
                key: self.goal.key(),
                handles: same_handles(handles),
            },
            Stage::FlushChain => Action::RunCommand { args: flush_args() },
            Stage::Forget => Action::ForgetAll,
            Stage::Done { result } => Action::Finish { result: same_result(result) },
        }
    }

    /// The operation after what came of its action.
    pub fn resume(self, event: Event) -> (next: Operation)
        requires
            answers(next_action(self@), event@),
        ensures
            next@ == step(self@, event@),
            consistent(next@),
    {
        proof {
            use_type_invariant(&self);
            step_is_consistent(self@, event@);
        }
        let stage = self.goal.after_event(self.stage, event);
        Operation { goal: self.goal, stage }
    }

    /// Does what the operation wants done to the registry, if that is the next
    /// thing to be done.
    pub fn settle(self, registry: &mut RuleRegistry) -> (next: Operation)
        requires
            old(registry).well_formed(),
        ensures
            final(registry).well_formed(),
            final(registry)@ == settled_registry(self@, old(registry)@),
            next@ == settled_operation(self@, old(registry)@),
    {
        match self.action() {
            Action::TakeHandles { key } => {
                let handles = registry.take_rule_handles(key.as_str());
                self.resume(Event::Taken { handles })
            },
            Action::KeepHandles { key, handles } => {
                registry.register_rule_handles(key.as_str(), handles);
                self.resume(Event::Kept)
            },
            Action::ForgetAll => {
                registry.clear();
                self.resume(Event::Forgotten)
            },
            _ => self,
        }
    }
}

/// An operation stays on the path of its goal.
pub proof fn step_is_consistent(operation: OperationView, event: EventView)
    requires
        consistent(operation),
        answers(next_action(operation), event),
    ensures
        consistent(step(operation, event)),
{
}

/// An operation that is to make rules, from its beginning.
pub open spec fn installing(target: Target, limit: Option<u32>, label: Seq<char>) -> OperationView {
    OperationView {
        goal: GoalView::Install { target, limit, label },
        stage: StageView::AddTable,
    }
}

/// An operation that is to remove rules, from its beginning.
pub open spec fn removing(target: Target, control: Control) -> OperationView {
    OperationView { goal: GoalView::Remove { target, control }, stage: StageView::Take }
}

fn install(target: Target, limit: Option<u32>, label: &str) -> (operation: Operation)
    ensures
        operation@ == installing(target, limit, label@),
{
    Operation {
        goal: Goal::Install { target, limit, label: label.to_owned() },
        stage: Stage::AddTable,
    }
}

fn remove(target: Target, control: Control) -> (operation: Operation)
    ensures
        operation@ == removing(target, control),
{
    Operation { goal: Goal::Remove { target, control }, stage: Stage::Take }
}

/// Makes the table and the chain to which all rules are added.
pub fn setup_nftables() -> (operation: Operation)
    ensures
        operation@ == (OperationView { goal: GoalView::Setup, stage: StageView::AddTable }),
{
    Operation { goal: Goal::Setup, stage: Stage::AddTable }
}

/// Drops what a process sends.
pub fn block_process(pid: u32, process_name: &str) -> (operation: Operation)
    ensures
        operation@ == installing(Target::Process { pid }, None, process_name@),
{
    install(Target::Process { pid }, None, process_name)
}

/// Ends the blocking of a process.
pub fn unblock_process(pid: u32) -> (operation: Operation)
    ensures
        operation@ == removing(Target::Process { pid }, Control::Block),
{
    remove(Target::Process { pid }, Control::Block)
}

/// Drops what a thread sends.
pub fn block_thread(pid: u32, tid: u32, thread_name: &str) -> (operation: Operation)
    ensures
        operation@ == installing(Target::Thread { pid, tid }, None, thread_name@),
{
    install(Target::Thread { pid, tid }, None, thread_name)
}

/// Ends the blocking of a thread.
pub fn unblock_thread(pid: u32, tid: u32) -> (operation: Operation)
    ensures
        operation@ == removing(Target::Thread { pid, tid }, Control::Block),
{
    remove(Target::Thread { pid, tid }, Control::Block)
}

/// Drops what a user sends.
pub fn block_user(uid: u32, username: &str) -> (operation: Operation)
    ensures
        operation@ == installing(Target::User { uid }, None, username@),
{
    install(Target::User { uid }, None, username)
}

/// Ends the blocking of a user.
pub fn unblock_user(uid: u32) -> (operation: Operation)
    ensures
        operation@ == removing(Target::User { uid }, Control::Block),
{
    remove(Target::User { uid }, Control::Block)
}

/// Drops what a process sends above a bandwidth in kbit/s.
pub fn rate_limit_process(pid: u32, rate_kbps: u32) -> (operation: Operation)
    ensures
        operation@ == installing(
            Target::Process { pid },
            Some(rules::packet_rate(rate_kbps as int) as u32),
            "rate-limit"@,
        ),
{
    install(
        Target::Process { pid },
        Some(kbps_to_packets_per_second(rate_kbps)),
        "rate-limit",
    )
}

/// Ends the limit on a process.
pub fn unlimit_process(pid: u32) -> (operation: Operation)
    ensures
        operation@ == removing(Target::Process { pid }, Control::Limit),
{
    remove(Target::Process { pid }, Control::Limit)
}

/// Drops what a thread sends above a bandwidth in kbit/s.
pub fn rate_limit_thread(pid: u32, tid: u32, rate_kbps: u32) -> (operation: Operation)
    ensures
        operation@ == installing(
            Target::Thread { pid, tid },
            Some(rules::packet_rate(rate_kbps as int) as u32),
            "rate-limit"@,
        ),
{
    install(
        Target::Thread { pid, tid },
        Some(kbps_to_packets_per_second(rate_kbps)),
        "rate-limit",
    )
}

/// Ends the limit on a thread.
pub fn unlimit_thread(pid: u32, tid: u32) -> (operation: Operation)
    ensures
        operation@ == removing(Target::Thread { pid, tid }, Control::Limit),
{
    remove(Target::Thread { pid, tid }, Control::Limit)
}

/// Drops what a user sends above a bandwidth in kbit/s.
pub fn rate_limit_user(uid: u32, rate_kbps: u32) -> (operation: Operation)
    ensures
        operation@ == installing(
            Target::User { uid },
            Some(rules::packet_rate(rate_kbps as int) as u32),
            "rate-limit"@,
        ),
{
    install(
        Target::User { uid },
        Some(kbps_to_packets_per_second(rate_kbps)),
        "rate-limit",
    )
}

/// Ends the limit on a user.
pub fn unlimit_user(uid: u32) -> (operation: Operation)
    ensures
        operation@ == removing(Target::User { uid }, Control::Limit),
{
    remove(Target::User { uid }, Control::Limit)
}

/// Deletes all rules of the chain.
pub fn unblock_all() -> (operation: Operation)
    ensures
        operation@ == (OperationView { goal: GoalView::Flush, stage: StageView::FlushChain }),
{
    Operation { goal: Goal::Flush, stage: Stage::FlushChain }
}

} // verus!
