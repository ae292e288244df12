//! What holds of the operations of the controller as a whole.

use vstd::prelude::*;

use crate::controller::nft;
use crate::controller::operation;
use crate::controller::operation::{
    ActionView, EventView, GoalView, OperationView, StageView,
};
use crate::controller::procfs;
use crate::controller::rules;
use crate::controller::scope;
use crate::controller::scope::{Control, Target};
use crate::decimal;
use crate::scan;
use crate::text;

verus! {

/// The operation after several events.
pub open spec fn run(operation: OperationView, events: Seq<EventView>) -> OperationView
    decreases events.len(),
{
    if events.len() == 0 {
        operation
    } else {
        operation::step(run(operation, events.drop_last()), events.last())
    }
}

/// How many kinds of steps lie between a stage and the end.
pub open spec fn stages_left(stage: StageView) -> nat {
    match stage {
        StageView::AddTable => 13,
        StageView::AddChain => 12,
        StageView::Take => 11,
        StageView::ListOld => 10,
        StageView::Delete { .. } => 9,
        StageView::TcpLinks => 8,
        StageView::TcpTables { .. } => 7,
        StageView::UdpLinks { .. } => 6,
        StageView::UdpTables { .. } => 5,
        StageView::ReadUser => 4,
        StageView::Apply { .. } => 3,
        StageView::ListNew => 2,
        StageView::Keep { .. } => 1,
        StageView::FlushChain => 2,
        StageView::Forget => 1,
        StageView::Done { .. } => 0,
    }
}

/// How many rules there are still to be deleted at a stage.
pub open spec fn deletions_left(stage: StageView) -> nat {
    match stage {
        StageView::Delete { rest } => rest.len(),
        _ => 0,
    }
}

/// Every operation ends: each answer brings it to a later stage, or leaves it
/// with one rule less to delete.
pub proof fn every_answer_brings_the_end_nearer(operation: OperationView, event: EventView)
    requires
        operation::consistent(operation),
        operation::answers(operation::next_action(operation), event),
    ensures
        ({
            let next = operation::step(operation, event);
            ||| stages_left(next.stage) < stages_left(operation.stage)
            ||| stages_left(next.stage) == stages_left(operation.stage) && deletions_left(
                next.stage,
            ) < deletions_left(operation.stage)
        }),
{
}

/// An operation that is to make rules does not depend on making the table and
/// the chain: whatever came of that, it goes on.
pub proof fn setup_errors_stop_no_installation(operation: OperationView, event: EventView)
    requires
        operation.goal is Install,
        operation.stage is AddTable || operation.stage is AddChain,
        operation::answers(operation::next_action(operation), event),
    ensures
        ({
            let next = operation::step(operation, event).stage;
            next is Take || (operation.stage is AddTable && next is AddChain)
        }),
{
}

/// Setting up again does no harm: where nft takes the table and the chain once
/// more, or complains of them only that they are there already, the operation
/// ends well.
pub proof fn setting_up_again_does_no_harm(table: nft::ReplyView, chain: nft::ReplyView)
    requires
        nft::command_outcome(table, true) == nft::Outcome::Done,
        match nft::script_outcome(chain) {
            nft::Outcome::Done => true,
            nft::Outcome::Refused { error } => nft::says_exists(error),
        },
    ensures
        run(
            OperationView { goal: GoalView::Setup, stage: StageView::AddTable },
            seq![EventView::Nft { reply: table }, EventView::Nft { reply: chain }],
        ).stage == (StageView::Done { outcome: nft::Outcome::Done }),
{
    let start = OperationView { goal: GoalView::Setup, stage: StageView::AddTable };
    let events = seq![EventView::Nft { reply: table }, EventView::Nft { reply: chain }];
    run_goes_on(start, events, 1);
    run_goes_on(start, events, 2);
    assert(events.take(0) =~= Seq::empty());
    assert(events.take(2) =~= events);
}

/// New rules are made only when all earlier ones of the scope are gone: while
/// any is left the operation goes on deleting, and a refused deletion ends it
/// with the error.
pub proof fn old_rules_go_first(operation: OperationView, reply: nft::ReplyView)
    requires
        operation.stage is Delete,
    ensures
        ({
            let next = operation::step(operation, EventView::Nft { reply }).stage;
            let rest = operation.stage->rest.drop_first();
            match nft::command_outcome(reply, false) {
                nft::Outcome::Done => rest.len() > 0 ==> next == (StageView::Delete { rest }),
                nft::Outcome::Refused { error } => next == (StageView::Done {
                    outcome: nft::Outcome::Refused { error },
                }),
            }
        }),
{
}

/// An operation that made rules ends well only once they are in the registry.
pub proof fn success_means_rules_were_kept(operation: OperationView, event: EventView)
    requires
        operation::consistent(operation),
        operation::answers(operation::next_action(operation), event),
        operation.goal is Install,
        operation::step(operation, event).stage == (StageView::Done {
            outcome: nft::Outcome::Done,
        }),
    ensures
        operation.stage is Keep,
        event is Kept,
{
}

proof fn deletions_run_through(goal: GoalView, handles: Seq<u64>, replies: Seq<EventView>, n: int)
    requires
        goal is Install || goal is Remove,
        0 <= n <= handles.len(),
        replies.len() == handles.len(),
        forall|i: int|
            0 <= i < replies.len() ==> (#[trigger] replies[i] matches EventView::Nft { reply }
                && nft::command_outcome(reply, false) == nft::Outcome::Done),
    ensures
        run(
            OperationView { goal, stage: operation::deleting(goal, handles) },
            replies.take(n),
        ) == (OperationView { goal, stage: operation::deleting(goal, handles.skip(n)) }),
    decreases n,
{
    if n == 0 {
        assert(handles.skip(0) =~= handles);
    } else {
        deletions_run_through(goal, handles, replies, n - 1);
        assert(replies.take(n).drop_last() =~= replies.take(n - 1));
        assert(replies.take(n).last() == replies[n - 1]);
        assert(handles.skip(n - 1).drop_first() =~= handles.skip(n));
    }
}

/// The rules that an operation finds in the registry are the ones that it
/// deletes: each of them, in order, and no other.  When all deletions have
/// gone through, an operation that is to remove rules ends well.
pub proof fn removal_deletes_exactly_the_kept_rules(
    target: Target,
    control: Control,
    handles: Seq<u64>,
    replies: Seq<EventView>,
)
    requires
        handles.len() > 0,
        replies.len() == handles.len(),
        forall|i: int|
            0 <= i < replies.len() ==> (#[trigger] replies[i] matches EventView::Nft { reply }
                && nft::command_outcome(reply, false) == nft::Outcome::Done),
    ensures
        ({
            let start = operation::step(
                operation::removing(target, control),
                EventView::Taken { handles: Some(handles) },
            );
            &&& forall|i: int|
                0 <= i < handles.len() ==> operation::next_action(
                    #[trigger] run(start, replies.take(i)),
                ) == (ActionView::RunCommand { args: rules::delete_rule_words(handles[i]) })
            &&& run(start, replies).stage == (StageView::Done { outcome: nft::Outcome::Done })
        }),
{
    let goal = GoalView::Remove { target, control };
    let start = operation::step(
        operation::removing(target, control),
        EventView::Taken { handles: Some(handles) },
    );
    assert(start == OperationView { goal, stage: operation::deleting(goal, handles) });
    assert forall|i: int| 0 <= i < handles.len() implies operation::next_action(
        #[trigger] run(start, replies.take(i)),
    ) == (ActionView::RunCommand { args: rules::delete_rule_words(handles[i]) }) by {
        deletions_run_through(goal, handles, replies, i);
        assert(handles.skip(i)[0] == handles[i]);
    }
    deletions_run_through(goal, handles, replies, handles.len() as int);
    assert(replies.take(handles.len() as int) =~= replies);
}

/// Removing undoes making: an operation that removes the rules of a target
/// finds in the registry the very rules that were kept when they were made,
/// and leaves the registry as if they had never been.
pub proof fn removal_finds_what_was_kept(
    target: Target,
    limit: Option<u32>,
    label: Seq<char>,
    handles: Seq<u64>,
    registry: Map<Seq<char>, Seq<u64>>,
)
    requires
        handles.len() > 0,
        !registry.dom().contains(scope::target_key(target, operation::control_of(limit))),
    ensures
        ({
            let made = OperationView {
                goal: GoalView::Install { target, limit, label },
                stage: StageView::Keep { handles },
            };
            let kept = operation::settled_registry(made, registry);
            let undo = operation::removing(target, operation::control_of(limit));
            &&& operation::settled_operation(made, registry).stage == (StageView::Done {
                outcome: nft::Outcome::Done,
            })
            &&& operation::settled_operation(undo, kept).stage == (StageView::Delete {
                rest: handles,
            })
            &&& operation::settled_registry(undo, kept) == registry
        }),
{
    let key = scope::target_key(target, operation::control_of(limit));
    assert(registry.insert(key, handles).remove(key) =~= registry);
}

/// Operations on one target leave what is kept for others alone.
pub proof fn other_scopes_are_left_alone(
    operation: OperationView,
    registry: Map<Seq<char>, Seq<u64>>,
    target: Target,
    control: Control,
)
    requires
        operation.goal matches GoalView::Install { target: own, limit, .. } ==> own != target
            || operation::control_of(limit) != control,
        operation.goal matches GoalView::Remove { target: own, control: own_control } ==> own
            != target || own_control != control,
        !(operation.goal is Flush),
        operation::consistent(operation),
    ensures
        ({
            let key = scope::target_key(target, control);
            let after = operation::settled_registry(operation, registry);
            &&& after.dom().contains(key) == registry.dom().contains(key)
            &&& after.dom().contains(key) ==> after[key] == registry[key]
        }),
{
    let key = scope::target_key(target, control);
    match operation.goal {
        GoalView::Install { target: own, limit, .. } => {
            if operation::goal_key(operation.goal) == key {
                scope::keys_tell_targets_apart(own, operation::control_of(limit), target, control);
            }
        },
        GoalView::Remove { target: own, control: own_control } => {
            if operation::goal_key(operation.goal) == key {
                scope::keys_tell_targets_apart(own, own_control, target, control);
            }
        },
        _ => {},
    }
}

/// Flushing leaves nothing in the registry, and ends well.
pub proof fn flushing_forgets_everything(registry: Map<Seq<char>, Seq<u64>>)
    ensures
        ({
            let flushed = OperationView { goal: GoalView::Flush, stage: StageView::Forget };
            &&& operation::settled_registry(flushed, registry) == Map::<
                Seq<char>,
                Seq<u64>,
            >::empty()
            &&& operation::settled_operation(flushed, registry).stage == (StageView::Done {
                outcome: nft::Outcome::Done,
            })
        }),
{
}

/// What is made for a process or a thread rests on its own sockets: on the
/// local ports, in the tables of each protocol, of the sockets among its open
/// files.
pub proof fn rules_rest_on_own_sockets(
    goal: GoalView,
    tcp_links: Seq<Seq<char>>,
    tcp_tables: Seq<Option<Seq<char>>>,
    udp_links: Seq<Seq<char>>,
    udp_tables: Seq<Option<Seq<char>>>,
)
    ensures
        run(
            OperationView { goal, stage: StageView::TcpLinks },
            seq![
                EventView::Links { targets: tcp_links },
                EventView::Tables { contents: tcp_tables },
                EventView::Links { targets: udp_links },
                EventView::Tables { contents: udp_tables },
            ],
        ).stage == operation::with_ports(
            goal,
            procfs::ports_in_tables(tcp_tables, Some(procfs::inodes_in_links(tcp_links))),
            procfs::ports_in_tables(udp_tables, Some(procfs::inodes_in_links(udp_links))),
        ),
{
    let events = seq![
        EventView::Links { targets: tcp_links },
        EventView::Tables { contents: tcp_tables },
        EventView::Links { targets: udp_links },
        EventView::Tables { contents: udp_tables },
    ];
    let start = OperationView { goal, stage: StageView::TcpLinks };
    run_goes_on(start, events, 1);
    run_goes_on(start, events, 2);
    run_goes_on(start, events, 3);
    run_goes_on(start, events, 4);
    assert(events.take(0) =~= Seq::empty());
    assert(events.take(4) =~= events);
}

proof fn run_goes_on(start: OperationView, events: Seq<EventView>, n: int)
    requires
        0 < n <= events.len(),
    ensures
        run(start, events.take(n)) == operation::step(
            run(start, events.take(n - 1)),
            events[n - 1],
        ),
{
    assert(events.take(n).drop_last() =~= events.take(n - 1));
}

/// Rules that nft accepts are installed: the handles under which it then lists
/// them are kept, and the operation ends well.
pub proof fn accepted_rules_are_installed(
    goal: GoalView,
    script: Seq<char>,
    accepted: nft::ReplyView,
    listing: nft::ReplyView,
    handles: Seq<u64>,
)
    requires
        goal is Install,
        nft::script_outcome(accepted) == nft::Outcome::Done,
        nft::listing_found(listing, scope::marker_text(operation::goal_key(goal)))
            == (nft::Found::Handles { handles }),
    ensures
        ({
            let start = OperationView { goal, stage: StageView::Apply { script } };
            let events = seq![
                EventView::Nft { reply: accepted },
                EventView::Nft { reply: listing },
                EventView::Kept,
            ];
            &&& operation::next_action(run(start, events.take(2))) == (ActionView::KeepHandles {
                key: operation::goal_key(goal),
                handles,
            })
            &&& run(start, events).stage == (StageView::Done { outcome: nft::Outcome::Done })
        }),
{
    let start = OperationView { goal, stage: StageView::Apply { script } };
    let events = seq![
        EventView::Nft { reply: accepted },
        EventView::Nft { reply: listing },
        EventView::Kept,
    ];
    run_goes_on(start, events, 1);
    run_goes_on(start, events, 2);
    run_goes_on(start, events, 3);
    assert(events.take(0) =~= Seq::empty());
    assert(events.take(3) =~= events);
}

proof fn part_of_front(front: Seq<char>, back: Seq<char>, part: Seq<char>)
    requires
        text::has_part(front, part),
    ensures
        text::has_part(front + back, part),
{
    let at = choose|at: int| text::occurs_at(front, part, at);
    assert((front + back).subrange(at, at + part.len()) =~= front.subrange(at, at + part.len()));
    assert(text::occurs_at(front + back, part, at));
}

proof fn part_of_back(front: Seq<char>, back: Seq<char>, part: Seq<char>)
    requires
        text::has_part(back, part),
    ensures
        text::has_part(front + back, part),
{
    let at = choose|at: int| text::occurs_at(back, part, at);
    let there = front.len() + at;
    assert((front + back).subrange(there, there + part.len()) =~= back.subrange(
        at,
        at + part.len(),
    ));
    assert(text::occurs_at(front + back, part, there));
}

/// Every script that an operation applies names its scope, but for the empty
/// one: so the rules that it makes can be found again by their marker.
pub proof fn scripts_carry_the_marker(operation: OperationView, event: EventView)
    requires
        operation::consistent(operation),
        operation::answers(operation::next_action(operation), event),
        operation::step(operation, event).stage is Apply,
    ensures
        ({
            let script = operation::step(operation, event).stage->script;
            script.len() == 0 || text::has_part(
                script,
                scope::marker_text(operation::goal_key(operation.goal)),
            )
        }),
{
    let goal = operation.goal;
    let script = operation::step(operation, event).stage->script;
    let key = operation::goal_key(goal);
    let marker = scope::marker_text(key);
    if let GoalView::Install { target, limit, label } = goal {
        let comment = scope::comment_text(key, label);
        match operation.stage {
            StageView::UdpTables { tcp, .. } => {
                let udp = procfs::ports_in_tables(
                    event->contents,
                    Some(operation.stage->UdpTables_inodes),
                );
                if !(tcp.is_empty() && udp.is_empty()) {
                    let first = if tcp.is_empty() {
                        Seq::empty()
                    } else {
                        rules::port_rule("tcp"@, tcp, limit, comment)
                    };
                    let second = if udp.is_empty() {
                        Seq::empty()
                    } else {
                        rules::port_rule("udp"@, udp, limit, comment)
                    };
                    assert(script == first + second);
                    rules::rules_carry_marker(key, label, "tcp"@, tcp, 0, limit);
                    rules::rules_carry_marker(key, label, "udp"@, udp, 0, limit);
                    if !tcp.is_empty() {
                        part_of_front(first, second, marker);
                    } else {
                        part_of_back(first, second, marker);
                    }
                }
            },
            StageView::ReadUser => {
                let uid = choose|uid: u32| script == rules::user_rule_text(uid, limit, comment);
                rules::rules_carry_marker(key, label, "tcp"@, Set::empty(), uid, limit);
            },
            _ => {
                if let Target::User { uid } = target {
                    rules::rules_carry_marker(key, label, "tcp"@, Set::empty(), uid, limit);
                }
            },
        }
    }
}

/// A rule of a scope is found in the listing: in a line that ends as nft ends
/// the line of a rule, the marker of the scope leads to the handle of the rule,
/// whatever stands before the comment and whatever the label says.
pub proof fn listed_rules_are_found(
    front: Seq<char>,
    key: Seq<char>,
    label: Seq<char>,
    handle: u64,
)
    ensures
        nft::handle_in_line(
            front + rules::drop_text(scope::comment_text(key, label)) + " # handle "@
                + decimal::decimal(handle as nat),
            scope::marker_text(key),
        ) == Some(handle),
{
    reveal_strlit(" # handle ");
    reveal_strlit("handle ");
    let marker = scope::marker_text(key);
    let digits = decimal::decimal(handle as nat);
    let body = front + rules::drop_text(scope::comment_text(key, label));
    let line = body + " # handle "@ + digits;
    let word = "handle "@;
    decimal::decimal_is_digits(handle as nat);
    scope::comment_carries_marker(key, label);
    part_of_front(scope::comment_text(key, label), "\""@, marker);
    part_of_back("drop comment \""@, scope::comment_text(key, label) + "\""@, marker);
    assert(rules::drop_text(scope::comment_text(key, label)) =~= "drop comment \""@ + (
    scope::comment_text(key, label) + "\""@));
    part_of_back(front, rules::drop_text(scope::comment_text(key, label)), marker);
    part_of_front(body, " # handle "@ + digits, marker);
    assert(line =~= body + (" # handle "@ + digits));
    let at = body.len() as int + 3;
    assert(line.subrange(at, at + 7) =~= word);
    assert(text::occurs_at(line, word, at));
    assert forall|later: int| at < later implies !text::occurs_at(line, word, later) by {
        if text::occurs_at(line, word, later) {
            assert(line.subrange(later, later + 7)[0] == line[later]);
            assert(line.subrange(later, later + 7)[6] == line[later + 6]);
            assert(line[later + 6] == ' ');
            assert(line[later + 6] == digits[later + 6 - body.len() - 10]);
        }
    }
    let chosen = choose|place: int| text::is_last_place(line, word, place);
    assert(text::is_last_place(line, word, at));
    assert(chosen == at);
    assert(line.skip(at + 7) =~= digits);
    digits_need_no_trimming(digits);
    decimal::decimal_parses(handle as nat, 0xffff_ffff_ffff_ffff);
}

proof fn digits_need_no_trimming(digits: Seq<char>)
    requires
        digits.len() > 0,
        forall|i: int| 0 <= i < digits.len() ==> '0' <= #[trigger] digits[i] <= '9',
    ensures
        scan::trimmed(digits) == digits,
{
    assert(!scan::is_space(digits[digits.len() - 1]));
    assert(digits.take(digits.len() as int) =~= digits);
    assert(!scan::is_space(digits[0]));
    assert(digits.skip(0) =~= digits);
}

} // verus!
