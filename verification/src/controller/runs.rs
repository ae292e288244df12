//! What operations do, from their beginning to their end.

use vstd::prelude::*;

use crate::controller::laws;
use crate::controller::nft;
use crate::controller::operation;
use crate::controller::operation::{
    ActionView, EventView, GoalView, OperationView, StageView,
};
use crate::controller::procfs;
use crate::controller::rules;
use crate::controller::scope;
use crate::controller::scope::{Control, Target};
use crate::decimal;
use crate::scan;
use crate::text;

verus! {

/// What an operation has done after the first `n` events.
pub open spec fn action_after(
    start: OperationView,
    events: Seq<EventView>,
    n: int,
) -> ActionView {
    operation::next_action(laws::run(start, events.take(n)))
}

proof fn one_event_more(start: OperationView, events: Seq<EventView>, n: int)
    requires
        0 < n <= events.len(),
    ensures
        laws::run(start, events.take(n)) == operation::step(
            laws::run(start, events.take(n - 1)),
            events[n - 1],
        ),
{
    assert(events.take(n).drop_last() =~= events.take(n - 1));
}

proof fn no_event_yet(start: OperationView, events: Seq<EventView>)
    ensures
        laws::run(start, events.take(0)) == start,
{
    assert(events.take(0) =~= Seq::empty());
}

/// nft ran to its end and took what it was given.
pub open spec fn taken(reply: nft::ReplyView) -> bool {
    reply matches nft::ReplyView::Finished { success, .. } && success
}

/// nft listed the chain, and the marker stands nowhere in the listing.
pub open spec fn lists_nothing_of(reply: nft::ReplyView, marker: Seq<char>) -> bool {
    reply matches nft::ReplyView::Finished { success: true, stdout, .. } && forall|i: int|
        0 <= i < scan::lines(stdout).len() ==> !text::has_part(
            #[trigger] scan::lines(stdout)[i],
            marker,
        )
}

/// The control that rules with the given limit, or with none, exert.
pub open spec fn kind_of_control(limited: bool) -> Control {
    if limited {
        Control::Limit
    } else {
        Control::Block
    }
}

/// The directory with the open files of a process or a thread.
pub open spec fn open_files_of(target: Target) -> Seq<char> {
    match target {
        Target::Process { pid } => "/proc/"@ + decimal::decimal(pid as nat) + "/fd"@,
        Target::Thread { pid, tid } => "/proc/"@ + decimal::decimal(pid as nat) + "/task/"@
            + decimal::decimal(tid as nat) + "/fd"@,
        Target::User { .. } => Seq::empty(),
    }
}

proof fn nothing_listed_nothing_deleted(reply: nft::ReplyView, marker: Seq<char>)
    requires
        lists_nothing_of(reply, marker),
    ensures
        nft::listing_found(reply, marker) == (nft::Found::Handles { handles: Seq::empty() }),
{
    if let nft::ReplyView::Finished { stdout, .. } = reply {
        nft::unmarked_listings_yield_nothing(scan::lines(stdout), marker);
        assert(nft::handles_in_lines(scan::lines(stdout), marker) =~= Seq::empty());
    }
}

/// The events up to where an installation has found that nothing was in place
/// for its scope.
pub open spec fn nothing_in_place(
    table: nft::ReplyView,
    chain: nft::ReplyView,
    old_rules: nft::ReplyView,
) -> Seq<EventView> {
    seq![
        EventView::Nft { reply: table },
        EventView::Nft { reply: chain },
        EventView::Taken { handles: None },
        EventView::Nft { reply: old_rules },
    ]
}

/// Every installation begins in the same way: it makes the table and the
/// chain, takes what is kept for its scope, and, where that is nothing, lists
/// the chain with the handles.
pub proof fn installations_begin_alike(
    target: Target,
    limit: Option<u32>,
    label: Seq<char>,
    table: nft::ReplyView,
    chain: nft::ReplyView,
    old_rules: nft::ReplyView,
    later: Seq<EventView>,
)
    requires
        taken(table),
        lists_nothing_of(
            old_rules,
            scope::marker_text(scope::target_key(target, kind_of_control(limit is Some))),
        ),
    ensures
        ({
            let start = operation::installing(target, limit, label);
            let events = nothing_in_place(table, chain, old_rules) + later;
            &&& action_after(start, events, 0) == (ActionView::RunCommand {
                args: seq!["add"@, "table"@, "inet"@, "filter"@],
            })
            &&& action_after(start, events, 1) == (ActionView::RunScript {
                script:
                    "\nadd chain inet filter output {\n    type filter hook output priority 0;\n    policy accept;\n}\n"@,
            })
            &&& action_after(start, events, 2) == (ActionView::TakeHandles {
                key: scope::target_key(target, kind_of_control(limit is Some)),
            })
            &&& action_after(start, events, 3) == (ActionView::RunCommand {
                args: seq!["-a"@, "list"@, "chain"@, "inet"@, "filter"@, "output"@],
            })
            &&& laws::run(start, events.take(4)) == (OperationView {
                goal: GoalView::Install { target, limit, label },
                stage: operation::after_removal(GoalView::Install { target, limit, label }),
            })
        }),
{
    let start = operation::installing(target, limit, label);
    let events = nothing_in_place(table, chain, old_rules) + later;
    let goal = GoalView::Install { target, limit, label };
    let marker = scope::marker_text(operation::goal_key(goal));
    assert(operation::control_of(limit) == kind_of_control(limit is Some));
    nothing_listed_nothing_deleted(old_rules, marker);
    no_event_yet(start, events);
    one_event_more(start, events, 1);
    one_event_more(start, events, 2);
    one_event_more(start, events, 3);
    one_event_more(start, events, 4);
    assert(events[0] == EventView::Nft { reply: table });
    assert(events[1] == EventView::Nft { reply: chain });
    assert(events[2] == EventView::Taken { handles: None });
    assert(events[3] == EventView::Nft { reply: old_rules });
}

/// The comment of the rules of an installation.
pub open spec fn comment_of(target: Target, limited: bool, label: Seq<char>) -> Seq<char> {
    scope::comment_text(scope::target_key(target, kind_of_control(limited)), label)
}

proof fn labels_bring_the_line_feeds(target: Target, limited: bool, label: Seq<char>)
    requires
        !label.contains('\n'),
    ensures
        !comment_of(target, limited, label).contains('\n'),
{
    scope::comments_hold_no_line_feed(target, kind_of_control(limited), label);
}

/// The events of looking for the ports of a process or a thread.
pub open spec fn looking_for_ports(
    tcp_links: Seq<Seq<char>>,
    tcp_tables: Seq<Option<Seq<char>>>,
    udp_links: Seq<Seq<char>>,
    udp_tables: Seq<Option<Seq<char>>>,
) -> Seq<EventView> {
    seq![
        EventView::Links { targets: tcp_links },
        EventView::Tables { contents: tcp_tables },
        EventView::Links { targets: udp_links },
        EventView::Tables { contents: udp_tables },
    ]
}

/// The ports of the sockets among the open files.
pub open spec fn own_ports(
    links: Seq<Seq<char>>,
    tables: Seq<Option<Seq<char>>>,
) -> Set<u16> {
    procfs::ports_in_tables(tables, Some(procfs::inodes_in_links(links)))
}

proof fn ports_are_looked_for(
    target: Target,
    limit: Option<u32>,
    label: Seq<char>,
    before: Seq<EventView>,
    tcp_links: Seq<Seq<char>>,
    tcp_tables: Seq<Option<Seq<char>>>,
    udp_links: Seq<Seq<char>>,
    udp_tables: Seq<Option<Seq<char>>>,
    later: Seq<EventView>,
)
    requires
        !(target is User),
        laws::run(operation::installing(target, limit, label), before) == (OperationView {
            goal: GoalView::Install { target, limit, label },
            stage: StageView::TcpLinks,
        }),
    ensures
        ({
            let start = operation::installing(target, limit, label);
            let events = before + looking_for_ports(
                tcp_links,
                tcp_tables,
                udp_links,
                udp_tables,
            ) + later;
            let n = before.len() as int;
            let goal = GoalView::Install { target, limit, label };
            &&& action_after(start, events, n) == (ActionView::ReadLinks {
                dir: open_files_of(target),
            })
            &&& action_after(start, events, n + 1) == (ActionView::ReadTables {
                paths: seq!["/proc/net/tcp"@, "/proc/net/tcp6"@],
            })
            &&& action_after(start, events, n + 2) == (ActionView::ReadLinks {
                dir: open_files_of(target),
            })
            &&& action_after(start, events, n + 3) == (ActionView::ReadTables {
                paths: seq!["/proc/net/udp"@, "/proc/net/udp6"@],
            })
            &&& laws::run(start, events.take(n + 4)) == (OperationView {
                goal,
                stage: operation::with_ports(
                    goal,
                    own_ports(tcp_links, tcp_tables),
                    own_ports(udp_links, udp_tables),
                ),
            })
        }),
{
    let start = operation::installing(target, limit, label);
    let search = looking_for_ports(tcp_links, tcp_tables, udp_links, udp_tables);
    let events = before + search + later;
    let n = before.len() as int;
    assert(events.take(n) =~= before);
    one_event_more(start, events, n + 1);
    one_event_more(start, events, n + 2);
    one_event_more(start, events, n + 3);
    one_event_more(start, events, n + 4);
    assert(events[n] == search[0]);
    assert(events[n + 1] == search[1]);
    assert(events[n + 2] == search[2]);
    assert(events[n + 3] == search[3]);
}

/// The events of putting rules in place.
pub open spec fn putting_in_place(
    accepted: nft::ReplyView,
    new_rules: nft::ReplyView,
) -> Seq<EventView> {
    seq![
        EventView::Nft { reply: accepted },
        EventView::Nft { reply: new_rules },
        EventView::Kept,
    ]
}

proof fn scripts_are_put_in_place(
    start: OperationView,
    before: Seq<EventView>,
    goal: GoalView,
    script: Seq<char>,
    accepted: nft::ReplyView,
    new_rules: nft::ReplyView,
)
    requires
        goal is Install,
        laws::run(start, before) == (OperationView { goal, stage: StageView::Apply { script } }),
        taken(accepted),
        taken(new_rules),
    ensures
        ({
            let events = before + putting_in_place(accepted, new_rules);
            let n = before.len() as int;
            &&& action_after(start, events, n) == (ActionView::RunScript { script })
            &&& action_after(start, events, n + 1) == (ActionView::RunCommand {
                args: seq!["-a"@, "list"@, "chain"@, "inet"@, "filter"@, "output"@],
            })
            &&& action_after(start, events, n + 2) == (ActionView::KeepHandles {
                key: operation::goal_key(goal),
                handles: nft::handles_in_lines(
                    scan::lines(new_rules->stdout),
                    scope::marker_text(operation::goal_key(goal)),
                ),
            })
            &&& action_after(start, events, n + 3) == (ActionView::Finish {
                outcome: nft::Outcome::Done,
            })
        }),
{
    let events = before + putting_in_place(accepted, new_rules);
    let n = before.len() as int;
    assert(events.take(n) =~= before);
    one_event_more(start, events, n + 1);
    one_event_more(start, events, n + 2);
    one_event_more(start, events, n + 3);
    assert(events[n] == EventView::Nft { reply: accepted });
    assert(events[n + 1] == EventView::Nft { reply: new_rules });
    assert(events[n + 2] == EventView::Kept);
}

/// A process or a thread with ports is blocked, or limited, by its ports: of
/// the sockets among its open files, all that the tables of both protocols
/// list, of either version, are looked up, and a script that drops what is sent
/// from them, with a line for each protocol that has any, is run.  The rules
/// that nft then lists for the scope are kept, and the operation ends well.
#[verifier::rlimit(40)]
pub proof fn ports_are_blocked_or_limited(
    target: Target,
    limit: Option<u32>,
    label: Seq<char>,
    table: nft::ReplyView,
    chain: nft::ReplyView,
    old_rules: nft::ReplyView,
    tcp_links: Seq<Seq<char>>,
    tcp_tables: Seq<Option<Seq<char>>>,
    udp_links: Seq<Seq<char>>,
    udp_tables: Seq<Option<Seq<char>>>,
    accepted: nft::ReplyView,
    new_rules: nft::ReplyView,
)
    requires
        !(target is User),
        !label.contains('\n'),
        taken(table),
        lists_nothing_of(
            old_rules,
            scope::marker_text(scope::target_key(target, kind_of_control(limit is Some))),
        ),
        !own_ports(tcp_links, tcp_tables).is_empty() || !own_ports(
            udp_links,
            udp_tables,
        ).is_empty(),
        taken(accepted),
        taken(new_rules),
    ensures
        ({
            let start = operation::installing(target, limit, label);
            let events = nothing_in_place(table, chain, old_rules) + looking_for_ports(
                tcp_links,
                tcp_tables,
                udp_links,
                udp_tables,
            ) + putting_in_place(accepted, new_rules);
            let key = scope::target_key(target, kind_of_control(limit is Some));
            &&& action_after(start, events, 4) == (ActionView::ReadLinks {
                dir: open_files_of(target),
            })
            &&& action_after(start, events, 5) == (ActionView::ReadTables {
                paths: seq!["/proc/net/tcp"@, "/proc/net/tcp6"@],
            })
            &&& action_after(start, events, 6) == (ActionView::ReadLinks {
                dir: open_files_of(target),
            })
            &&& action_after(start, events, 7) == (ActionView::ReadTables {
                paths: seq!["/proc/net/udp"@, "/proc/net/udp6"@],
            })
            &&& action_after(start, events, 8) matches ActionView::RunScript { script }
            &&& script.len() > 0
            &&& rules::covers_ports(
                script,
                own_ports(tcp_links, tcp_tables),
                own_ports(udp_links, udp_tables),
                limit,
                comment_of(target, limit is Some, label),
            )
            &&& action_after(start, events, 9) == (ActionView::RunCommand {
                args: seq!["-a"@, "list"@, "chain"@, "inet"@, "filter"@, "output"@],
            })
            &&& action_after(start, events, 10) == (ActionView::KeepHandles {
                key,
                handles: nft::handles_in_lines(
                    scan::lines(new_rules->stdout),
                    scope::marker_text(key),
                ),
            })
            &&& action_after(start, events, 11) == (ActionView::Finish {
                outcome: nft::Outcome::Done,
            })
        }),
{
    let start = operation::installing(target, limit, label);
    let goal = GoalView::Install { target, limit, label };
    let first = nothing_in_place(table, chain, old_rules);
    let search = looking_for_ports(tcp_links, tcp_tables, udp_links, udp_tables);
    let last = putting_in_place(accepted, new_rules);
    let events = first + search + last;
    let tcp = own_ports(tcp_links, tcp_tables);
    let udp = own_ports(udp_links, udp_tables);
    let comment = comment_of(target, limit is Some, label);
    installations_begin_alike(target, limit, label, table, chain, old_rules, search + last);
    assert(first + (search + last) =~= events);
    assert(events.take(4) =~= first);
    ports_are_looked_for(
        target,
        limit,
        label,
        first,
        tcp_links,
        tcp_tables,
        udp_links,
        udp_tables,
        last,
    );
    labels_bring_the_line_feeds(target, limit is Some, label);
    rules::rules_cover_both_protocols(tcp, udp, limit, comment);
    assert(operation::goal_comment(goal) == comment);
    let script = rules::port_rules(tcp, udp, limit, comment);
    assert(events.take(8) =~= first + search);
    scripts_are_put_in_place(start, first + search, goal, script, accepted, new_rules);
    assert((first + search) + last =~= events);
}

/// A process without ports is blocked, or limited, by the user to whom it
/// belongs, as its status says; where that says nothing, the operation ends
/// with an error that names the process.
pub proof fn processes_without_ports_go_by_their_user(
    pid: u32,
    limit: Option<u32>,
    label: Seq<char>,
    table: nft::ReplyView,
    chain: nft::ReplyView,
    old_rules: nft::ReplyView,
    tcp_links: Seq<Seq<char>>,
    tcp_tables: Seq<Option<Seq<char>>>,
    udp_links: Seq<Seq<char>>,
    udp_tables: Seq<Option<Seq<char>>>,
    status: Option<Seq<char>>,
)
    requires
        taken(table),
        lists_nothing_of(
            old_rules,
            scope::marker_text(
                scope::target_key(Target::Process { pid }, kind_of_control(limit is Some)),
            ),
        ),
        own_ports(tcp_links, tcp_tables).is_empty(),
        own_ports(udp_links, udp_tables).is_empty(),
    ensures
        ({
            let target = Target::Process { pid };
            let start = operation::installing(target, limit, label);
            let events = nothing_in_place(table, chain, old_rules) + looking_for_ports(
                tcp_links,
                tcp_tables,
                udp_links,
                udp_tables,
            ) + seq![EventView::Status { content: status }];
            let user = if status is Some {
                procfs::uid_in_lines(scan::lines(status->0))
            } else {
                None
            };
            &&& action_after(start, events, 8) == (ActionView::ReadStatus {
                path: "/proc/"@ + decimal::decimal(pid as nat) + "/status"@,
            })
            &&& match user {
                Some(uid) => {
                    &&& action_after(start, events, 9) matches ActionView::RunScript { script }
                    &&& text::begins_with(
                        script,
                        "add rule inet filter output meta skuid "@ + decimal::decimal(uid as nat)
                            + (match limit {
                            None => " drop comment \""@,
                            Some(rate) => " limit rate over "@ + decimal::decimal(rate as nat)
                                + "/second drop comment \""@,
                        }),
                    )
                    &&& text::finishes_with(
                        script,
                        comment_of(target, limit is Some, label) + "\""@,
                    )
                },
                None => action_after(start, events, 9) == (ActionView::Finish {
                    outcome: nft::Outcome::Refused {
                        error: "Could not determine ports or UID for PID "@ + decimal::decimal(
                            pid as nat,
                        ),
                    },
                }),
            }
        }),
{
    let target = Target::Process { pid };
    let start = operation::installing(target, limit, label);
    let goal = GoalView::Install { target, limit, label };
    let first = nothing_in_place(table, chain, old_rules);
    let search = looking_for_ports(tcp_links, tcp_tables, udp_links, udp_tables);
    let last = seq![EventView::Status { content: status }];
    let events = first + search + last;
    installations_begin_alike(target, limit, label, table, chain, old_rules, search + last);
    assert(first + (search + last) =~= events);
    assert(events.take(4) =~= first);
    ports_are_looked_for(
        target,
        limit,
        label,
        first,
        tcp_links,
        tcp_tables,
        udp_links,
        udp_tables,
        last,
    );
    one_event_more(start, events, 9);
    assert(events[8] == EventView::Status { content: status });
    if let Some(content) = status {
        if let Some(uid) = procfs::uid_in_lines(scan::lines(content)) {
            rules::rules_for_users_name_the_user(
                uid,
                limit,
                comment_of(target, limit is Some, label),
            );
            assert(operation::goal_comment(goal) == comment_of(target, limit is Some, label));
        }
    }
}

/// A thread without ports cannot be blocked, and the error says so; to limit it
/// nothing has to be done, so an empty script is run.
pub proof fn threads_without_ports_are_told_so(
    pid: u32,
    tid: u32,
    limit: Option<u32>,
    label: Seq<char>,
    table: nft::ReplyView,
    chain: nft::ReplyView,
    old_rules: nft::ReplyView,
    tcp_links: Seq<Seq<char>>,
    tcp_tables: Seq<Option<Seq<char>>>,
    udp_links: Seq<Seq<char>>,
    udp_tables: Seq<Option<Seq<char>>>,
)
    requires
        taken(table),
        lists_nothing_of(
            old_rules,
            scope::marker_text(
                scope::target_key(Target::Thread { pid, tid }, kind_of_control(limit is Some)),
            ),
        ),
        own_ports(tcp_links, tcp_tables).is_empty(),
        own_ports(udp_links, udp_tables).is_empty(),
    ensures
        ({
            let start = operation::installing(Target::Thread { pid, tid }, limit, label);
            let events = nothing_in_place(table, chain, old_rules) + looking_for_ports(
                tcp_links,
                tcp_tables,
                udp_links,
                udp_tables,
            );
            action_after(start, events, 8) == if limit is Some {
                ActionView::RunScript { script: Seq::empty() }
            } else {
                ActionView::Finish {
                    outcome: nft::Outcome::Refused {
                        error: "No ports found for PID "@ + decimal::decimal(pid as nat)
                            + " TID "@ + decimal::decimal(tid as nat),
                    },
                }
            }
        }),
{
    let target = Target::Thread { pid, tid };
    let first = nothing_in_place(table, chain, old_rules);
    let search = looking_for_ports(tcp_links, tcp_tables, udp_links, udp_tables);
    let none = Seq::<EventView>::empty();
    installations_begin_alike(target, limit, label, table, chain, old_rules, search);
    assert((first + search).take(4) =~= first);
    ports_are_looked_for(
        target,
        limit,
        label,
        first,
        tcp_links,
        tcp_tables,
        udp_links,
        udp_tables,
        none,
    );
    assert(first + search + none =~= first + search);
}

/// A user is blocked, or limited, by one rule that names the user; no ports are
/// looked for.
pub proof fn users_are_blocked_or_limited(
    uid: u32,
    limit: Option<u32>,
    label: Seq<char>,
    table: nft::ReplyView,
    chain: nft::ReplyView,
    old_rules: nft::ReplyView,
    accepted: nft::ReplyView,
    new_rules: nft::ReplyView,
)
    requires
        taken(table),
        lists_nothing_of(
            old_rules,
            scope::marker_text(
                scope::target_key(Target::User { uid }, kind_of_control(limit is Some)),
            ),
        ),
        taken(accepted),
        taken(new_rules),
    ensures
        ({
            let target = Target::User { uid };
            let start = operation::installing(target, limit, label);
            let events = nothing_in_place(table, chain, old_rules) + putting_in_place(
                accepted,
                new_rules,
            );
            let key = scope::target_key(target, kind_of_control(limit is Some));
            &&& action_after(start, events, 4) matches ActionView::RunScript { script }
            &&& text::begins_with(
                script,
                "add rule inet filter output meta skuid "@ + decimal::decimal(uid as nat) + (
                match limit {
                    None => " drop comment \""@,
                    Some(rate) => " limit rate over "@ + decimal::decimal(rate as nat)
                        + "/second drop comment \""@,
                }),
            )
            &&& text::finishes_with(script, comment_of(target, limit is Some, label) + "\""@)
            &&& action_after(start, events, 6) == (ActionView::KeepHandles {
                key,
                handles: nft::handles_in_lines(
                    scan::lines(new_rules->stdout),
                    scope::marker_text(key),
                ),
            })
            &&& action_after(start, events, 7) == (ActionView::Finish {
                outcome: nft::Outcome::Done,
            })
        }),
{
    let target = Target::User { uid };
    let start = operation::installing(target, limit, label);
    let goal = GoalView::Install { target, limit, label };
    let first = nothing_in_place(table, chain, old_rules);
    let last = putting_in_place(accepted, new_rules);
    let comment = comment_of(target, limit is Some, label);
    installations_begin_alike(target, limit, label, table, chain, old_rules, last);
    assert((first + last).take(4) =~= first);
    assert(operation::goal_comment(goal) == comment);
    rules::rules_for_users_name_the_user(uid, limit, comment);
    scripts_are_put_in_place(
        start,
        first,
        goal,
        rules::user_rule_text(uid, limit, comment),
        accepted,
        new_rules,
    );
}

/// An empty script is run in one case only: a thread without ports is to be
/// limited.
pub proof fn empty_scripts_have_one_reason(operation: OperationView, event: EventView)
    requires
        operation::consistent(operation),
        operation::answers(operation::next_action(operation), event),
        operation::step(operation, event).stage == (StageView::Apply { script: Seq::empty() }),
        operation.goal matches GoalView::Install { label, .. } ==> !label.contains('\n'),
    ensures
        operation.goal matches GoalView::Install { target, limit, .. } && target is Thread
            && limit is Some,
        operation.stage matches StageView::UdpTables { tcp, inodes } && tcp.is_empty()
            && procfs::ports_in_tables(event->contents, Some(inodes)).is_empty(),
{
    if let GoalView::Install { target, limit, label } = operation.goal {
        let comment = operation::goal_comment(operation.goal);
        assert(operation::control_of(limit) == kind_of_control(limit is Some));
        labels_bring_the_line_feeds(target, limit is Some, label);
        match operation.stage {
            StageView::UdpTables { tcp, inodes } => {
                let udp = procfs::ports_in_tables(event->contents, Some(inodes));
                rules::rules_cover_both_protocols(tcp, udp, limit, comment);
            },
            StageView::ReadUser => {
                if let Some(content) = event->content {
                    if let Some(uid) = procfs::uid_in_lines(scan::lines(content)) {
                        user_rules_are_not_empty(uid, limit, comment);
                    }
                }
            },
            _ => {
                if let Target::User { uid } = target {
                    user_rules_are_not_empty(uid, limit, comment);
                }
            },
        }
    }
}

proof fn user_rules_are_not_empty(uid: u32, limit: Option<u32>, comment: Seq<char>)
    ensures
        rules::user_rule_text(uid, limit, comment).len() > 0,
{
    reveal_strlit("add rule inet filter output meta skuid ");
}

/// Earlier rules of the scope that are still in place do not change what
/// follows: they are deleted, each by its handle and in order, whether the
/// registry had them or only the listing, and then the operation goes on as if
/// there had been none.
pub proof fn earlier_rules_are_deleted_first(
    goal: GoalView,
    handles: Seq<u64>,
    listed: bool,
    old_rules: nft::ReplyView,
    replies: Seq<EventView>,
)
    requires
        goal is Install || goal is Remove,
        handles.len() > 0,
        listed ==> nft::listing_found(old_rules, scope::marker_text(operation::goal_key(goal)))
            == (nft::Found::Handles { handles }),
        replies.len() == handles.len(),
        forall|i: int|
            0 <= i < replies.len() ==> (#[trigger] replies[i] matches EventView::Nft { reply }
                && taken(reply)),
    ensures
        ({
            let start = OperationView { goal, stage: StageView::Take };
            let found = if listed {
                seq![EventView::Taken { handles: None }, EventView::Nft { reply: old_rules }]
            } else {
                seq![EventView::Taken { handles: Some(handles) }]
            };
            let n = found.len() as int;
            &&& forall|i: int|
                0 <= i < handles.len() ==> #[trigger] action_after(start, found + replies, n + i)
                    == (ActionView::RunCommand {
                    args: seq![
                        "delete"@,
                        "rule"@,
                        "inet"@,
                        "filter"@,
                        "output"@,
                        "handle"@,
                        decimal::decimal(handles[i] as nat),
                    ],
                })
            &&& laws::run(start, found + replies) == (OperationView {
                goal,
                stage: operation::after_removal(goal),
            })
        }),
{
    let start = OperationView { goal, stage: StageView::Take };
    let found = if listed {
        seq![EventView::Taken { handles: None }, EventView::Nft { reply: old_rules }]
    } else {
        seq![EventView::Taken { handles: Some(handles) }]
    };
    let n = found.len() as int;
    let events = found + replies;
    no_event_yet(start, events);
    one_event_more(start, events, 1);
    assert(events[0] == found[0]);
    if listed {
        one_event_more(start, events, 2);
        assert(events[1] == found[1]);
    }
    assert(laws::run(start, events.take(n)) == OperationView {
        goal,
        stage: StageView::Delete { rest: handles },
    });
    assert forall|i: int| 0 <= i < handles.len() implies #[trigger] action_after(
        start,
        events,
        n + i,
    ) == (ActionView::RunCommand {
        args: seq![
            "delete"@,
            "rule"@,
            "inet"@,
            "filter"@,
            "output"@,
            "handle"@,
            decimal::decimal(handles[i] as nat),
        ],
    }) by {
        deletions_go_on(start, goal, events, n, handles, i);
        assert(handles.skip(i)[0] == handles[i]);
    }
    deletions_go_on(start, goal, events, n, handles, handles.len() as int);
    assert(events.take(n + handles.len()) =~= events);
}

proof fn deletions_go_on(
    start: OperationView,
    goal: GoalView,
    events: Seq<EventView>,
    n: int,
    handles: Seq<u64>,
    i: int,
)
    requires
        0 <= n,
        0 <= i <= handles.len(),
        events.len() == n + handles.len(),
        laws::run(start, events.take(n)) == (OperationView {
            goal,
            stage: operation::deleting(goal, handles),
        }),
        forall|k: int|
            n <= k < events.len() ==> (#[trigger] events[k] matches EventView::Nft { reply }
                && taken(reply)),
    ensures
        laws::run(start, events.take(n + i)) == (OperationView {
            goal,
            stage: operation::deleting(goal, handles.skip(i)),
        }),
    decreases i,
{
    if i == 0 {
        assert(handles.skip(0) =~= handles);
    } else {
        deletions_go_on(start, goal, events, n, handles, i - 1);
        one_event_more(start, events, n + i);
        assert(handles.skip(i - 1).drop_first() =~= handles.skip(i));
    }
}

/// A removal has done its work when the earlier rules are gone: it makes none.
pub proof fn removals_make_no_rules(target: Target, control: Control)
    ensures
        operation::next_action(
            OperationView {
                goal: GoalView::Remove { target, control },
                stage: operation::after_removal(GoalView::Remove { target, control }),
            },
        ) == (ActionView::Finish { outcome: nft::Outcome::Done }),
        operation::next_action(operation::removing(target, control)) == (
        ActionView::TakeHandles { key: scope::target_key(target, control) }),
{
}

/// What was installed with a limit is removed by ending the limit, and what was
/// installed without by ending the blocking.
pub proof fn each_removal_undoes_its_installation(
    target: Target,
    limit: Option<u32>,
    label: Seq<char>,
    handles: Seq<u64>,
    registry: Map<Seq<char>, Seq<u64>>,
)
    ensures
        ({
            let made = OperationView {
                goal: GoalView::Install { target, limit, label },
                stage: StageView::Keep { handles },
            };
            let kept = operation::settled_registry(made, registry);
            let key = scope::target_key(target, kind_of_control(limit is Some));
            &&& kept == registry.insert(key, handles)
            &&& handles.len() > 0 ==> operation::settled_operation(
                operation::removing(target, kind_of_control(limit is Some)),
                kept,
            ).stage == (StageView::Delete { rest: handles })
            &&& operation::settled_registry(
                operation::removing(target, kind_of_control(limit is Some)),
                kept,
            ) == registry.remove(key)
        }),
{
    let key = scope::target_key(target, kind_of_control(limit is Some));
    assert(registry.insert(key, handles).remove(key) =~= registry.remove(key));
}

/// Where nft refuses a listing, a deletion, a script or the flushing, the
/// operation ends at once, with nft's own words, and so does setting up where
/// nft complains of anything but that something is there already.
pub proof fn refusals_end_operations(
    operation: OperationView,
    stdout: Seq<char>,
    stderr: Seq<char>,
)
    requires
        operation::consistent(operation),
        match operation.stage {
            StageView::ListOld => true,
            StageView::Delete { .. } => true,
            StageView::Apply { .. } => true,
            StageView::ListNew => true,
            StageView::FlushChain => true,
            StageView::AddTable => operation.goal is Setup && !text::has_part(stderr, "exists"@),
            StageView::AddChain => operation.goal is Setup && !text::has_part(stderr, "exists"@),
            _ => false,
        },
    ensures
        operation::next_action(
            operation::step(
                operation,
                EventView::Nft {
                    reply: nft::ReplyView::Finished { success: false, stdout, stderr },
                },
            ),
        ) == (ActionView::Finish { outcome: nft::Outcome::Refused { error: stderr } }),
{
}

/// Where the registry cannot be reached, the operation ends and says so.
pub proof fn unreachable_registries_end_operations(operation: OperationView)
    requires
        operation.stage is Take || operation.stage is Keep || operation.stage is Forget,
    ensures
        operation::next_action(operation::step(operation, EventView::MapPoisoned)) == (
        ActionView::Finish {
            outcome: nft::Outcome::Refused { error: "rules map poisoned"@ },
        }),
{
}

/// Flushing empties the chain, and then the registry, and then ends well.
pub proof fn flushing_empties_chain_and_registry(reply: nft::ReplyView)
    requires
        taken(reply),
    ensures
        ({
            let start = OperationView { goal: GoalView::Flush, stage: StageView::FlushChain };
            let events = seq![EventView::Nft { reply }, EventView::Forgotten];
            &&& action_after(start, events, 0) == (ActionView::RunCommand {
                args: seq!["flush"@, "chain"@, "inet"@, "filter"@, "output"@],
            })
            &&& action_after(start, events, 1) == ActionView::ForgetAll
            &&& action_after(start, events, 2) == (ActionView::Finish {
                outcome: nft::Outcome::Done,
            })
        }),
{
    let start = OperationView { goal: GoalView::Flush, stage: StageView::FlushChain };
    let events = seq![EventView::Nft { reply }, EventView::Forgotten];
    no_event_yet(start, events);
    one_event_more(start, events, 1);
    one_event_more(start, events, 2);
}

/// A record that holds no rule counts as none: either way nft is asked to list
/// the rules with their handles, so that those of the scope are found there.
pub proof fn empty_records_count_as_none(goal: GoalView, handles: Option<Seq<u64>>)
    requires
        goal is Install || goal is Remove,
        handles matches Some(list) ==> list.len() == 0,
    ensures
        ({
            let start = OperationView { goal, stage: StageView::Take };
            let next = operation::step(start, EventView::Taken { handles });
            &&& next == operation::step(start, EventView::Taken { handles: None })
            &&& operation::next_action(next) == (ActionView::RunCommand {
                args: seq!["-a"@, "list"@, "chain"@, "inet"@, "filter"@, "output"@],
            })
        }),
{
    assert(rules::list_words(true) =~= seq![
        "-a"@,
        "list"@,
        "chain"@,
        "inet"@,
        "filter"@,
        "output"@,
    ]);
}

} // verus!
