//! What the functions of the controller give for what they are given.

use std::collections::BTreeSet;

use vstd::prelude::*;

use crate::controller::error::ControllerError;
use crate::controller::nft;
use crate::controller::nft::{
    command_result, find_rule_handles_by_marker, is_root, list_rules, script_result, NftReply,
};
use crate::controller::operation::{
    block_process, block_thread, block_user, rate_limit_process, rate_limit_thread,
    rate_limit_user, setup_nftables, unblock_all, unblock_process, unblock_thread, unblock_user,
    unlimit_process, unlimit_thread, unlimit_user, GoalView, Operation, OperationView, StageView,
};
use crate::controller::ownership;
use crate::controller::procfs;
use crate::controller::procfs::{
    collect_net_table_ports, collect_socket_inodes, parse_port_from_proc_addr, process_links_dir,
    status_file, thread_links_dir, uid_in_status,
};
use crate::controller::rules;
use crate::controller::rules::{
    add_table_args, build_block_ruleset, build_port_ruleset, build_user_rule, delete_rule_args,
    flush_args, join_ports, kbps_to_packets_per_second, list_args,
};
use crate::controller::scope;
use crate::controller::scope::{scoped_comment, Control, Target};
use crate::decimal;
use crate::scan;
use crate::text;

verus! {

/// Every socket that is wanted gives its port, in whichever of the tables it is
/// listed, however many others could be read.
pub proof fn collected_ports_hold_every_socket(
    tables: Vec<Option<String>>,
    inodes: BTreeSet<u64>,
    ports: BTreeSet<u16>,
    i: int,
    k: int,
    address: Seq<char>,
    port: u16,
    inode: u64,
)
    requires
        call_ensures(collect_net_table_ports, (&tables, Some(&inodes)), ports),
        0 <= i < tables@.len(),
        tables@[i] is Some,
        1 <= k < scan::lines(tables@[i]->0@).len(),
        ({
            let columns = scan::words(scan::lines(tables@[i]->0@)[k]);
            &&& columns.len() >= 10
            &&& columns[9] == decimal::decimal(inode as nat)
            &&& columns[1] == address + seq![':'] + procfs::hex_port(port)
        }),
        !address.contains(':'),
        inodes@.contains(inode),
    ensures
        ports@.contains(port),
{
    let all = procfs::optional_texts(tables@);
    assert(all[i] == text::optional(tables@[i]));
    procfs::every_listed_socket_gives_its_port(
        all,
        i,
        k,
        address,
        port,
        inode,
        Some(inodes@),
    );
}

/// Looking into more tables gives what each of them gives: the ports of a row
/// of tables are those of its front and those of its back.
pub proof fn collected_ports_add_up(
    front: Vec<Option<String>>,
    back: Vec<Option<String>>,
    both: Vec<Option<String>>,
    inodes: BTreeSet<u64>,
    first: BTreeSet<u16>,
    second: BTreeSet<u16>,
    ports: BTreeSet<u16>,
)
    requires
        both@ == front@ + back@,
        call_ensures(collect_net_table_ports, (&front, Some(&inodes)), first),
        call_ensures(collect_net_table_ports, (&back, Some(&inodes)), second),
        call_ensures(collect_net_table_ports, (&both, Some(&inodes)), ports),
    ensures
        ports@ == first@.union(second@),
{
    procfs::tables_add_up(
        procfs::optional_texts(front@),
        procfs::optional_texts(back@),
        Some(inodes@),
    );
    assert(procfs::optional_texts(both@) =~= procfs::optional_texts(front@)
        + procfs::optional_texts(back@));
}

/// Every socket among the open files is collected, and so is nothing else.
pub proof fn collected_inodes_are_those_of_sockets(
    targets: Vec<String>,
    inodes: BTreeSet<u64>,
    i: int,
    inode: u64,
)
    requires
        call_ensures(collect_socket_inodes, (&targets,), inodes),
        0 <= i < targets@.len(),
    ensures
        targets@[i]@ == "socket:["@ + decimal::decimal(inode as nat) + "]"@ ==> inodes@.contains(
            inode,
        ),
        inodes@.contains(inode) ==> exists|k: int|
            0 <= k < targets@.len() && text::begins_with(
                (#[trigger] targets@[k])@,
                "socket:["@,
            ),
{
    let links = text::texts(targets@);
    assert(links[i] == targets@[i]@);
    if targets@[i]@ == "socket:["@ + decimal::decimal(inode as nat) + "]"@ {
        procfs::every_socket_is_found(links, i, inode);
    }
    if inodes@.contains(inode) {
        procfs::only_sockets_are_found(links, inode);
        let (k, number) = choose|k: int, number: Seq<char>|
            #![trigger links[k], decimal::parsed(number, 10, 0xffff_ffff_ffff_ffff)]
            {
                &&& 0 <= k < links.len()
                &&& links[k] == "socket:["@ + number + "]"@
                &&& decimal::parsed(number, 10, 0xffff_ffff_ffff_ffff) == Some(inode as int)
            };
        assert(links[k] == targets@[k]@);
        let opening = "socket:["@;
        assert(links[k].subrange(0, opening.len() as int) =~= opening);
    }
}

/// An address gives back the port that the kernel wrote into it.
pub proof fn addresses_give_their_port(
    address: &str,
    host: Seq<char>,
    port: u16,
    found: Option<u16>,
)
    requires
        call_ensures(parse_port_from_proc_addr, (address,), found),
        address@ == host + seq![':'] + procfs::hex_port(port),
        !host.contains(':'),
    ensures
        found == Some(port),
{
    procfs::socket_addresses_read_back(host, port);
}

/// The rules for ports cover both protocols, with a limit or without one.
pub proof fn rulesets_cover_both_protocols(
    tcp: BTreeSet<u16>,
    udp: BTreeSet<u16>,
    limit: Option<u32>,
    comment: &str,
    script: String,
    unlimited: String,
)
    requires
        !comment@.contains('\n'),
        call_ensures(build_port_ruleset, (&tcp, &udp, limit, comment), script),
        call_ensures(build_block_ruleset, (&tcp, &udp, comment), unlimited),
    ensures
        rules::covers_ports(script@, tcp@, udp@, limit, comment@),
        rules::covers_ports(unlimited@, tcp@, udp@, None, comment@),
{
    rules::rules_cover_both_protocols(tcp@, udp@, limit, comment@);
    rules::rules_cover_both_protocols(tcp@, udp@, None, comment@);
}

/// The list of a set of ports names all of them and no others.
pub proof fn joined_ports_are_the_ports(ports: BTreeSet<u16>, list: String)
    requires
        call_ensures(join_ports, (&ports,), list),
        !ports@.is_empty(),
    ensures
        rules::lists_ports(list@, ports@),
{
    rules::port_lists_read_back(ports@);
}

/// The rule for a user begins with the user's number, and with the limit where
/// there is one, and ends in the comment.
pub proof fn user_rules_name_the_user(
    uid: u32,
    limit: Option<u32>,
    comment: &str,
    rule: String,
)
    requires
        call_ensures(build_user_rule, (uid, limit, comment), rule),
    ensures
        text::begins_with(
            rule@,
            "add rule inet filter output meta skuid "@ + decimal::decimal(uid as nat) + (
            match limit {
                None => " drop comment \""@,
                Some(rate) => " limit rate over "@ + decimal::decimal(rate as nat)
                    + "/second drop comment \""@,
            }),
        ),
        text::finishes_with(rule@, comment@ + "\""@),
{
    rules::rules_for_users_name_the_user(uid, limit, comment@);
}

/// A packet rate is a twelfth of the bandwidth in kbit/s, but at least one; a
/// deletion names its rule.
pub proof fn numbers_are_worked_out(rate_kbps: u32, rate: u32, handle: u64, args: Vec<String>)
    requires
        call_ensures(kbps_to_packets_per_second, (rate_kbps,), rate),
        call_ensures(delete_rule_args, (handle,), args),
    ensures
        rate == (if rate_kbps < 12 {
            1
        } else {
            rate_kbps / 12
        }),
        args@.len() == 7,
        args@[6]@ == decimal::decimal(handle as nat),
{
    rules::packet_rate_is_a_twelfth(rate_kbps);
    assert(text::texts(args@).len() == args@.len());
    assert(text::texts(args@)[6] == args@[6]@);
}

/// Each request becomes the operation that it asks for: on the process, the
/// thread or the user that is named, with the name as the label where something
/// is blocked, and with a twelfth of the bandwidth as the limit where something
/// is limited.
pub proof fn requests_become_operations(
    pid: u32,
    tid: u32,
    uid: u32,
    name: &str,
    rate_kbps: u32,
    a: Operation,
    b: Operation,
    c: Operation,
    d: Operation,
    e: Operation,
    f: Operation,
)
    requires
        call_ensures(block_process, (pid, name), a),
        call_ensures(block_thread, (pid, tid, name), b),
        call_ensures(block_user, (uid, name), c),
        call_ensures(rate_limit_process, (pid, rate_kbps), d),
        call_ensures(rate_limit_thread, (pid, tid, rate_kbps), e),
        call_ensures(rate_limit_user, (uid, rate_kbps), f),
    ensures
        ({
            let process = Target::Process { pid };
            let thread = Target::Thread { pid, tid };
            let user = Target::User { uid };
            let limit = Some(
                (if rate_kbps < 12 {
                    1
                } else {
                    rate_kbps / 12
                }) as u32,
            );
            let label = "rate-limit"@;
            let begun = StageView::AddTable;
            &&& a@ == OperationView {
                goal: GoalView::Install { target: process, limit: None, label: name@ },
                stage: begun,
            }
            &&& b@ == OperationView {
                goal: GoalView::Install { target: thread, limit: None, label: name@ },
                stage: begun,
            }
            &&& c@ == OperationView {
                goal: GoalView::Install { target: user, limit: None, label: name@ },
                stage: begun,
            }
            &&& d@ == OperationView {
                goal: GoalView::Install { target: process, limit, label },
                stage: begun,
            }
            &&& e@ == OperationView {
                goal: GoalView::Install { target: thread, limit, label },
                stage: begun,
            }
            &&& f@ == OperationView {
                goal: GoalView::Install { target: user, limit, label },
                stage: begun,
            }
        }),
{
    rules::packet_rate_is_a_twelfth(rate_kbps);
}

/// Each request to end something becomes a removal of just that: the blocking
/// or the limit, of the process, the thread or the user that is named; and
/// setting up and ending everything have operations of their own.
pub proof fn requests_become_removals(
    pid: u32,
    tid: u32,
    uid: u32,
    a: Operation,
    b: Operation,
    c: Operation,
    d: Operation,
    e: Operation,
    f: Operation,
    g: Operation,
    h: Operation,
)
    requires
        call_ensures(unblock_process, (pid,), a),
        call_ensures(unblock_thread, (pid, tid), b),
        call_ensures(unblock_user, (uid,), c),
        call_ensures(unlimit_process, (pid,), d),
        call_ensures(unlimit_thread, (pid, tid), e),
        call_ensures(unlimit_user, (uid,), f),
        call_ensures(setup_nftables, (), g),
        call_ensures(unblock_all, (), h),
    ensures
        ({
            let process = Target::Process { pid };
            let thread = Target::Thread { pid, tid };
            let user = Target::User { uid };
            &&& a@.goal == (GoalView::Remove { target: process, control: Control::Block })
            &&& b@.goal == (GoalView::Remove { target: thread, control: Control::Block })
            &&& c@.goal == (GoalView::Remove { target: user, control: Control::Block })
            &&& d@.goal == (GoalView::Remove { target: process, control: Control::Limit })
            &&& e@.goal == (GoalView::Remove { target: thread, control: Control::Limit })
            &&& f@.goal == (GoalView::Remove { target: user, control: Control::Limit })
            &&& a@.stage is Take && b@.stage is Take && c@.stage is Take
            &&& d@.stage is Take && e@.stage is Take && f@.stage is Take
            &&& g@ == OperationView { goal: GoalView::Setup, stage: StageView::AddTable }
            &&& h@ == OperationView { goal: GoalView::Flush, stage: StageView::FlushChain }
        }),
{
}

/// nft's word counts: a command is done if nft took it, or if it is there
/// already and that does not count, a script if nft took it; and where nft
/// refused, its own words are the error.
pub proof fn results_go_by_what_nft_said(
    reply: NftReply,
    ignore_exists: bool,
    command: Result<(), String>,
    script: Result<(), String>,
    listed: Result<Vec<String>, String>,
)
    requires
        call_ensures(command_result, (&reply, ignore_exists), command),
        call_ensures(script_result, (&reply,), script),
        call_ensures(list_rules, (&reply,), listed),
        reply is Finished,
    ensures
        command is Ok <==> reply->success || (ignore_exists && text::has_part(
            reply->stderr@,
            "exists"@,
        )),
        command matches Err(error) ==> error@ == reply->stderr@,
        script is Ok <==> reply->success,
        script matches Err(error) ==> error@ == reply->stderr@,
        listed is Ok <==> reply->success,
        listed matches Err(error) ==> error@ == reply->stderr@,
        listed matches Ok(lines) ==> text::texts(lines@) == scan::lines(reply->stdout@),
{
    nft::only_what_nft_took_is_done(reply@, ignore_exists);
    nft::errors_are_handed_on(reply@, Seq::empty());
}

/// What could not be run is never done.
pub proof fn failed_runs_are_errors(
    reply: NftReply,
    ignore_exists: bool,
    command: Result<(), String>,
    script: Result<(), String>,
    listed: Result<Vec<String>, String>,
    marker: &str,
    found: Result<Vec<u64>, String>,
)
    requires
        call_ensures(command_result, (&reply, ignore_exists), command),
        call_ensures(script_result, (&reply,), script),
        call_ensures(list_rules, (&reply,), listed),
        call_ensures(find_rule_handles_by_marker, (&reply, marker), found),
        reply is Failed,
    ensures
        command is Err && script is Err && listed is Err && found is Err,
        !reply->not_found ==> text::finishes_with(command->Err_0@, reply->message@),
        reply->not_found ==> command->Err_0@ == "nft command not found"@,
        text::finishes_with(found->Err_0@, reply->message@),
{
    nft::errors_are_handed_on(reply@, marker@);
    nft::only_what_nft_took_is_done(reply@, ignore_exists);
}

/// Looking for the rules of a scope in the listing of a chain gives the handles
/// of its own rules and no others.
pub proof fn rules_of_a_scope_are_found(
    chain: Seq<ownership::ListedLine>,
    target: Target,
    control: Control,
    reply: NftReply,
    marker: &str,
    found: Result<Vec<u64>, String>,
    handle: u64,
)
    requires
        call_ensures(find_rule_handles_by_marker, (&reply, marker), found),
        marker@ == scope::marker_text(scope::target_key(target, control)),
        reply is Finished,
        reply->success,
        scan::lines(reply->stdout@) == ownership::listing_of(chain),
        ownership::marks_only_own(chain, target, control),
    ensures
        found matches Ok(handles) && (handles@.contains(handle) <==> ownership::has_rule(
            chain,
            target,
            control,
            handle,
        )),
{
    ownership::listings_yield_own_rules_only(chain, target, control, handle);
}

/// The effective user is the one that counts, and the superuser is the one with
/// the number nought.
pub proof fn users_are_read(
    status: &str,
    owner: u32,
    effective: u32,
    others: Seq<char>,
    front: Seq<Seq<char>>,
    back: Seq<Seq<char>>,
    uid: Option<u32>,
    output: &str,
    superuser: bool,
)
    requires
        call_ensures(uid_in_status, (status,), uid),
        call_ensures(is_root, (Some(output),), superuser),
        forall|i: int| 0 <= i < front.len() ==> !text::begins_with(#[trigger] front[i], "Uid:"@),
        scan::lines(status@) == front + seq![
            "Uid:"@ + seq!['\t'] + decimal::decimal(owner as nat) + seq!['\t']
                + decimal::decimal(effective as nat) + seq!['\t'] + others,
        ] + back,
        output@ == decimal::decimal(effective as nat) + seq!['\n'],
    ensures
        uid == Some(effective),
        superuser <==> effective == 0,
{
    procfs::effective_users_count(front, owner, effective, others, back);
    let digits = decimal::decimal(effective as nat);
    let none = Seq::<char>::empty();
    decimal::decimal_is_digits(effective as nat);
    scan::trimming_takes_space_only(none, digits, seq!['\n']);
    assert(none + digits + seq!['\n'] =~= output@);
    reveal_strlit("0");
    assert("0"@ =~= decimal::decimal(0));
    if digits == "0"@ {
        decimal::decimal_tells_apart(effective as nat, 0);
    }
}

/// A comment is the marker of the scope and the label, with underscores for
/// quotation marks.
pub proof fn comments_are_marker_and_label(key: &str, label: &str, comment: String, i: int)
    requires
        call_ensures(scoped_comment, (key, label), comment),
    ensures
        ({
            let front = "netmon-"@ + key@ + "-"@;
            &&& comment@.len() == front.len() + label@.len()
            &&& comment@.take(front.len() as int) == front
            &&& 0 <= i < label@.len() ==> comment@[front.len() + i] == (if label@[i] == '"' {
                '_'
            } else {
                label@[i]
            })
        }),
{
    scope::comments_keep_their_label(key@, label@);
}

/// The text of an error ends with the words that came with it, and its front
/// says which kind of error it is.
pub proof fn errors_say_kind_and_reason(error: ControllerError, words: String, said: String)
    requires
        call_ensures(ControllerError::message, (&error,), said),
        error matches ControllerError::Io(message) ==> message == words,
        error matches ControllerError::Nft(message) ==> message == words,
        error matches ControllerError::Parse(message) ==> message == words,
    ensures
        text::finishes_with(said@, words@),
        text::begins_with(said@, "io error: "@) <==> error is Io,
        text::begins_with(said@, "nft error: "@) <==> error is Nft,
        text::begins_with(said@, "parse error: "@) <==> error is Parse,
{
    reveal_strlit("io error: ");
    reveal_strlit("nft error: ");
    reveal_strlit("parse error: ");
    let front = match error {
        ControllerError::Io(_) => "io error: "@,
        ControllerError::Nft(_) => "nft error: "@,
        ControllerError::Parse(_) => "parse error: "@,
    };
    assert(said@ == front + words@);
    let n = front.len() as int;
    assert(said@.subrange(n, said@.len() as int) =~= words@);
    assert(said@.subrange(0, n) =~= front);
    assert(said@[0] == front[0]);
    if text::begins_with(said@, "io error: "@) {
        assert(said@.subrange(0, 10)[0] == 'i');
    }
    if text::begins_with(said@, "nft error: "@) {
        assert(said@.subrange(0, 11)[0] == 'n');
    }
    if text::begins_with(said@, "parse error: "@) {
        assert(said@.subrange(0, 13)[0] == 'p');
    }
}

/// The directories and the file name the process by its number, and the one of
/// a thread the thread by its own behind that.
pub proof fn paths_name_process_and_thread(
    pid: u32,
    tid: u32,
    own: String,
    of_thread: String,
    status: String,
)
    requires
        call_ensures(process_links_dir, (pid,), own),
        call_ensures(thread_links_dir, (pid, tid), of_thread),
        call_ensures(status_file, (pid,), status),
    ensures
        text::begins_with(own@, "/proc/"@) && text::finishes_with(own@, "/fd"@),
        text::begins_with(of_thread@, "/proc/"@) && text::finishes_with(of_thread@, "/fd"@),
        text::begins_with(status@, "/proc/"@) && text::finishes_with(status@, "/status"@),
        decimal::parsed(own@.subrange(6, own@.len() - 3), 10, 0xffff_ffff) == Some(pid as int),
        decimal::parsed(status@.subrange(6, status@.len() - 7), 10, 0xffff_ffff) == Some(
            pid as int,
        ),
        ({
            let middle = of_thread@.subrange(6, of_thread@.len() - 3);
            let first = decimal::decimal(pid as nat).len() as int;
            &&& decimal::parsed(middle.take(first), 10, 0xffff_ffff) == Some(pid as int)
            &&& text::begins_with(middle.skip(first), "/task/"@)
            &&& decimal::parsed(middle.skip(first + 6), 10, 0xffff_ffff) == Some(tid as int)
        }),
{
    reveal_strlit("/proc/");
    reveal_strlit("/fd");
    reveal_strlit("/status");
    reveal_strlit("/task/");
    decimal::decimal_parses(pid as nat, 0xffff_ffff);
    decimal::decimal_parses(tid as nat, 0xffff_ffff);
    let process = decimal::decimal(pid as nat);
    let thread = decimal::decimal(tid as nat);
    assert(own@.subrange(0, 6) =~= "/proc/"@);
    assert(own@.subrange(own@.len() - 3, own@.len() as int) =~= "/fd"@);
    assert(own@.subrange(6, own@.len() - 3) =~= process);
    assert(status@.subrange(0, 6) =~= "/proc/"@);
    assert(status@.subrange(status@.len() - 7, status@.len() as int) =~= "/status"@);
    assert(status@.subrange(6, status@.len() - 7) =~= process);
    assert(of_thread@.subrange(0, 6) =~= "/proc/"@);
    assert(of_thread@.subrange(of_thread@.len() - 3, of_thread@.len() as int) =~= "/fd"@);
    let middle = of_thread@.subrange(6, of_thread@.len() - 3);
    let first = process.len() as int;
    assert(middle.take(first) =~= process);
    assert(middle.skip(first).subrange(0, 6) =~= "/task/"@);
    assert(middle.skip(first + 6) =~= thread);
}

/// All commands but the one that makes the table speak of one chain, which is in
/// that table; and a listing with handles is asked for as one without, but for
/// the option.
pub proof fn commands_speak_of_one_chain(
    made: Vec<String>,
    flushed: Vec<String>,
    listed: Vec<String>,
    numbered: Vec<String>,
    deleted: Vec<String>,
    handle: u64,
)
    requires
        call_ensures(add_table_args, (), made),
        call_ensures(flush_args, (), flushed),
        call_ensures(list_args, (false,), listed),
        call_ensures(list_args, (true,), numbered),
        call_ensures(delete_rule_args, (handle,), deleted),
    ensures
        text::texts(made@).skip(2) == seq!["inet"@, "filter"@],
        text::texts(flushed@) == seq!["flush"@, "chain"@] + text::texts(made@).skip(2) + seq![
            "output"@,
        ],
        text::texts(listed@).skip(2) == text::texts(flushed@).skip(2),
        text::texts(listed@)[0] == "list"@,
        text::texts(numbered@) == seq!["-a"@] + text::texts(listed@),
        text::texts(deleted@).subrange(2, 5) == text::texts(flushed@).skip(2),
{
    assert(text::texts(made@).skip(2) =~= seq!["inet"@, "filter"@]);
    assert(text::texts(flushed@) =~= seq!["flush"@, "chain"@] + text::texts(made@).skip(2) + seq![
        "output"@,
    ]);
    assert(text::texts(listed@).skip(2) =~= text::texts(flushed@).skip(2));
    assert(text::texts(numbered@) =~= seq!["-a"@] + text::texts(listed@));
    assert(text::texts(deleted@).subrange(2, 5) =~= text::texts(flushed@).skip(2));
}

} // verus!
