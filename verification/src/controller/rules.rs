//! The text of nftables rules and the arguments of nft commands.

use std::collections::BTreeSet;

use vstd::prelude::*;

use crate::controller::scope;
use crate::decimal;
use crate::decimal::append_decimal;
use crate::scan;
use crate::text;

verus! {

broadcast use vstd::laws_cmp::group_laws_cmp;

/// The size that a packet is taken to have when a bandwidth is turned into a
/// packet rate.
pub const APPROX_PACKET_SIZE_BYTES: u32 = 1500;

/// Each number is below the ones behind it.
pub open spec fn increasing(list: Seq<u16>) -> bool {
    forall|i: int, j: int| 0 <= i < j < list.len() ==> list[i] < list[j]
}

/// The ports of a set, the lowest first.
pub open spec fn ascending(ports: Set<u16>) -> Seq<u16> {
    choose|list: Seq<u16>| increasing(list) && list.to_set() == ports
}

/// There is only one way to list a set of ports in order.
pub proof fn ascending_is_unique(list: Seq<u16>)
    requires
        increasing(list),
    ensures
        ascending(list.to_set()) == list,
{
    let other = ascending(list.to_set());
    assert(increasing(list) && list.to_set() == list.to_set());
    same_ports_same_list(other, list);
}

proof fn same_ports_same_list(a: Seq<u16>, b: Seq<u16>)
    requires
        increasing(a),
        increasing(b),
        a.to_set() == b.to_set(),
    ensures
        a == b,
    decreases a.len(),
{
    if a.len() == 0 {
        if b.len() > 0 {
            assert(b.to_set().contains(b[0]));
            assert(a.contains(b[0]));
        }
        assert(a =~= b);
    } else {
        assert(a.to_set().contains(a.last()));
        assert(b.contains(a.last()));
        let j = choose|j: int| 0 <= j < b.len() && b[j] == a.last();
        assert(b.to_set().contains(b.last()));
        assert(a.contains(b.last()));
        let i = choose|i: int| 0 <= i < a.len() && a[i] == b.last();
        assert(a.last() == b.last());
        let c = a.drop_last();
        let d = b.drop_last();
        assert forall|p: u16| c.to_set().contains(p) <==> d.to_set().contains(p) by {
            if c.contains(p) {
                let k = choose|k: int| 0 <= k < c.len() && c[k] == p;
                assert(a[k] == p);
                assert(a.to_set().contains(p));
                assert(b.contains(p));
                let m = choose|m: int| 0 <= m < b.len() && b[m] == p;
                assert(d[m] == p);
            }
            if d.contains(p) {
                let k = choose|k: int| 0 <= k < d.len() && d[k] == p;
                assert(b[k] == p);
                assert(b.to_set().contains(p));
                assert(a.contains(p));
                let m = choose|m: int| 0 <= m < a.len() && a[m] == p;
                assert(c[m] == p);
            }
        }
        assert(c.to_set() =~= d.to_set());
        same_ports_same_list(c, d);
        assert(a =~= c.push(a.last()));
        assert(b =~= d.push(b.last()));
    }
}

/// Every finite set of ports can be listed in order, so the list of a set holds
/// its ports and no others, the lowest first.
pub proof fn ascending_lists_the_set(ports: Set<u16>)
    requires
        ports.finite(),
    ensures
        increasing(ascending(ports)),
        ascending(ports).to_set() == ports,
{
    let list = some_list(ports);
    assert(increasing(list) && list.to_set() == ports);
}

proof fn some_list(ports: Set<u16>) -> (list: Seq<u16>)
    requires
        ports.finite(),
    ensures
        increasing(list),
        list.to_set() == ports,
    decreases ports.len(),
{
    if ports.is_empty() {
        let list = Seq::<u16>::empty();
        assert(list.to_set() =~= ports);
        list
    } else {
        let port = ports.choose();
        let others = some_list(ports.remove(port));
        if others.contains(port) {
            assert(others.to_set().contains(port));
        }
        let list = placed(others, port);
        assert(list.to_set() =~= ports);
        list
    }
}

/// The list with one more port, where it belongs.
proof fn placed(list: Seq<u16>, port: u16) -> (longer: Seq<u16>)
    requires
        increasing(list),
        !list.contains(port),
    ensures
        increasing(longer),
        longer.to_set() == list.to_set().insert(port),
    decreases list.len(),
{
    if list.len() == 0 || list.last() < port {
        let longer = list.push(port);
        assert forall|p: u16| longer.to_set().contains(p) <==> list.to_set().insert(port).contains(
            p,
        ) by {
            if list.contains(p) {
                let k = choose|k: int| 0 <= k < list.len() && list[k] == p;
                assert(longer[k] == p);
            }
            assert(longer[list.len() as int] == port);
        }
        assert(longer.to_set() =~= list.to_set().insert(port));
        longer
    } else {
        let front = list.drop_last();
        assert(list[list.len() - 1] != port);
        let most = placed(front, port);
        let longer = most.push(list.last());
        assert forall|i: int| 0 <= i < most.len() implies #[trigger] most[i] < list.last() by {
            assert(most.to_set().contains(most[i]));
            if most[i] != port {
                assert(front.contains(most[i]));
            }
        }
        assert forall|p: u16| longer.to_set().contains(p) <==> list.to_set().insert(port).contains(
            p,
        ) by {
            if longer.contains(p) {
                let k = choose|k: int| 0 <= k < longer.len() && longer[k] == p;
                if k < most.len() {
                    assert(most.to_set().contains(p));
                    if p != port {
                        assert(front.contains(p));
                        let m = choose|m: int| 0 <= m < front.len() && front[m] == p;
                        assert(list[m] == p);
                    }
                } else {
                    assert(list[list.len() - 1] == p);
                }
            }
            if list.contains(p) {
                let k = choose|k: int| 0 <= k < list.len() && list[k] == p;
                if k < front.len() {
                    assert(front[k] == p);
                    assert(front.to_set().contains(p));
                    assert(most.to_set().contains(p));
                    let m = choose|m: int| 0 <= m < most.len() && most[m] == p;
                    assert(longer[m] == p);
                } else {
                    assert(longer[most.len() as int] == p);
                }
            }
            if p == port {
                assert(most.to_set().contains(p));
                let m = choose|m: int| 0 <= m < most.len() && most[m] == p;
                assert(longer[m] == p);
            }
        }
        assert(longer.to_set() =~= list.to_set().insert(port));
        longer
    }
}

/// Ports in decimal, with a comma and a blank between each two.
pub open spec fn joined(list: Seq<u16>) -> Seq<char>
    decreases list.len(),
{
    if list.len() == 0 {
        Seq::empty()
    } else if list.len() == 1 {
        decimal::decimal(list[0] as nat)
    } else {
        joined(list.drop_last()) + ", "@ + decimal::decimal(list.last() as nat)
    }
}

/// The ports of a set as a rule lists them.
pub open spec fn port_list(ports: Set<u16>) -> Seq<char> {
    joined(ascending(ports))
}

/// The rate, in packets per second, that stands for a bandwidth in kbit/s: the
/// number of whole packets of the assumed size, and never none.
pub open spec fn packet_rate(rate_kbps: int) -> int {
    let whole = rate_kbps * 1000 / 8 / 1500;
    if whole < 1 {
        1
    } else {
        whole
    }
}

/// The part of a rule that makes it match only what exceeds a packet rate.
pub open spec fn limit_text(limit: Option<u32>) -> Seq<char> {
    match limit {
        None => Seq::empty(),
        Some(rate) => "limit rate over "@ + decimal::decimal(rate as nat) + "/second "@,
    }
}

/// The end of every rule: what becomes of a packet, and the comment.
pub open spec fn drop_text(comment: Seq<char>) -> Seq<char> {
    "drop comment \""@ + comment + "\""@
}

/// The rule, on a line of its own, for packets from the given local ports.
pub open spec fn port_rule(
    protocol: Seq<char>,
    ports: Set<u16>,
    limit: Option<u32>,
    comment: Seq<char>,
) -> Seq<char> {
    "add rule inet filter output "@ + protocol + " sport { "@ + port_list(ports) + " } "@
        + limit_text(limit) + drop_text(comment) + "\n"@
}

/// The rules for the given local ports: one for each protocol that has any.
pub open spec fn port_rules(
    tcp: Set<u16>,
    udp: Set<u16>,
    limit: Option<u32>,
    comment: Seq<char>,
) -> Seq<char> {
    (if tcp.is_empty() {
        Seq::empty()
    } else {
        port_rule("tcp"@, tcp, limit, comment)
    }) + (if udp.is_empty() {
        Seq::empty()
    } else {
        port_rule("udp"@, udp, limit, comment)
    })
}

/// The rule for packets from sockets of the given user.
pub open spec fn user_rule_text(uid: u32, limit: Option<u32>, comment: Seq<char>) -> Seq<char> {
    "add rule inet filter output meta skuid "@ + decimal::decimal(uid as nat) + " "@ + limit_text(
        limit,
    ) + drop_text(comment)
}

/// The script that makes the chain to which all rules are added.
pub open spec fn chain_script_text() -> Seq<char> {
    "\nadd chain inet filter output {\n    type filter hook output priority 0;\n    policy accept;\n}\n"@
}

/// The arguments of the command that makes the table.
pub open spec fn add_table_words() -> Seq<Seq<char>> {
    seq!["add"@, "table"@, "inet"@, "filter"@]
}

/// The arguments of the command that deletes one rule.
pub open spec fn delete_rule_words(handle: u64) -> Seq<Seq<char>> {
    seq![
        "delete"@,
        "rule"@,
        "inet"@,
        "filter"@,
        "output"@,
        "handle"@,
        decimal::decimal(handle as nat),
    ]
}

/// The arguments of the command that deletes all rules of the chain.
pub open spec fn flush_words() -> Seq<Seq<char>> {
    seq!["flush"@, "chain"@, "inet"@, "filter"@, "output"@]
}

/// The arguments of the command that prints the rules of the chain, with the
/// handle of each where `handles` says so.
pub open spec fn list_words(handles: bool) -> Seq<Seq<char>> {
    if handles {
        seq!["-a"@, "list"@, "chain"@, "inet"@, "filter"@, "output"@]
    } else {
        seq!["list"@, "chain"@, "inet"@, "filter"@, "output"@]
    }
}

/// The ports of a set, the lowest first.
fn in_order(ports: &BTreeSet<u16>) -> (list: Vec<u16>)
    ensures
        list@ == ascending(ports@),
        list@.len() == 0 <==> ports@.is_empty(),
{
    let mut list: Vec<u16> = Vec::new();
    for port in it: ports.iter()
        invariant
            list@ == it.seq().unref().take(it.index()),
    {
        list.push(*port);
    }
    proof {
        let walk = vstd::std_specs::btree::spec_btree_keys_iter(ports);
        let seen = vstd::std_specs::iter::IteratorSpec::remaining(&walk);
        assert(list@ =~= seen.unref());
        assert(vstd::laws_cmp::obeys_cmp::<u16>());
        assert(vstd::laws_cmp::obeys_cmp::<&u16>());
        assert(vstd::std_specs::btree::increasing_seq(seen));
        assert forall|i: int, j: int| 0 <= i < j < list@.len() implies list@[i] < list@[j] by {
            assert(*seen[i] == list@[i]);
            assert(*seen[j] == list@[j]);
            assert(vstd::std_specs::cmp::OrdSpec::cmp_spec(&seen[i], &seen[j]) is Less);
        }
        ascending_is_unique(list@);
        if list@.len() > 0 {
            assert(list@.to_set().contains(list@[0]));
        } else if !ports@.is_empty() {
            let port = choose|port: u16| ports@.contains(port);
            assert(list@.to_set().contains(port));
        }
    }
    list
}

/// The ports of a set as a rule lists them.
pub fn join_ports(ports: &BTreeSet<u16>) -> (result: String)
    ensures
        result@ == port_list(ports@),
{
    let list = in_order(ports);
    let mut result = String::new();
    let mut i: usize = 0;
    while i < list.len()
        invariant
            i <= list@.len(),
            result@ == joined(list@.take(i as int)),
        decreases list@.len() - i,
    {
        proof {
            assert(list@.take(i + 1).drop_last() =~= list@.take(i as int));
            assert(list@.take(i + 1).last() == list@[i as int]);
        }
        if i > 0 {
            result.append(", ");
        }
        append_decimal(&mut result, list[i] as u64);
        assert(result@ =~= joined(list@.take(i + 1)));
        i += 1;
    }
    assert(list@.take(i as int) =~= list@);
    result
}

/// The rate, in packets per second, that stands for a bandwidth in kbit/s.
pub fn kbps_to_packets_per_second(rate_kbps: u32) -> (rate: u32)
    ensures
        rate == packet_rate(rate_kbps as int),
{
    let bytes_per_sec: u64 = (rate_kbps as u64 * 1000) / 8;
    let rate: u64 = bytes_per_sec / (APPROX_PACKET_SIZE_BYTES as u64);
    if rate < 1 {
        1
    } else {
        rate as u32
    }
}

fn append_limit(rule: &mut String, limit: Option<u32>)
    ensures
        final(rule)@ == old(rule)@ + limit_text(limit),
{
    if let Some(rate) = limit {
        rule.append("limit rate over ");
        append_decimal(rule, rate as u64);
        rule.append("/second ");
    }
    assert(rule@ =~= old(rule)@ + limit_text(limit));
}

fn append_drop(rule: &mut String, comment: &str)
    ensures
        final(rule)@ == old(rule)@ + drop_text(comment@),
{
    rule.append("drop comment \"");
    rule.append(comment);
    rule.append("\"");
    assert(rule@ =~= old(rule)@ + drop_text(comment@));
}

fn append_port_rule(
    rules: &mut String,
    protocol: &str,
    ports: &BTreeSet<u16>,
    limit: Option<u32>,
    comment: &str,
)
    ensures
        final(rules)@ == old(rules)@ + port_rule(protocol@, ports@, limit, comment@),
{
    let list = join_ports(ports);
    rules.append("add rule inet filter output ");
    rules.append(protocol);
    rules.append(" sport { ");
    rules.append(list.as_str());
    rules.append(" } ");
    append_limit(rules, limit);
    append_drop(rules, comment);
    rules.append("\n");
    assert(rules@ =~= old(rules)@ + port_rule(protocol@, ports@, limit, comment@));
}

/// The rules for the given local ports.
pub fn build_port_ruleset(
    tcp_ports: &BTreeSet<u16>,
    udp_ports: &BTreeSet<u16>,
    limit: Option<u32>,
    comment: &str,
) -> (rules: String)
    ensures
        rules@ == port_rules(tcp_ports@, udp_ports@, limit, comment@),
{
    let mut rules = String::new();
    if !tcp_ports.is_empty() {
        append_port_rule(&mut rules, "tcp", tcp_ports, limit, comment);
    }
    if !udp_ports.is_empty() {
        append_port_rule(&mut rules, "udp", udp_ports, limit, comment);
    }
    assert(rules@ =~= port_rules(tcp_ports@, udp_ports@, limit, comment@));
    rules
}

/// The rules that drop all packets from the given local ports.
pub fn build_block_ruleset(
    tcp_ports: &BTreeSet<u16>,
    udp_ports: &BTreeSet<u16>,
    comment: &str,
) -> (rules: String)
    ensures
        rules@ == port_rules(tcp_ports@, udp_ports@, None, comment@),
{
    build_port_ruleset(tcp_ports, udp_ports, None, comment)
}

/// The rule for packets from sockets of the given user.
pub fn build_user_rule(uid: u32, limit: Option<u32>, comment: &str) -> (rule: String)
    ensures
        rule@ == user_rule_text(uid, limit, comment@),
{
    let mut rule = String::new();
    rule.append("add rule inet filter output meta skuid ");
    append_decimal(&mut rule, uid as u64);
    rule.append(" ");
    append_limit(&mut rule, limit);
    append_drop(&mut rule, comment);
    assert(rule@ =~= user_rule_text(uid, limit, comment@));
    rule
}

/// The script that makes the chain to which all rules are added.
pub fn chain_script() -> (script: String)
    ensures
        script@ == chain_script_text(),
{
    "\nadd chain inet filter output {\n    type filter hook output priority 0;\n    policy accept;\n}\n".to_owned()
}

/// The arguments of the command that makes the table.
pub fn add_table_args() -> (args: Vec<String>)
    ensures
        text::texts(args@) == add_table_words(),
{
    let mut args: Vec<String> = Vec::new();
    args.push("add".to_owned());
    args.push("table".to_owned());
    args.push("inet".to_owned());
    args.push("filter".to_owned());
    assert(text::texts(args@) =~= add_table_words());
    args
}

fn push_chain(args: &mut Vec<String>)
    ensures
        text::texts(final(args)@) == text::texts(old(args)@) + seq!["inet"@, "filter"@, "output"@],
{
    args.push("inet".to_owned());
    args.push("filter".to_owned());
    args.push("output".to_owned());
    assert(text::texts(args@) =~= text::texts(old(args)@) + seq!["inet"@, "filter"@, "output"@]);
}

/// The arguments of the command that deletes one rule.
pub fn delete_rule_args(handle: u64) -> (args: Vec<String>)
    ensures
        text::texts(args@) == delete_rule_words(handle),
{
    let mut args: Vec<String> = Vec::new();
    args.push("delete".to_owned());
    args.push("rule".to_owned());
    let ghost front = text::texts(args@);
    assert(front =~= seq!["delete"@, "rule"@]);
    push_chain(&mut args);
    let ghost middle = text::texts(args@);
    args.push("handle".to_owned());
    args.push(decimal::decimal_text(handle));
    assert(text::texts(args@) =~= middle.push("handle"@).push(decimal::decimal(handle as nat)));
    assert(text::texts(args@) =~= delete_rule_words(handle));
    args
}

/// The arguments of the command that deletes all rules of the chain.
pub fn flush_args() -> (args: Vec<String>)
    ensures
        text::texts(args@) == flush_words(),
{
    let mut args: Vec<String> = Vec::new();
    args.push("flush".to_owned());
    args.push("chain".to_owned());
    assert(text::texts(args@) =~= seq!["flush"@, "chain"@]);
    push_chain(&mut args);
    assert(text::texts(args@) =~= flush_words());
    args
}

/// The arguments of the command that prints the rules of the chain.
pub fn list_args(handles: bool) -> (args: Vec<String>)
    ensures
        text::texts(args@) == list_words(handles),
{
    let mut args: Vec<String> = Vec::new();
    if handles {
        args.push("-a".to_owned());
    }
    args.push("list".to_owned());
    args.push("chain".to_owned());
    assert(text::texts(args@) =~= if handles {
        seq!["-a"@, "list"@, "chain"@]
    } else {
        seq!["list"@, "chain"@]
    });
    push_chain(&mut args);
    assert(text::texts(args@) =~= list_words(handles));
    args
}

/// The rate is a twelfth of the bandwidth in kbit/s, in whole packets: so much
/// a packet of the assumed size takes.  For every bandwidth that a `u32` holds
/// a `u32` holds the rate.
pub proof fn packet_rate_is_a_twelfth(rate_kbps: u32)
    ensures
        packet_rate(rate_kbps as int) == if rate_kbps < 12 {
            1
        } else {
            rate_kbps as int / 12
        },
        packet_rate(rate_kbps as int) <= 0xffff_ffff,
{
}

/// A limit never blocks all traffic, and more bandwidth never means fewer
/// packets.
pub proof fn packet_rate_is_positive_and_grows(rate_kbps: int, more: int)
    requires
        0 <= rate_kbps <= more,
    ensures
        1 <= packet_rate(rate_kbps) <= packet_rate(more),
{
}

/// A limit of at least one packet per second is as close as whole packets of
/// the assumed size allow: they take no more than the bandwidth, and one more
/// would take more.
pub proof fn packet_rate_uses_the_bandwidth(rate_kbps: int)
    requires
        rate_kbps * 1000 >= APPROX_PACKET_SIZE_BYTES * 8,
    ensures
        packet_rate(rate_kbps) * APPROX_PACKET_SIZE_BYTES * 8 <= rate_kbps * 1000,
        rate_kbps * 1000 < (packet_rate(rate_kbps) + 1) * APPROX_PACKET_SIZE_BYTES * 8,
{
}

/// Every rule of a set of rules names the scope that it was made for: the
/// marker of the scope stands in the rule for each protocol and in the rule
/// for a user.
pub proof fn rules_carry_marker(
    key: Seq<char>,
    label: Seq<char>,
    protocol: Seq<char>,
    ports: Set<u16>,
    uid: u32,
    limit: Option<u32>,
)
    ensures
        text::has_part(
            port_rule(protocol, ports, limit, scope::comment_text(key, label)),
            scope::marker_text(key),
        ),
        text::has_part(
            user_rule_text(uid, limit, scope::comment_text(key, label)),
            scope::marker_text(key),
        ),
{
    let comment = scope::comment_text(key, label);
    let marker = scope::marker_text(key);
    let rest = text::replaced(label, '"', "_"@);
    let port_front = "add rule inet filter output "@ + protocol + " sport { "@ + port_list(ports)
        + " } "@ + limit_text(limit) + "drop comment \""@;
    let port_back = rest + "\""@ + "\n"@;
    assert(port_rule(protocol, ports, limit, comment) =~= port_front + marker + port_back);
    part_in_the_middle(port_front, marker, port_back);
    let user_front = "add rule inet filter output meta skuid "@ + decimal::decimal(uid as nat)
        + " "@ + limit_text(limit) + "drop comment \""@;
    let user_back = rest + "\""@;
    assert(user_rule_text(uid, limit, comment) =~= user_front + marker + user_back);
    part_in_the_middle(user_front, marker, user_back);
}

proof fn part_in_the_middle(front: Seq<char>, part: Seq<char>, back: Seq<char>)
    ensures
        text::has_part(front + part + back, part),
{
    let whole = front + part + back;
    assert(whole.subrange(front.len() as int, (front.len() + part.len()) as int) =~= part);
    assert(text::occurs_at(whole, part, front.len() as int));
}

/// The numbers of a list as nft reads it: between commas, with blanks around
/// them or without.
pub open spec fn numbers_in_list(list: Seq<char>) -> Set<int> {
    Set::new(
        |n: int|
            exists|i: int|
                0 <= i < scan::fields(list, ',').len() && decimal::parsed(
                    scan::trimmed(#[trigger] scan::fields(list, ',')[i]),
                    10,
                    0xffff,
                ) == Some(n),
    )
}

/// The list names the ports of the set and no others, each once.
pub open spec fn lists_ports(list: Seq<char>, ports: Set<u16>) -> bool {
    &&& scan::fields(list, ',').len() == ports.len()
    &&& forall|n: int|
        #[trigger] numbers_in_list(list).contains(n) <==> 0 <= n <= 0xffff && ports.contains(
            n as u16,
        )
}

proof fn joined_ports_split(list: Seq<u16>)
    requires
        list.len() > 0,
    ensures
        scan::fields(joined(list), ',').len() == list.len(),
        forall|i: int|
            0 <= i < list.len() ==> scan::trimmed(#[trigger] scan::fields(joined(list), ',')[i])
                == decimal::decimal(list[i] as nat),
        !joined(list).contains('\n'),
    decreases list.len(),
{
    reveal_strlit(", ");
    let last = decimal::decimal(list.last() as nat);
    decimal::decimal_is_digits(list.last() as nat);
    let none = Seq::<char>::empty();
    scan::trimming_takes_space_only(none, last, none);
    assert(none + last + none =~= last);
    if list.len() == 1 {
        scan::one_field(joined(list), ',');
    } else {
        let front = list.drop_last();
        joined_ports_split(front);
        let field = seq![' '] + last;
        scan::trimming_takes_space_only(seq![' '], last, none);
        assert(seq![' '] + last + none =~= field);
        scan::one_more_field(joined(front), ',', field);
        assert(joined(list) =~= joined(front) + seq![','] + field);
        let parts = scan::fields(joined(list), ',');
        assert forall|i: int| 0 <= i < list.len() implies scan::trimmed(#[trigger] parts[i])
            == decimal::decimal(list[i] as nat) by {
            if i < front.len() {
                assert(parts[i] == scan::fields(joined(front), ',')[i]);
                assert(front[i] == list[i]);
            }
        }
        if joined(list).contains('\n') {
            let k = choose|k: int| 0 <= k < joined(list).len() && joined(list)[k] == '\n';
            if k < joined(front).len() {
                assert(joined(front)[k] == '\n');
            } else if k >= joined(front).len() + 2 {
                assert(joined(list)[k] == last[k - joined(front).len() - 2]);
            }
        }
    }
}

proof fn increasing_lists_have_no_doubles(list: Seq<u16>)
    requires
        increasing(list),
    ensures
        list.to_set().len() == list.len(),
        list.to_set().finite(),
{
    assert(list.no_duplicates()) by {
        assert forall|i: int, j: int|
            0 <= i < list.len() && 0 <= j < list.len() && i != j implies list[i] != list[j] by {
            if i < j {
                assert(list[i] < list[j]);
            } else {
                assert(list[j] < list[i]);
            }
        }
    }
    list.unique_seq_to_set();
}

/// The list of a set of ports names all of its ports, each once, and no others.
pub proof fn port_lists_read_back(ports: Set<u16>)
    requires
        !ports.is_empty(),
    ensures
        lists_ports(port_list(ports), ports),
        !port_list(ports).contains('\n'),
{
    let list = ascending(ports);
    let written = port_list(ports);
    port_sets_are_finite(ports);
    ascending_lists_the_set(ports);
    if list.len() == 0 {
        assert(list.to_set() =~= Set::empty());
    }
    joined_ports_split(list);
    increasing_lists_have_no_doubles(list);
    assert forall|n: int|
        #[trigger] numbers_in_list(written).contains(n) <==> 0 <= n <= 0xffff && ports.contains(
            n as u16,
        ) by {
        if numbers_in_list(written).contains(n) {
            let i = choose|i: int|
                0 <= i < scan::fields(written, ',').len() && decimal::parsed(
                    scan::trimmed(#[trigger] scan::fields(written, ',')[i]),
                    10,
                    0xffff,
                ) == Some(n);
            decimal::decimal_parses(list[i] as nat, 0xffff);
            assert(list.to_set().contains(list[i]));
        }
        if 0 <= n <= 0xffff && ports.contains(n as u16) {
            assert(list.to_set().contains(n as u16));
            let i = choose|i: int| 0 <= i < list.len() && list[i] == n as u16;
            decimal::decimal_parses(list[i] as nat, 0xffff);
            assert(decimal::parsed(scan::trimmed(scan::fields(written, ',')[i]), 10, 0xffff)
                == Some(n));
        }
    }
}

/// The line is a rule that drops what is sent from the ports over the protocol,
/// all of it or what exceeds the limit, and that bears the comment.
pub open spec fn drops_from_ports(
    line: Seq<char>,
    protocol: Seq<char>,
    ports: Set<u16>,
    limit: Option<u32>,
    comment: Seq<char>,
) -> bool {
    exists|list: Seq<char>|
        #[trigger] lists_ports(list, ports) && line == "add rule inet filter output "@ + protocol
            + " sport { "@ + list + " } "@ + (match limit {
            None => Seq::empty(),
            Some(rate) => "limit rate over "@ + decimal::decimal(rate as nat) + "/second "@,
        }) + "drop comment \""@ + comment + "\""@
}

/// The script has one line for each protocol with ports, and that line drops
/// what is sent from these ports.
pub open spec fn covers_ports(
    script: Seq<char>,
    tcp: Set<u16>,
    udp: Set<u16>,
    limit: Option<u32>,
    comment: Seq<char>,
) -> bool {
    let lines = scan::lines(script);
    let first: int = if tcp.is_empty() {
        0
    } else {
        1
    };
    let second: int = if udp.is_empty() {
        0
    } else {
        1
    };
    &&& lines.len() == first + second
    &&& !tcp.is_empty() ==> drops_from_ports(lines[0], "tcp"@, tcp, limit, comment)
    &&& !udp.is_empty() ==> drops_from_ports(lines[first], "udp"@, udp, limit, comment)
}

proof fn rules_end_in_line_feeds(
    protocol: Seq<char>,
    ports: Set<u16>,
    limit: Option<u32>,
    comment: Seq<char>,
    rest: Seq<char>,
)
    requires
        protocol == "tcp"@ || protocol == "udp"@,
        !ports.is_empty(),
        !comment.contains('\n'),
    ensures
        ({
            let lines = scan::lines(port_rule(protocol, ports, limit, comment) + rest);
            &&& lines.len() == 1 + scan::lines(rest).len()
            &&& drops_from_ports(lines[0], protocol, ports, limit, comment)
            &&& lines.skip(1) == scan::lines(rest)
        }),
{
    reveal_strlit("tcp");
    reveal_strlit("udp");
    reveal_strlit("add rule inet filter output ");
    reveal_strlit(" sport { ");
    reveal_strlit(" } ");
    reveal_strlit("limit rate over ");
    reveal_strlit("/second ");
    reveal_strlit("drop comment \"");
    reveal_strlit("\"");
    reveal_strlit("\n");
    let list = port_list(ports);
    port_lists_read_back(ports);
    let limited = limit_text(limit);
    if let Some(rate) = limit {
        decimal::decimal_is_digits(rate as nat);
    }
    assert(!limited.contains('\n')) by {
        if limited.contains('\n') {
            let k = choose|k: int| 0 <= k < limited.len() && limited[k] == '\n';
            let digits = decimal::decimal(limit->0 as nat);
            if 16 <= k < 16 + digits.len() {
                assert(limited[k] == digits[k - 16]);
            }
        }
    }
    let front = "add rule inet filter output "@ + protocol + " sport { "@ + list + " } "@;
    let line = front + limited + "drop comment \""@ + comment + "\""@;
    no_line_feed(
        "add rule inet filter output "@ + protocol + " sport { "@,
        list + " } "@,
    );
    no_line_feed(list, " } "@);
    no_line_feed("add rule inet filter output "@ + protocol, " sport { "@);
    no_line_feed("add rule inet filter output "@, protocol);
    assert(front =~= ("add rule inet filter output "@ + protocol + " sport { "@) + (list
        + " } "@));
    no_line_feed(front, limited);
    no_line_feed(front + limited, "drop comment \""@);
    no_line_feed(front + limited + "drop comment \""@, comment);
    no_line_feed(front + limited + "drop comment \""@ + comment, "\""@);
    assert(port_rule(protocol, ports, limit, comment) =~= line + seq!['\n']);
    assert(line.last() == '"');
    scan::line_feeds_set_lines_apart(line, rest);
    assert(port_rule(protocol, ports, limit, comment) + rest =~= line + seq!['\n'] + rest);
    let lines = scan::lines(port_rule(protocol, ports, limit, comment) + rest);
    assert(lines[0] == line);
    assert(lines.skip(1) =~= scan::lines(rest));
    assert(line =~= "add rule inet filter output "@ + protocol + " sport { "@ + list + " } "@ + (
    match limit {
        None => Seq::empty(),
        Some(rate) => "limit rate over "@ + decimal::decimal(rate as nat) + "/second "@,
    }) + "drop comment \""@ + comment + "\""@);
    assert(lists_ports(list, ports));
}

proof fn no_line_feed(a: Seq<char>, b: Seq<char>)
    ensures
        !a.contains('\n') && !b.contains('\n') ==> !(a + b).contains('\n'),
{
    if (a + b).contains('\n') {
        let k = choose|k: int| 0 <= k < (a + b).len() && (a + b)[k] == '\n';
        if k < a.len() {
            assert(a[k] == '\n');
        } else {
            assert(b[k - a.len()] == '\n');
        }
    }
}

/// Both protocols are covered, with a limit or without: whatever the ports of
/// the one are, the other has a line of its own that lists exactly its ports,
/// as soon as it has any, and there are no further lines.
pub proof fn rules_cover_both_protocols(
    tcp: Set<u16>,
    udp: Set<u16>,
    limit: Option<u32>,
    comment: Seq<char>,
)
    requires
        !comment.contains('\n'),
    ensures
        covers_ports(port_rules(tcp, udp, limit, comment), tcp, udp, limit, comment),
        port_rules(tcp, udp, limit, comment).len() == 0 <==> tcp.is_empty() && udp.is_empty(),
{
    reveal_strlit("add rule inet filter output ");
    let none = Seq::<char>::empty();
    let second = if udp.is_empty() {
        none
    } else {
        port_rule("udp"@, udp, limit, comment)
    };
    scan::last_lines_need_no_end(none);
    if !udp.is_empty() {
        rules_end_in_line_feeds("udp"@, udp, limit, comment, none);
        assert(port_rule("udp"@, udp, limit, comment) + none =~= second);
    }
    if !tcp.is_empty() {
        rules_end_in_line_feeds("tcp"@, tcp, limit, comment, second);
        let lines = scan::lines(port_rule("tcp"@, tcp, limit, comment) + second);
        if !udp.is_empty() {
            assert(lines[1] == lines.skip(1)[0]);
        }
    }
    let first = if tcp.is_empty() {
        none
    } else {
        port_rule("tcp"@, tcp, limit, comment)
    };
    assert(port_rules(tcp, udp, limit, comment) =~= first + second);
    if tcp.is_empty() {
        assert(first + second =~= second);
    }
}

/// A rule for a user names that user, and drops all that the user sends, or
/// what exceeds the limit.
pub proof fn rules_for_users_name_the_user(uid: u32, limit: Option<u32>, comment: Seq<char>)
    ensures
        ({
            let words = scan::words(user_rule_text(uid, limit, comment));
            &&& words.len() >= 8
            &&& words[5] == "meta"@
            &&& words[6] == "skuid"@
            &&& decimal::parsed(words[7], 10, 0xffff_ffff) == Some(uid as int)
        }),
        text::begins_with(
            user_rule_text(uid, limit, comment),
            "add rule inet filter output meta skuid "@ + decimal::decimal(uid as nat) + (
            match limit {
                None => " drop comment \""@,
                Some(rate) => " limit rate over "@ + decimal::decimal(rate as nat)
                    + "/second drop comment \""@,
            }),
        ),
        text::finishes_with(user_rule_text(uid, limit, comment), comment + "\""@),
{
    let rule = user_rule_text(uid, limit, comment);
    let digits = decimal::decimal(uid as nat);
    users_rule_begins(uid, limit, comment);
    reveal_strlit("add rule inet filter output meta skuid ");
    reveal_strlit("add");
    reveal_strlit("rule");
    reveal_strlit("inet");
    reveal_strlit("filter");
    reveal_strlit("output");
    reveal_strlit("meta");
    reveal_strlit("skuid");
    reveal_strlit(" ");
    let tail = limit_text(limit) + drop_text(comment);
    let blank = seq![' '];
    let g = digits + blank + tail;
    let f = "skuid"@ + blank + g;
    let e = "meta"@ + blank + f;
    let d = "output"@ + blank + e;
    let c = "filter"@ + blank + d;
    let b = "inet"@ + blank + c;
    let a = "rule"@ + blank + b;
    assert("add rule inet filter output meta skuid "@ =~= "add"@ + blank + "rule"@ + blank
        + "inet"@ + blank + "filter"@ + blank + "output"@ + blank + "meta"@ + blank + "skuid"@
        + blank);
    assert(rule =~= "add"@ + blank + a);
    scan::space_sets_words_apart("add"@, ' ', a);
    scan::space_sets_words_apart("rule"@, ' ', b);
    scan::space_sets_words_apart("inet"@, ' ', c);
    scan::space_sets_words_apart("filter"@, ' ', d);
    scan::space_sets_words_apart("output"@, ' ', e);
    scan::space_sets_words_apart("meta"@, ' ', f);
    scan::space_sets_words_apart("skuid"@, ' ', g);
    scan::space_sets_words_apart(digits, ' ', tail);
    scan::one_word("add"@);
    scan::one_word("rule"@);
    scan::one_word("inet"@);
    scan::one_word("filter"@);
    scan::one_word("output"@);
    scan::one_word("meta"@);
    scan::one_word("skuid"@);
    decimal::decimal_is_digits(uid as nat);
    scan::one_word(digits);
    decimal::decimal_parses(uid as nat, 0xffff_ffff);
    let words = scan::words(rule);
    assert(words =~= seq![
        "add"@,
        "rule"@,
        "inet"@,
        "filter"@,
        "output"@,
        "meta"@,
        "skuid"@,
        digits,
    ] + scan::words(tail));
}

proof fn users_rule_begins(uid: u32, limit: Option<u32>, comment: Seq<char>)
    ensures
        text::begins_with(
            user_rule_text(uid, limit, comment),
            "add rule inet filter output meta skuid "@ + decimal::decimal(uid as nat) + (
            match limit {
                None => " drop comment \""@,
                Some(rate) => " limit rate over "@ + decimal::decimal(rate as nat)
                    + "/second drop comment \""@,
            }),
        ),
        text::finishes_with(user_rule_text(uid, limit, comment), comment + "\""@),
{
    reveal_strlit(" ");
    reveal_strlit("\"");
    reveal_strlit("drop comment \"");
    reveal_strlit(" drop comment \"");
    reveal_strlit("limit rate over ");
    reveal_strlit(" limit rate over ");
    reveal_strlit("/second ");
    reveal_strlit("/second drop comment \"");
    let rule = user_rule_text(uid, limit, comment);
    let front = "add rule inet filter output meta skuid "@ + decimal::decimal(uid as nat);
    let middle = match limit {
        None => " drop comment \""@,
        Some(rate) => " limit rate over "@ + decimal::decimal(rate as nat)
            + "/second drop comment \""@,
    };
    assert(" "@ + limit_text(limit) + "drop comment \""@ =~= middle);
    assert(rule =~= front + middle + (comment + "\""@));
    assert(rule.subrange(0, (front + middle).len() as int) =~= front + middle);
    let at = rule.len() - (comment + "\""@).len();
    assert(rule.subrange(at, rule.len() as int) =~= comment + "\""@);
}

/// A deletion names one rule: it ends in the handle of that rule, and no two
/// rules have the same deletion.
pub proof fn deletions_name_one_rule(handle: u64, other: u64)
    ensures
        delete_rule_words(handle).len() == 7,
        delete_rule_words(handle)[0] == "delete"@,
        decimal::parsed(delete_rule_words(handle)[6], 10, 0xffff_ffff_ffff_ffff) == Some(
            handle as int,
        ),
        delete_rule_words(handle) == delete_rule_words(other) ==> handle == other,
        delete_rule_words(handle).take(6) == delete_rule_words(other).take(6),
{
    decimal::decimal_parses(handle as nat, 0xffff_ffff_ffff_ffff);
    decimal::decimal_parses(other as nat, 0xffff_ffff_ffff_ffff);
    assert(delete_rule_words(handle).take(6) =~= delete_rule_words(other).take(6));
}

/// There are only so many ports: every set of them is finite.
pub proof fn port_sets_are_finite(ports: Set<u16>)
    ensures
        ports.finite(),
{
    let all = Set::new(|p: u16| p < 0x1_0000);
    ports_below_are_finite(0x1_0000);
    assert(ports =~= all.intersect(ports));
}

proof fn ports_below_are_finite(n: int)
    requires
        0 <= n <= 0x1_0000,
    ensures
        Set::new(|p: u16| p < n).finite(),
    decreases n,
{
    if n == 0 {
        assert(Set::new(|p: u16| p < n) =~= Set::empty());
    } else {
        ports_below_are_finite(n - 1);
        assert(Set::new(|p: u16| p < n) =~= Set::new(|p: u16| p < n - 1).insert((n - 1) as u16));
    }
}

} // verus!
