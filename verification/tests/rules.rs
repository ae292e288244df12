use std::collections::BTreeSet;

use netmon::controller::error::ControllerError;
use netmon::controller::nft::{
    command_result, find_rule_handles_by_marker, is_root, list_rules, map_nft_spawn_error,
    script_result, NftReply, RunPhase,
};
use netmon::controller::procfs::{
    collect_net_table_ports, collect_socket_inodes, parse_port_from_proc_addr, parse_socket_inode,
    process_links_dir, status_file, thread_links_dir, uid_in_status,
};
use netmon::controller::registry::RuleRegistry;
use netmon::controller::rules::{
    add_table_args, build_block_ruleset, build_port_ruleset, build_user_rule, chain_script,
    delete_rule_args, flush_args, join_ports, kbps_to_packets_per_second, list_args,
};
use netmon::controller::scope::{key_of, scope_key, scope_marker, scoped_comment, Control, Target};

fn ports(list: &[u16]) -> BTreeSet<u16> {
    list.iter().copied().collect()
}

fn finished(success: bool, stdout: &str, stderr: &str) -> NftReply {
    NftReply::Finished {
        success,
        stdout: stdout.to_string(),
        stderr: stderr.to_string(),
    }
}

fn failed(phase: RunPhase, not_found: bool, message: &str) -> NftReply {
    NftReply::Failed { phase, not_found, message: message.to_string() }
}

#[test]
fn scopes_are_named_after_their_targets() {
    assert_eq!(scope_key("proc", "42"), "proc:42");
    assert_eq!(scope_marker("proc:42"), "netmon-proc:42-");
    assert_eq!(scoped_comment("proc:42", "say \"hi\""), "netmon-proc:42-say _hi_");
    let process = Target::Process { pid: 42 };
    let thread = Target::Thread { pid: 42, tid: 43 };
    let user = Target::User { uid: 1000 };
    assert_eq!(key_of(process, Control::Block), "proc:42");
    assert_eq!(key_of(process, Control::Limit), "rate-proc:42");
    assert_eq!(key_of(thread, Control::Block), "thread:42:43");
    assert_eq!(key_of(thread, Control::Limit), "rate-thread:42:43");
    assert_eq!(key_of(user, Control::Block), "user:1000");
    assert_eq!(key_of(user, Control::Limit), "rate-user:1000");
}

#[test]
fn different_scopes_have_different_markers() {
    let targets = [
        Target::Process { pid: 1 },
        Target::Process { pid: 11 },
        Target::Thread { pid: 1, tid: 1 },
        Target::Thread { pid: 1, tid: 11 },
        Target::Thread { pid: 11, tid: 1 },
        Target::User { uid: 1 },
        Target::User { uid: 11 },
    ];
    let mut markers = Vec::new();
    for target in targets {
        for control in [Control::Block, Control::Limit] {
            markers.push(scope_marker(&key_of(target, control)));
        }
    }
    for (i, a) in markers.iter().enumerate() {
        for (j, b) in markers.iter().enumerate() {
            assert_eq!(i == j, a.contains(b.as_str()), "{a} {b}");
        }
    }
}

#[test]
fn ports_are_joined_in_order() {
    assert_eq!(join_ports(&ports(&[])), "");
    assert_eq!(join_ports(&ports(&[443])), "443");
    assert_eq!(join_ports(&ports(&[8080, 22, 443, 65535])), "22, 443, 8080, 65535");
}

#[test]
fn bandwidth_becomes_a_packet_rate() {
    assert_eq!(kbps_to_packets_per_second(0), 1);
    assert_eq!(kbps_to_packets_per_second(1), 1);
    assert_eq!(kbps_to_packets_per_second(12), 1);
    assert_eq!(kbps_to_packets_per_second(23), 1);
    assert_eq!(kbps_to_packets_per_second(24), 2);
    assert_eq!(kbps_to_packets_per_second(1024), 85);
    assert_eq!(kbps_to_packets_per_second(10_000), 833);
    assert_eq!(kbps_to_packets_per_second(4_294_967), 357_913);
    assert_eq!(kbps_to_packets_per_second(4_294_968), 357_914);
    assert_eq!(kbps_to_packets_per_second(5_000_000), 416_666);
    assert_eq!(kbps_to_packets_per_second(u32::MAX), 357_913_941);
    let mut last = 0;
    for rate in (0..100_000).step_by(37) {
        let packets = kbps_to_packets_per_second(rate);
        assert!(packets >= 1 && packets >= last);
        last = packets;
    }
}

#[test]
fn rulesets_have_a_rule_for_each_protocol() {
    assert_eq!(build_block_ruleset(&ports(&[]), &ports(&[]), "c"), "");
    assert_eq!(
        build_block_ruleset(&ports(&[443, 80]), &ports(&[]), "netmon-proc:1-web"),
        "add rule inet filter output tcp sport { 80, 443 } drop comment \"netmon-proc:1-web\"\n"
    );
    assert_eq!(
        build_block_ruleset(&ports(&[80]), &ports(&[53]), "c"),
        "add rule inet filter output tcp sport { 80 } drop comment \"c\"\n\
         add rule inet filter output udp sport { 53 } drop comment \"c\"\n"
    );
    assert_eq!(
        build_port_ruleset(&ports(&[]), &ports(&[53]), Some(85), "c"),
        "add rule inet filter output udp sport { 53 } limit rate over 85/second drop comment \"c\"\n"
    );
}

#[test]
fn user_rules_match_the_owner_of_the_socket() {
    assert_eq!(
        build_user_rule(1000, None, "netmon-user:1000-eve"),
        "add rule inet filter output meta skuid 1000 drop comment \"netmon-user:1000-eve\""
    );
    assert_eq!(
        build_user_rule(0, Some(7), "c"),
        "add rule inet filter output meta skuid 0 limit rate over 7/second drop comment \"c\""
    );
}

#[test]
fn commands_have_these_arguments() {
    assert_eq!(add_table_args(), ["add", "table", "inet", "filter"]);
    assert_eq!(flush_args(), ["flush", "chain", "inet", "filter", "output"]);
    assert_eq!(list_args(false), ["list", "chain", "inet", "filter", "output"]);
    assert_eq!(list_args(true), ["-a", "list", "chain", "inet", "filter", "output"]);
    assert_eq!(
        delete_rule_args(17),
        ["delete", "rule", "inet", "filter", "output", "handle", "17"]
    );
    assert_eq!(
        chain_script(),
        "\nadd chain inet filter output {\n    type filter hook output priority 0;\n    policy accept;\n}\n"
    );
}

#[test]
fn ports_in_addresses_are_hexadecimal() {
    assert_eq!(parse_port_from_proc_addr("0100007F:1F90"), Some(8080));
    assert_eq!(parse_port_from_proc_addr("00000000000000000000000001000000:0016"), Some(22));
    assert_eq!(parse_port_from_proc_addr("0100007F:FFFF"), Some(65535));
    assert_eq!(parse_port_from_proc_addr("0100007F:0016:77"), Some(22));
    assert_eq!(parse_port_from_proc_addr("0100007F"), None);
    assert_eq!(parse_port_from_proc_addr("0100007F:"), None);
    assert_eq!(parse_port_from_proc_addr("0100007F:10000"), None);
    assert_eq!(parse_port_from_proc_addr("0100007F:xyz"), None);
    for port in [0u16, 1, 80, 255, 256, 4095, 4096, 40_000, 65_535] {
        assert_eq!(parse_port_from_proc_addr(&format!("00000000:{port:04X}")), Some(port));
    }
}

#[test]
fn links_to_sockets_give_their_inodes() {
    assert_eq!(parse_socket_inode("socket:[31337]"), Some(31337));
    assert_eq!(parse_socket_inode("socket:[18446744073709551615]"), Some(u64::MAX));
    assert_eq!(parse_socket_inode("socket:[18446744073709551616]"), None);
    assert_eq!(parse_socket_inode("socket:[]"), None);
    assert_eq!(parse_socket_inode("socket:["), None);
    assert_eq!(parse_socket_inode("socket:[12"), None);
    assert_eq!(parse_socket_inode("pipe:[12]"), None);
    assert_eq!(parse_socket_inode("/dev/null"), None);
    let links: Vec<String> = ["socket:[3]", "pipe:[4]", "socket:[1]", "socket:[3]", "socket:[x]"]
        .iter()
        .map(|link| link.to_string())
        .collect();
    assert_eq!(collect_socket_inodes(&links), BTreeSet::from([1, 3]));
}

const TABLE: &str = "  sl  local_address rem_address   st tx_queue rx_queue tr tm->when retrnsmt   uid  timeout inode\n   0: 0100007F:1F90 00000000:0000 0A 00000000:00000000 00:00000000 00000000  1000        0 555 1 0000000000000000 100 0 0 10 0\n   1: 0100007F:0016 00000000:0000 0A 00000000:00000000 00:00000000 00000000     0        0 777 1\n   2: 0100007F:0017 00000000:0000 0A 00000000:00000000 00:00000000 00000000     0        0 none 1\n   3: short line\n";

#[test]
fn tables_give_the_ports_of_the_wanted_sockets() {
    let tables = vec![None, Some(TABLE.to_string())];
    assert_eq!(collect_net_table_ports(&tables, None), ports(&[22, 8080]));
    assert_eq!(collect_net_table_ports(&tables, Some(&BTreeSet::from([777]))), ports(&[22]));
    assert_eq!(collect_net_table_ports(&tables, Some(&BTreeSet::from([555, 778]))), ports(&[8080]));
    assert_eq!(collect_net_table_ports(&tables, Some(&BTreeSet::new())), ports(&[]));
    assert_eq!(collect_net_table_ports(&vec![None, None], None), ports(&[]));
    let heading_only = vec![Some(TABLE.lines().nth(1).unwrap().to_string())];
    assert_eq!(collect_net_table_ports(&heading_only, None), ports(&[]));
}

#[test]
fn the_effective_user_is_the_second_number() {
    assert_eq!(uid_in_status("Name:\tcat\nUid:\t1000\t1001\t1002\t1003\nGid:\t5\t6\n"), Some(1001));
    assert_eq!(uid_in_status("Uid:\t1000\n"), None);
    assert_eq!(uid_in_status("Uid:\t1000\tx\n"), None);
    assert_eq!(uid_in_status("Uid:\t1000\nUid:\t1 2\n"), None);
    assert_eq!(uid_in_status(" Uid:\t1 2\n"), None);
    assert_eq!(uid_in_status(""), None);
    assert_eq!(uid_in_status("Uid: 1 4294967296"), None);
}

#[test]
fn files_of_processes_have_these_paths() {
    assert_eq!(process_links_dir(12), "/proc/12/fd");
    assert_eq!(thread_links_dir(12, 13), "/proc/12/task/13/fd");
    assert_eq!(status_file(12), "/proc/12/status");
}

#[test]
fn a_missing_program_has_an_error_of_its_own() {
    assert_eq!(map_nft_spawn_error(true, "No such file"), "nft command not found");
    assert_eq!(map_nft_spawn_error(false, "denied"), "failed to run nft: denied");
}

#[test]
fn commands_may_find_things_there_already() {
    assert_eq!(command_result(&finished(true, "", "warning"), false), Ok(()));
    assert_eq!(command_result(&finished(false, "", "Error: File exists"), true), Ok(()));
    assert_eq!(
        command_result(&finished(false, "", "Error: File exists"), false),
        Err("Error: File exists".to_string())
    );
    assert_eq!(command_result(&finished(false, "", "bad"), true), Err("bad".to_string()));
    assert_eq!(
        command_result(&failed(RunPhase::Start, true, "m"), true),
        Err("nft command not found".to_string())
    );
    assert_eq!(
        command_result(&failed(RunPhase::Wait, false, "m"), true),
        Err("failed to run nft: m".to_string())
    );
}

#[test]
fn scripts_fail_in_several_ways() {
    assert_eq!(script_result(&finished(true, "", "")), Ok(()));
    assert_eq!(script_result(&finished(false, "out", "exists")), Err("exists".to_string()));
    assert_eq!(
        script_result(&failed(RunPhase::Start, true, "m")),
        Err("nft command not found".to_string())
    );
    assert_eq!(
        script_result(&failed(RunPhase::Start, false, "m")),
        Err("failed to run nft: m".to_string())
    );
    assert_eq!(
        script_result(&failed(RunPhase::Write, false, "m")),
        Err("stdin write failed: m".to_string())
    );
    assert_eq!(
        script_result(&failed(RunPhase::Wait, false, "m")),
        Err("nft wait failed: m".to_string())
    );
}

const LISTING: &str = "table inet filter {\n\tchain output { # handle 1\n\t\ttcp sport { 80 } drop comment \"netmon-proc:7-a handle b\" # handle 12\n\t\tudp sport { 53 } drop comment \"netmon-proc:7-a\" # handle 13 \n\t\tmeta skuid 5 drop comment \"netmon-proc:77-a\" # handle 14\n\t\tmeta skuid 5 drop comment \"netmon-proc:7-odd\" # handle x\n\t\tmeta skuid 5 drop comment \"netmon-proc:7-none\"\n\t}\n}\n";

#[test]
fn handles_are_found_by_marker() {
    assert_eq!(
        find_rule_handles_by_marker(&finished(true, LISTING, ""), "netmon-proc:7-"),
        Ok(vec![12, 13])
    );
    assert_eq!(
        find_rule_handles_by_marker(&finished(true, LISTING, ""), "netmon-proc:77-"),
        Ok(vec![14])
    );
    assert_eq!(
        find_rule_handles_by_marker(&finished(true, LISTING, ""), "netmon-user:1-"),
        Ok(vec![])
    );
    assert_eq!(
        find_rule_handles_by_marker(&finished(false, LISTING, "no table"), "netmon-proc:7-"),
        Err("no table".to_string())
    );
    assert_eq!(
        find_rule_handles_by_marker(&failed(RunPhase::Start, true, "m"), "netmon-proc:7-"),
        Err("nft list failed: m".to_string())
    );
}

#[test]
fn a_listed_rule_leads_to_its_handle() {
    let comment = scoped_comment("thread:3:4", "a \"handle 9\" b");
    let line = format!("\t\ttcp sport {{ 80 }} drop comment \"{comment}\" # handle 4711");
    assert_eq!(
        find_rule_handles_by_marker(&finished(true, &line, ""), &scope_marker("thread:3:4")),
        Ok(vec![4711])
    );
}

#[test]
fn rules_are_listed_line_by_line() {
    assert_eq!(
        list_rules(&finished(true, "a\nb\n", "")),
        Ok(vec!["a".to_string(), "b".to_string()])
    );
    assert_eq!(list_rules(&finished(false, "a", "no chain")), Err("no chain".to_string()));
    assert_eq!(
        list_rules(&failed(RunPhase::Start, true, "m")),
        Err("failed to run nft: m".to_string())
    );
}

#[test]
fn the_superuser_has_number_zero() {
    assert!(is_root(Some("0\n")));
    assert!(is_root(Some(" 0 ")));
    assert!(!is_root(Some("1000\n")));
    assert!(!is_root(Some("00")));
    assert!(!is_root(Some("")));
    assert!(!is_root(None));
}

#[test]
fn errors_say_where_they_come_from() {
    assert_eq!(ControllerError::Io("m".to_string()).message(), "io error: m");
    assert_eq!(ControllerError::Nft("m".to_string()).message(), "nft error: m");
    assert_eq!(ControllerError::Parse("m".to_string()).message(), "parse error: m");
}

#[test]
fn the_registry_gives_back_what_it_keeps() {
    let mut registry = RuleRegistry::new();
    assert_eq!(registry.take_rule_handles("a"), None);
    registry.register_rule_handles("a", vec![1, 2]);
    registry.register_rule_handles("b", vec![3]);
    registry.register_rule_handles("a", vec![4]);
    assert_eq!(registry.take_rule_handles("a"), Some(vec![4]));
    assert_eq!(registry.take_rule_handles("a"), None);
    assert_eq!(registry.take_rule_handles("b"), Some(vec![3]));
    registry.register_rule_handles("c", vec![]);
    assert_eq!(registry.take_rule_handles("c"), Some(vec![]));
    registry.register_rule_handles("d", vec![9]);
    registry.clear();
    assert_eq!(registry.take_rule_handles("d"), None);
}
