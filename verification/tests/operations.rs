use netmon::controller::nft::{NftReply, RunPhase};
use netmon::controller::operation::{
    block_process, block_thread, block_user, rate_limit_process, rate_limit_thread,
    rate_limit_user, setup_nftables, unblock_all, unblock_process, unblock_thread, unblock_user,
    unlimit_process, unlimit_thread, unlimit_user, Action, Event, Operation,
};
use netmon::controller::registry::RuleRegistry;

fn done() -> Event {
    printed("")
}

fn printed(stdout: &str) -> Event {
    Event::Nft {
        reply: NftReply::Finished {
            success: true,
            stdout: stdout.to_string(),
            stderr: String::new(),
        },
    }
}

fn refused(stderr: &str) -> Event {
    Event::Nft {
        reply: NftReply::Finished {
            success: false,
            stdout: String::new(),
            stderr: stderr.to_string(),
        },
    }
}

fn missing() -> Event {
    Event::Nft {
        reply: NftReply::Failed {
            phase: RunPhase::Start,
            not_found: true,
            message: "gone".to_string(),
        },
    }
}

fn command(operation: &Operation) -> String {
    match operation.action() {
        Action::RunCommand { args } => args.join(" "),
        other => panic!("no command: {other:?}"),
    }
}

fn script(operation: &Operation) -> String {
    match operation.action() {
        Action::RunScript { script } => script,
        other => panic!("no script: {other:?}"),
    }
}

fn result(operation: &Operation) -> Result<(), String> {
    match operation.action() {
        Action::Finish { result } => result,
        other => panic!("not finished: {other:?}"),
    }
}

fn links(targets: &[&str]) -> Event {
    Event::Links { targets: targets.iter().map(|target| target.to_string()).collect() }
}

fn tables(first: &str) -> Event {
    Event::Tables { contents: vec![Some(first.to_string()), None] }
}

fn table(port: &str, inode: &str) -> String {
    format!("heading\n 0: 0100007F:{port} 00000000:0000 0A 0:0 00:0 0 1000 0 {inode} 1\n")
}

// Brings an operation that makes rules to the point at which the earlier ones
// of its scope are gone.
fn cleared(operation: Operation, registry: &mut RuleRegistry) -> Operation {
    assert_eq!(command(&operation), "add table inet filter");
    let operation = operation.resume(done());
    assert!(script(&operation).contains("add chain inet filter output"));
    let operation = operation.resume(done());
    let operation = operation.settle(registry);
    assert_eq!(command(&operation), "-a list chain inet filter output");
    operation.resume(done())
}

#[test]
fn setting_up_makes_the_table_and_the_chain() {
    let operation = setup_nftables();
    assert_eq!(command(&operation), "add table inet filter");
    let operation = operation.resume(refused("Error: File exists"));
    assert_eq!(
        script(&operation),
        "\nadd chain inet filter output {\n    type filter hook output priority 0;\n    policy accept;\n}\n"
    );
    assert_eq!(result(&operation.resume(done())), Ok(()));
}

#[test]
fn setting_up_does_not_mind_a_chain_that_is_there() {
    let operation = setup_nftables().resume(done());
    assert_eq!(result(&operation.resume(done())), Ok(()));
    let operation = setup_nftables().resume(done());
    assert_eq!(result(&operation.resume(refused("chain already exists"))), Ok(()));
    let operation = setup_nftables().resume(refused("File exists"));
    assert_eq!(result(&operation.resume(refused("File exists"))), Ok(()));
    let operation = setup_nftables().resume(done());
    assert_eq!(result(&operation.resume(refused("syntax error"))), Err("syntax error".to_string()));
    let operation = setup_nftables();
    assert_eq!(result(&operation.resume(refused("denied"))), Err("denied".to_string()));
    let operation = setup_nftables();
    assert_eq!(result(&operation.resume(missing())), Err("nft command not found".to_string()));
}

#[test]
fn a_user_is_blocked_and_unblocked() {
    let mut registry = RuleRegistry::new();
    let operation = cleared(block_user(1000, "e\"ve"), &mut registry);
    assert_eq!(
        script(&operation),
        "add rule inet filter output meta skuid 1000 drop comment \"netmon-user:1000-e_ve\""
    );
    let operation = operation.resume(done());
    assert_eq!(command(&operation), "-a list chain inet filter output");
    let operation = operation.resume(printed(
        "meta skuid 1000 drop comment \"netmon-user:1000-e_ve\" # handle 5\n\
         meta skuid 1000 drop comment \"netmon-user:1000-e_ve\" # handle 6\n\
         meta skuid 1 drop comment \"netmon-user:1-x\" # handle 7\n",
    ));
    let operation = operation.settle(&mut registry);
    assert_eq!(result(&operation), Ok(()));

    let operation = unblock_user(1000).settle(&mut registry);
    assert_eq!(command(&operation), "delete rule inet filter output handle 5");
    let operation = operation.resume(done());
    assert_eq!(command(&operation), "delete rule inet filter output handle 6");
    let operation = operation.resume(done());
    assert_eq!(result(&operation), Ok(()));
    assert_eq!(registry.take_rule_handles("user:1000"), None);
}

#[test]
fn a_process_is_blocked_by_its_ports() {
    let mut registry = RuleRegistry::new();
    let operation = cleared(block_process(42, "web"), &mut registry);
    match operation.action() {
        Action::ReadLinks { dir } => assert_eq!(dir, "/proc/42/fd"),
        other => panic!("{other:?}"),
    }
    let operation = operation.resume(links(&["socket:[7]", "/dev/null"]));
    match operation.action() {
        Action::ReadTables { paths } => assert_eq!(paths, ["/proc/net/tcp", "/proc/net/tcp6"]),
        other => panic!("{other:?}"),
    }
    let operation = operation.resume(tables(&table("1F90", "7")));
    match operation.action() {
        Action::ReadLinks { dir } => assert_eq!(dir, "/proc/42/fd"),
        other => panic!("{other:?}"),
    }
    let operation = operation.resume(links(&["socket:[8]"]));
    match operation.action() {
        Action::ReadTables { paths } => assert_eq!(paths, ["/proc/net/udp", "/proc/net/udp6"]),
        other => panic!("{other:?}"),
    }
    let operation = operation.resume(tables(&table("0035", "8")));
    assert_eq!(
        script(&operation),
        "add rule inet filter output tcp sport { 8080 } drop comment \"netmon-proc:42-web\"\n\
         add rule inet filter output udp sport { 53 } drop comment \"netmon-proc:42-web\"\n"
    );
}

fn without_ports(operation: Operation) -> Operation {
    operation
        .resume(links(&[]))
        .resume(tables(&table("1F90", "7")))
        .resume(links(&[]))
        .resume(tables(&table("1F90", "7")))
}

#[test]
fn a_process_without_ports_is_blocked_by_its_user() {
    let mut registry = RuleRegistry::new();
    let operation = without_ports(cleared(block_process(42, "web"), &mut registry));
    match operation.action() {
        Action::ReadStatus { path } => assert_eq!(path, "/proc/42/status"),
        other => panic!("{other:?}"),
    }
    let operation = operation.resume(Event::Status { content: Some("Uid:\t1\t2\t3\t4\n".to_string()) });
    assert_eq!(
        script(&operation),
        "add rule inet filter output meta skuid 2 drop comment \"netmon-proc:42-web\""
    );
    let operation = without_ports(cleared(block_process(42, "web"), &mut registry));
    assert_eq!(
        result(&operation.resume(Event::Status { content: None })),
        Err("Could not determine ports or UID for PID 42".to_string())
    );
    let operation = without_ports(cleared(rate_limit_process(42, 1024), &mut registry));
    let operation = operation.resume(Event::Status { content: Some("Uid: 1 2".to_string()) });
    assert_eq!(
        script(&operation),
        "add rule inet filter output meta skuid 2 limit rate over 85/second drop comment \"netmon-rate-proc:42-rate-limit\""
    );
}

#[test]
fn a_thread_without_ports_is_not_blocked_but_may_be_limited() {
    let mut registry = RuleRegistry::new();
    let operation = without_ports(cleared(block_thread(42, 43, "io"), &mut registry));
    assert_eq!(result(&operation), Err("No ports found for PID 42 TID 43".to_string()));
    let operation = without_ports(cleared(rate_limit_thread(42, 43, 1024), &mut registry));
    assert_eq!(script(&operation), "");
}

#[test]
fn a_thread_is_limited_by_its_ports() {
    let mut registry = RuleRegistry::new();
    let operation = cleared(rate_limit_thread(42, 43, 24), &mut registry);
    match operation.action() {
        Action::ReadLinks { dir } => assert_eq!(dir, "/proc/42/task/43/fd"),
        other => panic!("{other:?}"),
    }
    let operation = operation
        .resume(links(&["socket:[7]"]))
        .resume(tables(&table("1F90", "7")))
        .resume(links(&["socket:[7]"]))
        .resume(tables(&table("1F90", "8")));
    assert_eq!(
        script(&operation),
        "add rule inet filter output tcp sport { 8080 } limit rate over 2/second drop comment \"netmon-rate-thread:42:43-rate-limit\"\n"
    );
}

#[test]
fn errors_of_setting_up_are_passed_over() {
    let operation = block_user(1, "u").resume(refused("denied"));
    match operation.action() {
        Action::TakeHandles { key } => assert_eq!(key, "user:1"),
        other => panic!("{other:?}"),
    }
    let operation = rate_limit_user(1, 1).resume(done()).resume(missing());
    match operation.action() {
        Action::TakeHandles { key } => assert_eq!(key, "rate-user:1"),
        other => panic!("{other:?}"),
    }
}

#[test]
fn kept_rules_are_deleted_without_a_listing() {
    let mut registry = RuleRegistry::new();
    registry.register_rule_handles("proc:1", vec![3]);
    registry.register_rule_handles("rate-proc:1", vec![4]);
    let operation = unblock_process(1).settle(&mut registry);
    assert_eq!(command(&operation), "delete rule inet filter output handle 3");
    assert_eq!(result(&operation.resume(done())), Ok(()));
    let operation = unlimit_process(1).settle(&mut registry);
    assert_eq!(command(&operation), "delete rule inet filter output handle 4");
}

#[test]
fn unknown_rules_are_looked_up() {
    let mut registry = RuleRegistry::new();
    registry.register_rule_handles("thread:1:2", vec![]);
    let operation = unblock_thread(1, 2).settle(&mut registry);
    assert_eq!(command(&operation), "-a list chain inet filter output");
    let operation = operation.resume(printed("x \"netmon-thread:1:2-a\" # handle 8\n"));
    assert_eq!(command(&operation), "delete rule inet filter output handle 8");
    let operation = unlimit_thread(1, 2).settle(&mut registry);
    assert_eq!(result(&operation.resume(printed("nothing\n"))), Ok(()));
    let operation = unlimit_user(1).settle(&mut registry);
    assert_eq!(result(&operation.resume(refused("no table"))), Err("no table".to_string()));
    let operation = unlimit_user(1).settle(&mut registry);
    assert_eq!(result(&operation.resume(missing())), Err("nft list failed: gone".to_string()));
}

#[test]
fn rules_of_other_scopes_are_spared() {
    let mut registry = RuleRegistry::new();
    registry.register_rule_handles("proc:1", vec![3]);
    registry.register_rule_handles("rate-proc:10", vec![4]);
    let operation = unlimit_process(1).settle(&mut registry);
    let operation = operation.resume(printed(
        "table inet filter {\n\tchain output {\n\
         tcp sport { 5 } drop comment \"netmon-proc:1-cat\" # handle 3\n\
         tcp sport { 6 } limit rate over 8/second drop comment \"netmon-rate-proc:10-rate-limit\" # handle 4\n\
         tcp sport { 5 } limit rate over 8/second drop comment \"netmon-rate-proc:1-rate-limit\" # handle 5\n\
         meta skuid 1 drop comment \"netmon-rate-user:1-rate-limit\" # handle 6\n\
         udp sport { 5 } limit rate over 8/second drop comment \"netmon-rate-proc:1-rate-limit\" # handle 7\n\t}\n}\n",
    ));
    assert_eq!(command(&operation), "delete rule inet filter output handle 5");
    let operation = operation.resume(done());
    assert_eq!(command(&operation), "delete rule inet filter output handle 7");
    assert_eq!(result(&operation.resume(done())), Ok(()));
    assert_eq!(registry.take_rule_handles("rate-proc:1"), None);
    assert_eq!(registry.take_rule_handles("proc:1"), Some(vec![3]));
    assert_eq!(registry.take_rule_handles("rate-proc:10"), Some(vec![4]));
}

#[test]
fn a_refused_deletion_ends_the_operation() {
    let mut registry = RuleRegistry::new();
    registry.register_rule_handles("user:1", vec![3, 4]);
    let operation = block_user(1, "u").resume(done()).resume(done()).settle(&mut registry);
    let operation = operation.resume(refused("No such file"));
    assert_eq!(result(&operation), Err("No such file".to_string()));
    assert_eq!(registry.take_rule_handles("user:1"), None);
}

#[test]
fn a_refused_script_ends_the_operation() {
    let mut registry = RuleRegistry::new();
    let operation = cleared(block_user(1, "u"), &mut registry);
    assert_eq!(result(&operation.resume(refused("exists"))), Err("exists".to_string()));
    let operation = cleared(block_user(1, "u"), &mut registry).resume(done());
    assert_eq!(result(&operation.resume(refused("gone"))), Err("gone".to_string()));
}

#[test]
fn an_unreachable_registry_ends_the_operation() {
    let poisoned = Err("rules map poisoned".to_string());
    assert_eq!(result(&unblock_user(1).resume(Event::MapPoisoned)), poisoned);
    let mut registry = RuleRegistry::new();
    let operation = cleared(block_user(1, "u"), &mut registry).resume(done()).resume(done());
    assert_eq!(result(&operation.resume(Event::MapPoisoned)), poisoned);
    let operation = unblock_all().resume(done());
    assert_eq!(result(&operation.resume(Event::MapPoisoned)), poisoned);
}

#[test]
fn flushing_empties_the_chain_and_the_registry() {
    let mut registry = RuleRegistry::new();
    registry.register_rule_handles("user:1", vec![3, 4]);
    let operation = unblock_all();
    assert_eq!(command(&operation), "flush chain inet filter output");
    let operation = operation.resume(done()).settle(&mut registry);
    assert_eq!(result(&operation), Ok(()));
    assert_eq!(registry.take_rule_handles("user:1"), None);
    registry.register_rule_handles("user:1", vec![3]);
    let operation = unblock_all().resume(refused("no chain"));
    assert_eq!(result(&operation), Err("no chain".to_string()));
    assert_eq!(registry.take_rule_handles("user:1"), Some(vec![3]));
}

#[test]
fn settling_leaves_other_operations_alone() {
    let mut registry = RuleRegistry::new();
    registry.register_rule_handles("user:1", vec![3]);
    let operation = setup_nftables().settle(&mut registry);
    assert_eq!(command(&operation), "add table inet filter");
    assert_eq!(registry.take_rule_handles("user:1"), Some(vec![3]));
}
