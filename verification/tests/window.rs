use netmon::controller::scope::{Control, Target};
use netmon::monitor::control::{control_status, ControlSets, Request};
use netmon::monitor::desktop::{
    csv_export_path, figures_are_due, filter_refused, pcap_export_path, rate_refused,
    recording_path, CaptureStep, Desktop, FilterRequest,
};
use netmon::monitor::export::{csv_status, pcap_obstacle, pcap_status, CsvOutcome, PcapOutcome};
use netmon::monitor::model::ThreadKey;
use netmon::monitor::system::{
    detect_virtualbox, ensure_privileges, get_user_home, has_required_capabilities, is_virtualbox,
};
use netmon::monitor::table::SortColumn;

#[test]
fn the_window_opens_like_this() {
    let desktop = Desktop::new(true);
    assert_eq!(desktop.selected_iface, 0);
    assert_eq!(desktop.selected_thread, None);
    assert_eq!(desktop.sort_column, SortColumn::Pid);
    assert!(desktop.sort_ascending);
    assert!(!desktop.is_capturing);
    assert_eq!(desktop.bpf_input, "");
    assert!(!desktop.show_bits);
    assert_eq!(desktop.active_filter, "");
    assert_eq!(desktop.chart_window_seconds, 60);
    assert_eq!(desktop.rate_limit_kbps_input, "1024");
    assert_eq!(desktop.recording_path, None);
    assert_eq!(desktop.pending_block, None);
    assert!(desktop.virtualization_warning);
    assert!(!Desktop::new(false).virtualization_warning);
}

#[test]
fn choosing_a_column_sorts_by_it() {
    let mut desktop = Desktop::new(false);
    desktop.set_sort(SortColumn::Pid);
    assert!(!desktop.sort_ascending);
    desktop.set_sort(SortColumn::User);
    assert_eq!(desktop.sort_column, SortColumn::User);
    assert!(desktop.sort_ascending);
    desktop.set_sort(SortColumn::User);
    assert!(!desktop.sort_ascending);
    desktop.set_sort(SortColumn::User);
    assert!(desktop.sort_ascending);
}

#[test]
fn capture_starts_and_stops() {
    let mut desktop = Desktop::new(false);
    assert_eq!(desktop.start_capture(0), None);
    assert_eq!(desktop.start_capture(2), Some(0));
    desktop.selected_iface = 2;
    assert_eq!(desktop.start_capture(2), None);
    assert_eq!(desktop.start_capture(3), Some(2));
    assert_eq!(desktop.stop_capture(), None);
    assert!(desktop.restart_capture_for_interface_change().is_empty());
    assert_eq!(
        desktop.capture_failed("eth0", "denied"),
        "Failed to start capture on eth0: denied"
    );
    assert!(!desktop.is_capturing);
    assert_eq!(desktop.recording_path, None);
    assert_eq!(desktop.capture_started("eth0", "/tmp/x".to_string()), "Capturing on eth0...");
    assert!(desktop.is_capturing);
    assert_eq!(desktop.recording_path.as_deref(), Some("/tmp/x"));
    assert_eq!(desktop.start_capture(3), None);
    assert_eq!(
        desktop.restart_capture_for_interface_change(),
        [CaptureStep::Stop, CaptureStep::Start]
    );
    assert_eq!(desktop.stop_capture().as_deref(), Some("Capture stopped"));
    assert!(!desktop.is_capturing);
    assert_eq!(desktop.recording_path.as_deref(), Some("/tmp/x"));
}

fn refusal(request: FilterRequest) -> String {
    match request {
        FilterRequest::Refuse { status } => status,
        FilterRequest::Apply { expression } => panic!("{expression}"),
    }
}

#[test]
fn filters_need_a_capture_and_an_expression() {
    let mut desktop = Desktop::new(false);
    assert_eq!(refusal(desktop.apply_bpf_filter(true)), "Enter a BPF expression before applying it");
    desktop.bpf_input = " \t".to_string();
    assert_eq!(refusal(desktop.apply_bpf_filter(true)), "Enter a BPF expression before applying it");
    desktop.bpf_input = "  tcp port 80 ".to_string();
    assert_eq!(refusal(desktop.apply_bpf_filter(false)), "Cannot apply BPF: capture is not running");
    match desktop.apply_bpf_filter(true) {
        FilterRequest::Apply { expression } => assert_eq!(expression, "tcp port 80"),
        other => panic!("{other:?}"),
    }
    assert_eq!(filter_refused("syntax"), "BPF error: syntax");
}

#[test]
fn messages_change_the_filter_or_end_the_capture() {
    let mut desktop = Desktop::new(false);
    let _ = desktop.capture_started("lo", "/tmp/x".to_string());
    assert!(!desktop.update_status("Filter applied: udp"));
    assert_eq!(desktop.active_filter, "udp");
    assert!(!desktop.update_status("BPF error: Filter applied: no"));
    assert_eq!(desktop.active_filter, "udp");
    assert!(!desktop.update_status("Capture stopped"));
    assert!(desktop.is_capturing);
    assert!(desktop.update_status("Capture stopped: device gone"));
    assert!(!desktop.is_capturing);
    assert_eq!(desktop.active_filter, "udp");
    assert!(!desktop.update_status("Filter applied: "));
    assert_eq!(desktop.active_filter, "");
}

#[test]
fn rates_are_positive_numbers() {
    let mut desktop = Desktop::new(false);
    assert_eq!(desktop.parse_rate_limit_kbps(), Some(1024));
    for (input, rate) in [
        (" 5 ", Some(5)),
        ("+7", Some(7)),
        ("0", None),
        ("", None),
        ("-1", None),
        ("ten", None),
        ("4294967295", Some(u32::MAX)),
        ("4294967296", None),
    ] {
        desktop.rate_limit_kbps_input = input.to_string();
        assert_eq!(desktop.parse_rate_limit_kbps(), rate, "{input:?}");
    }
    assert_eq!(rate_refused(), "Enter a positive kbit/s value before limiting bandwidth");
}

#[test]
fn blocking_from_the_menu_is_confirmed_first() {
    let mut desktop = Desktop::new(false);
    assert_eq!(desktop.block_question(), None);
    assert_eq!(desktop.close_question(), None);
    desktop.ask_to_block(7, "cat");
    assert_eq!(
        desktop.block_question().as_deref(),
        Some("Block all traffic for cat (PID 7)? This will insert an nftables rule. Confirm?")
    );
    assert_eq!(desktop.close_question(), Some((7, "cat".to_string())));
    assert_eq!(desktop.block_question(), None);
}

#[test]
fn the_selection_can_be_dropped() {
    let mut desktop = Desktop::new(false);
    desktop.selected_thread = Some(ThreadKey { pid: 1, tid: 2 });
    desktop.clear_selection();
    assert_eq!(desktop.selected_thread, None);
}

#[test]
fn files_lie_in_the_home_directory() {
    assert_eq!(recording_path("/home/eve", 17), "/home/eve/netmon_capture_17.pcap");
    assert_eq!(csv_export_path("/root", 18), "/root/netmon_export_18.csv");
    assert_eq!(pcap_export_path("/root", 19), "/root/netmon_export_19.pcap");
}

#[test]
fn figures_are_computed_ten_times_a_second() {
    assert!(!figures_are_due(0));
    assert!(!figures_are_due(99));
    assert!(figures_are_due(100));
}

#[test]
fn the_status_line_names_the_target() {
    let process = Target::Process { pid: 7 };
    let thread = Target::Thread { pid: 7, tid: 8 };
    let user = Target::User { uid: 9 };
    let limit = Request::Limit { rate_kbps: 512 };
    for (request, target, good, bad) in [
        (Request::Block, process, "Blocked cat (PID 7)", "Block failed for PID 7: no"),
        (Request::Block, thread, "Blocked cat (PID 7, TID 8)", "Block failed for PID 7, TID 8: no"),
        (Request::Block, user, "Blocked user cat (UID 9)", "Block failed for UID 9: no"),
        (Request::Unblock, process, "Unblocked PID 7", "Unblock failed for PID 7: no"),
        (Request::Unblock, thread, "Unblocked PID 7, TID 8", "Unblock failed for PID 7, TID 8: no"),
        (Request::Unblock, user, "Unblocked user cat (UID 9)", "Unblock failed for UID 9: no"),
        (limit, process, "Rate-limited cat (PID 7) to 512 kbit/s", "Rate limit failed for PID 7: no"),
        (
            limit,
            thread,
            "Rate-limited cat (PID 7, TID 8) to 512 kbit/s",
            "Rate limit failed for PID 7, TID 8: no",
        ),
        (limit, user, "Rate-limited user cat (UID 9) to 512 kbit/s", "Rate limit failed for UID 9: no"),
    ] {
        assert_eq!(control_status(request, target, "cat", &Ok(())), good);
        assert_eq!(control_status(request, target, "cat", &Err("no".to_string())), bad);
    }
}

#[test]
fn only_met_requests_are_recorded() {
    let mut sets = ControlSets::new();
    let refused = Err("no".to_string());
    sets.record(Target::Process { pid: 1 }, Control::Block, true, &refused);
    assert!(sets.blocked_pids.is_empty());
    sets.record(Target::Process { pid: 1 }, Control::Block, true, &Ok(()));
    sets.record(Target::Process { pid: 2 }, Control::Limit, true, &Ok(()));
    sets.record(Target::Thread { pid: 1, tid: 3 }, Control::Block, true, &Ok(()));
    sets.record(Target::Thread { pid: 1, tid: 4 }, Control::Limit, true, &Ok(()));
    sets.record(Target::User { uid: 5 }, Control::Block, true, &Ok(()));
    sets.record(Target::User { uid: 6 }, Control::Limit, true, &Ok(()));
    assert_eq!(sets.blocked_pids, [1].into());
    assert_eq!(sets.rate_limited_pids, [2].into());
    assert_eq!(sets.blocked_threads, [(1, 3)].into());
    assert_eq!(sets.rate_limited_threads, [(1, 4)].into());
    assert_eq!(sets.blocked_users, [5].into());
    assert_eq!(sets.rate_limited_users, [6].into());
    sets.record(Target::User { uid: 5 }, Control::Block, false, &refused);
    assert_eq!(sets.blocked_users, [5].into());
    sets.record(Target::User { uid: 5 }, Control::Block, false, &Ok(()));
    assert!(sets.blocked_users.is_empty());
    assert_eq!(sets.rate_limited_users, [6].into());
}

#[test]
fn exports_are_reported() {
    let text = |s: &str| s.to_string();
    assert_eq!(csv_status(&CsvOutcome::NoHistory), "No session history captured yet");
    assert_eq!(csv_status(&CsvOutcome::NotCreated { error: text("e") }), "CSV export failed: e");
    assert_eq!(csv_status(&CsvOutcome::HeaderNotWritten), "CSV export failed while writing header");
    assert_eq!(csv_status(&CsvOutcome::RowsNotWritten), "CSV export failed while writing rows");
    assert_eq!(csv_status(&CsvOutcome::Exported { path: text("/x") }), "Exported CSV to /x");
    assert_eq!(pcap_status(&PcapOutcome::NotRecorded), "PCAP export unavailable: start capture first");
    assert_eq!(pcap_status(&PcapOutcome::NoFile), "PCAP export unavailable: no recording file yet");
    assert_eq!(pcap_status(&PcapOutcome::NotCopied { error: text("e") }), "PCAP export failed: e");
    assert_eq!(pcap_status(&PcapOutcome::Exported { path: text("/x") }), "Exported PCAP to /x");
    assert!(matches!(pcap_obstacle(false, true), Some(PcapOutcome::NotRecorded)));
    assert!(matches!(pcap_obstacle(true, false), Some(PcapOutcome::NoFile)));
    assert!(pcap_obstacle(true, true).is_none());
}

#[test]
fn virtual_machines_are_known_by_their_names() {
    assert!(is_virtualbox("my-vbox", ""));
    assert!(is_virtualbox("", "virtualbox"));
    assert!(!is_virtualbox("virtualbox", "vbox"));
    assert!(!is_virtualbox("VBOX", "VirtualBox"));
    assert!(detect_virtualbox(Some("Dev-VBox-3\n"), None));
    assert!(detect_virtualbox(None, Some("VirtualBox\n")));
    assert!(detect_virtualbox(Some("plain"), Some("VIRTUALBOX")));
    assert!(!detect_virtualbox(Some("plain"), Some("ThinkPad")));
    assert!(!detect_virtualbox(None, None));
}

const USERS: &str = "root:x:0:0:root:/root:/bin/sh\nshort:x:1\neve:x:1000:1000:Eve,,,:/home/eve:/bin/sh\neve:x:1:1::/elsewhere:/bin/sh\nbare:x:5:5::\n";

#[test]
fn the_home_is_that_of_the_user_before_sudo() {
    assert_eq!(get_user_home(Some("eve"), Some(USERS), Some("/root")), "/home/eve");
    assert_eq!(get_user_home(Some("short"), Some(USERS), Some("/root")), "/root");
    assert_eq!(get_user_home(Some("bare"), Some(USERS), Some("/root")), "");
    assert_eq!(get_user_home(Some("eva"), Some(USERS), Some("/root")), "/root");
    assert_eq!(get_user_home(Some("eve"), None, Some("/root")), "/root");
    assert_eq!(get_user_home(None, Some(USERS), Some("/home/x")), "/home/x");
    assert_eq!(get_user_home(None, None, None), "/tmp");
}

#[test]
fn two_capabilities_are_needed() {
    let status = |set: &str| format!("Name:\tx\nCapPrm:\t0\nCapEff:\t{set}\nCapBnd:\tffff\n");
    for (set, expected) in [
        ("0000000000003000", true),
        ("000001ffffffffff", true),
        ("0000000000001000", false),
        ("0000000000002000", false),
        ("0000000000000000", false),
        ("000001ffffffcfff", false),
        ("xyz", false),
        ("", false),
        ("10000000000003000", false),
    ] {
        assert_eq!(has_required_capabilities(Some(&status(set))), expected, "{set}");
        assert_eq!(ensure_privileges(false, Some(&status(set))).is_ok(), expected, "{set}");
        assert_eq!(ensure_privileges(true, Some(&status(set))), Ok(()));
    }
    assert!(!has_required_capabilities(None));
    assert!(!has_required_capabilities(Some("CapEff:\nCapEff: 3000\n")));
    assert!(!has_required_capabilities(Some(" CapEff: 3000\n")));
    assert_eq!(
        ensure_privileges(false, None),
        Err("Insufficient privileges. Run as root or grant CAP_NET_RAW and CAP_NET_ADMIN to this binary.".to_string())
    );
}
