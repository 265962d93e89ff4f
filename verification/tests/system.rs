use phantun_client_mac::bpf::{
    after_open, after_poll, after_read, bpf_device_path, bpf_filter_expression, capture_failure,
    BpfRequest, BpfSetup, PollStep, ProbeStep, SetupStep, EAGAIN, EBUSY, EINTR,
};
use phantun_client_mac::capture::BpfCapture;
use phantun_client_mac::device::{
    report_device_failure, DevicePart, DeviceRequest, DeviceSetup, DeviceStep, MacPacketDevice,
};
use phantun_client_mac::error::{Error, ErrorKind};
use phantun_client_mac::firewall::{
    anchor_name, checked_pfctl_output, enable_packet_filter, ensure_macos_anchor,
    macos_anchor_available, packet_filter_rule, process_is_alive, reference_token,
    run_cleanup_helper_if_requested, spawn_cleanup_helper, CleanupEnvironment,
    FirewallGuard, FirewallSetup, FirewallStep, PfRequest, EPERM,
};
use phantun_client_mac::frame::LinkType;
use phantun_client_mac::net::{IpAddr, SocketAddr, SocketAddrV4, SocketAddrV6};
use phantun_client_mac::process::CommandOutput;
use phantun_client_mac::route::{
    device_name, parse_route_interface, route_arguments, route_interface,
};
use phantun_client_mac::sender::RawPacketSender;
use phantun_client_mac::text::parse_i32;

/// 203.0.113.20:65009
fn remote() -> SocketAddr {
    SocketAddr::V4(SocketAddrV4 {
        ip: 0xcb00_7114,
        port: 65009,
    })
}

fn remote6() -> SocketAddr {
    SocketAddr::V6(SocketAddrV6 {
        ip: 0x2001_0db8_0000_0000_0000_0000_0000_0020,
        port: 65009,
        flowinfo: 0,
        scope_id: 0,
    })
}

fn printed(stdout: &str) -> CommandOutput {
    CommandOutput {
        success: true,
        stdout: stdout.as_bytes().to_vec(),
        stderr: Vec::new(),
    }
}

fn complained(stderr: &[u8]) -> CommandOutput {
    CommandOutput {
        success: false,
        stdout: Vec::new(),
        stderr: stderr.to_vec(),
    }
}

fn broken() -> Error {
    Error::new(ErrorKind::Os(2), "No such file or directory")
}

fn guard() -> FirewallGuard {
    FirewallGuard {
        anchor: "com.apple/phantun-client-5-6".to_owned(),
        token: "42".to_owned(),
    }
}

#[test]
fn packet_filter_rule_is_limited_to_the_configured_remote() {
    assert_eq!(
        packet_filter_rule(remote()),
        "block drop in quick inet proto tcp from 203.0.113.20 port 65009 to any\n"
    );
}

#[test]
fn the_rule_names_the_family() {
    assert_eq!(
        packet_filter_rule(remote6()),
        "block drop in quick inet6 proto tcp from 2001:db8::20 port 65009 to any\n"
    );
}

#[test]
fn route_output_extracts_the_selected_interface() {
    let output = "   route to: 203.0.113.20\n destination: default\n  interface: en0\n";
    assert_eq!(parse_route_interface(output), Some("en0".to_owned()));
}

#[test]
fn active_rules_must_expose_the_macos_anchor() {
    assert!(macos_anchor_available("anchor \"com.apple/*\" all"));
    assert!(!macos_anchor_available("anchor \"com.apple/custom\" all"));
    assert!(!macos_anchor_available("pass out all"));
}

#[test]
fn both_words_must_stand_in_one_line() {
    assert!(!macos_anchor_available("anchor x\ncom.apple/*"));
    assert!(macos_anchor_available("pass\n\tscrub-anchor \"com.apple/*\" all\r\n"));
}

#[test]
fn route_lookups_report_their_failures() {
    let ip = IpAddr::V4(0xcb00_7114);
    assert_eq!(route_arguments(ip), ["-n", "get", "203.0.113.20"]);
    assert_eq!(
        route_interface(ip, &printed("interface: utun3\r\ngateway: x\n")),
        Ok("utun3".to_owned())
    );
    assert_eq!(
        route_interface(ip, &printed("gateway: x\n")),
        Err(Error::new(
            ErrorKind::Other,
            "route lookup did not report an interface for 203.0.113.20"
        ))
    );
    assert_eq!(
        route_interface(ip, &complained(b" not in table\xff\n")),
        Err(Error::new(
            ErrorKind::Other,
            "unable to resolve outbound interface for 203.0.113.20: not in table\u{fffd}"
        ))
    );
    assert_eq!(device_name("en0"), "BPF/en0");
}

#[test]
fn devices_are_probed_until_one_is_free() {
    assert_eq!(bpf_device_path(0), "/dev/bpf0");
    assert_eq!(bpf_device_path(255), "/dev/bpf255");
    let busy = Error::new(ErrorKind::Os(EBUSY), "Resource busy");
    assert!(matches!(after_open(3, Ok(())), ProbeStep::Use));
    assert!(matches!(
        after_open(3, Err(busy.clone())),
        ProbeStep::Open(4)
    ));
    assert!(matches!(
        after_open(255, Err(busy.clone())),
        ProbeStep::Fail(error) if error == busy
    ));
    assert!(matches!(
        after_open(0, Err(broken())),
        ProbeStep::Fail(error) if error == broken()
    ));
}

fn next(setup: BpfSetup, value: u32) -> BpfSetup {
    match setup.reply(Ok(value)) {
        Ok(SetupStep::Continue(setup)) => setup,
        _ => panic!("another request was due"),
    }
}

#[test]
fn a_device_is_configured_step_by_step() {
    let setup = BpfSetup::configure_bpf("en0", remote()).expect("a short name");
    assert_eq!(setup.request(), BpfRequest::SetBufferLength(0x0008_0000));
    let setup = next(setup, 0x0008_0000);
    assert_eq!(setup.request(), BpfRequest::Attach("en0".to_owned()));
    let setup = next(setup, 0);
    assert_eq!(setup.request(), BpfRequest::SetImmediate(1));
    let setup = next(setup, 1);
    assert_eq!(setup.request(), BpfRequest::SetSeeSent(1));
    let setup = next(setup, 1);
    assert_eq!(setup.request(), BpfRequest::GetLinkType);
    let setup = next(setup, 12);
    assert_eq!(
        setup.request(),
        BpfRequest::SetFilter {
            link_type: LinkType::Raw,
            expression: "tcp and src host 203.0.113.20 and src port 65009".to_owned(),
        }
    );
    assert_eq!(setup.filter(), bpf_filter_expression(remote()));
    let setup = next(setup, 0);
    assert_eq!(setup.request(), BpfRequest::GetBufferLength);
    match setup.reply(Ok(4096)) {
        Ok(SetupStep::Ready(capture)) => {
            assert_eq!(capture.buffer_len, 4096);
            assert_eq!(capture.link_type, LinkType::Raw);
            assert_eq!(capture.remote_addr, remote());
        }
        _ => panic!("the device was ready"),
    }
}

#[test]
fn a_device_that_refuses_ends_the_configuration() {
    let long = BpfSetup::configure_bpf("a-name-of-16-byt", remote());
    assert_eq!(
        long.err(),
        Some(Error::new(
            ErrorKind::InvalidInput,
            "network interface name is too long: a-name-of-16-byt"
        ))
    );
    assert!(BpfSetup::configure_bpf("a-name-of-15-by", remote()).is_ok());

    let setup = BpfSetup::configure_bpf("en0", remote()).expect("a short name");
    assert_eq!(
        setup.reply(Err(broken())).err(),
        Some(Error::new(
            ErrorKind::Os(2),
            "BIOCSBLEN: No such file or directory"
        ))
    );
    let mut setup = BpfSetup::configure_bpf("en0", remote()).expect("a short name");
    for value in [0, 0, 1, 1] {
        setup = next(setup, value);
    }
    assert_eq!(
        setup.reply(Ok(0xffff_ffff)).err(),
        Some(Error::new(
            ErrorKind::Unsupported,
            "unsupported macOS BPF datalink type -1"
        ))
    );
    let mut setup = BpfSetup::configure_bpf("en0", remote()).expect("a short name");
    for value in [0, 0, 1, 1, 1, 0] {
        setup = next(setup, value);
    }
    assert_eq!(
        setup.reply(Ok(0)).err(),
        Some(Error::new(
            ErrorKind::InvalidData,
            "macOS BPF returned an empty receive buffer"
        ))
    );
}

#[test]
fn a_capture_failure_tells_how_far_it_came() {
    assert_eq!(
        capture_failure(false, broken()),
        Error::new(ErrorKind::Os(2), "open /dev/bpf: No such file or directory")
    );
    assert_eq!(
        capture_failure(true, broken()),
        Error::new(ErrorKind::Os(2), "configure /dev/bpf: No such file or directory")
    );
}

#[test]
fn the_filter_selects_the_packets_of_the_remote() {
    assert_eq!(
        bpf_filter_expression(remote()),
        "tcp and src host 203.0.113.20 and src port 65009"
    );
    assert_eq!(
        bpf_filter_expression(remote6()),
        "tcp and src host 2001:db8::20 and src port 65009"
    );
}

#[test]
fn waiting_for_packets_is_judged() {
    let interrupted = Error::new(ErrorKind::Os(EINTR), "Interrupted system call");
    assert!(matches!(after_poll(Err(interrupted)), PollStep::Again));
    assert!(matches!(
        after_poll(Err(broken())),
        PollStep::Fail(error) if error == broken()
    ));
    assert!(matches!(after_poll(Ok((0, 0))), PollStep::Nothing));
    assert!(matches!(after_poll(Ok((1, 1))), PollStep::Read));
    assert!(matches!(after_poll(Ok((1, 4))), PollStep::Nothing));
    match after_poll(Ok((1, 0x19))) {
        PollStep::Fail(error) => {
            assert_eq!(error.kind, ErrorKind::Other);
            assert_eq!(
                error.message,
                "macOS BPF poll returned error events: 0x19"
            );
        }
        _ => panic!("an error event was reported"),
    }
}

#[test]
fn reading_packets_is_judged() {
    let would_block = Error::new(ErrorKind::Os(EAGAIN), "Resource temporarily unavailable");
    assert_eq!(after_read(vec![0; 8], Err(would_block)), Ok(None));
    assert_eq!(after_read(vec![0; 8], Err(broken())), Err(broken()));
    assert_eq!(
        after_read(vec![0; 8], Ok(0)),
        Err(Error::new(ErrorKind::UnexpectedEof, "macOS BPF device closed"))
    );
    assert_eq!(after_read(vec![1, 2, 3], Ok(2)), Ok(Some(vec![1, 2])));
}

#[test]
fn pfctl_failures_carry_the_complaint() {
    assert_eq!(
        checked_pfctl_output(complained(b" no permission \n")).expect_err("a failure"),
        Error::new(ErrorKind::PermissionDenied, "pfctl failed: no permission")
    );
    assert_eq!(
        checked_pfctl_output(complained(b" \n")).expect_err("a failure"),
        Error::new(
            ErrorKind::PermissionDenied,
            "pfctl failed; run the client with administrator privileges"
        )
    );
    let output = printed("done");
    assert_eq!(checked_pfctl_output(output.clone()), Ok(output));
}

#[test]
fn the_token_is_found_in_both_streams() {
    let output = CommandOutput {
        success: true,
        stdout: b"pf enabled\n".to_vec(),
        stderr: b"Token : 1234567890\n".to_vec(),
    };
    assert_eq!(enable_packet_filter(output), Ok("1234567890".to_owned()));
    let missing = Error::new(
        ErrorKind::Other,
        "pfctl enabled packet filtering but returned no reference token",
    );
    assert_eq!(enable_packet_filter(printed("pf enabled\n")), Err(missing.clone()));
    assert_eq!(reference_token("Token:  \nToken: 7\n"), Err(missing));
    assert_eq!(reference_token("Token:7"), Ok("7".to_owned()));
}

#[test]
fn the_anchor_is_required() {
    assert_eq!(
        ensure_macos_anchor(printed("anchor \"com.apple/*\" all\n")),
        Ok(())
    );
    assert_eq!(
        ensure_macos_anchor(printed("pass out all\n")),
        Err(Error::new(
            ErrorKind::Unsupported,
            "the active PF ruleset has no macOS com.apple anchor; refusing to start without reliable packet interception"
        ))
    );
}

#[test]
fn requests_have_their_arguments() {
    assert_eq!(PfRequest::Enable.arguments(), ["-E"]);
    assert_eq!(PfRequest::ShowRules.arguments(), ["-s", "rules"]);
    let load = PfRequest::LoadRule {
        anchor: "a".to_owned(),
        rule: "r".to_owned(),
    };
    assert_eq!(load.arguments(), ["-a", "a", "-f", "-"]);
    assert_eq!(load.input(), Some("r".to_owned()));
    let requests = guard().teardown();
    assert_eq!(
        requests[0].arguments(),
        ["-a", "com.apple/phantun-client-5-6", "-F", "rules"]
    );
    assert_eq!(requests[1].arguments(), ["-X", "42"]);
    assert_eq!(requests[1].input(), None);
    assert_eq!(requests.len(), 2);
}

fn go_on(setup: FirewallSetup, output: CommandOutput) -> FirewallSetup {
    match setup.reply(Ok(output)) {
        FirewallStep::Continue(setup) => setup,
        _ => panic!("another action was due"),
    }
}

fn undone(step: FirewallStep) -> Vec<PfRequest> {
    match step {
        FirewallStep::Failed { undo, .. } => undo,
        _ => panic!("the installation failed"),
    }
}

fn setup_at(stage: usize) -> FirewallSetup {
    let mut setup = FirewallGuard::install(remote(), 5, 6);
    let outputs = [
        printed("Token : 42\n"),
        printed("anchor \"com.apple/*\" all\n"),
    ];
    for output in outputs.into_iter().take(stage) {
        setup = go_on(setup, output);
    }
    setup
}

#[test]
fn the_rule_is_installed_step_by_step() {
    assert_eq!(setup_at(0).request(), PfRequest::Enable);
    assert_eq!(setup_at(1).request(), PfRequest::ShowRules);
    assert_eq!(
        setup_at(2).request(),
        PfRequest::LoadRule {
            anchor: "com.apple/phantun-client-5-6".to_owned(),
            rule: "block drop in quick inet proto tcp from 203.0.113.20 port 65009 to any\n"
                .to_owned(),
        }
    );
    match setup_at(2).reply(Ok(printed(""))) {
        FirewallStep::Loaded(loaded) => assert_eq!(loaded, guard()),
        _ => panic!("the rule was loaded"),
    }
    match guard().watched(Ok(())) {
        FirewallStep::Installed(installed) => assert_eq!(installed, guard()),
        _ => panic!("the rule was installed"),
    }
}

#[test]
fn a_failure_undoes_what_was_done() {
    let release = PfRequest::Release {
        token: "42".to_owned(),
    };
    assert!(undone(setup_at(0).reply(Err(broken()))).is_empty());
    assert_eq!(
        undone(setup_at(1).reply(Ok(printed("pass\n")))),
        vec![release.clone()]
    );
    assert_eq!(
        undone(setup_at(2).reply(Ok(complained(b"syntax error")))),
        vec![release.clone()]
    );
    assert_eq!(
        undone(guard().watched(Err(broken()))),
        vec![
            PfRequest::ClearRules {
                anchor: "com.apple/phantun-client-5-6".to_owned()
            },
            release
        ]
    );
}

#[test]
fn anchors_tell_runs_apart() {
    assert_eq!(anchor_name(5, 6), "com.apple/phantun-client-5-6");
    assert_ne!(anchor_name(1, 23), anchor_name(12, 3));
}

#[test]
fn the_watchdog_learns_what_to_give_back() {
    let environment = spawn_cleanup_helper("com.apple/phantun-client-5-6", "42", 4711);
    assert_eq!(guard().watchdog(4711), environment);
    assert_eq!(environment.mode, Some("1".to_owned()));
    assert_eq!(environment.parent_pid, Some("4711".to_owned()));
    let request = run_cleanup_helper_if_requested(environment)
        .expect("a complete environment")
        .expect("a watchdog");
    assert_eq!(request.guard, guard());
    assert_eq!(request.parent_pid, 4711);
}

#[test]
fn an_incomplete_environment_is_refused() {
    let whole = spawn_cleanup_helper("a", "t", 9);
    let missing = |name: &str| {
        Err(Error::new(
            ErrorKind::InvalidInput,
            &format!("missing internal Phantun cleanup value {name}"),
        ))
    };
    let bad = Err(Error::new(
        ErrorKind::InvalidInput,
        "invalid Phantun cleanup parent process identifier",
    ));
    let no_mode = CleanupEnvironment {
        mode: None,
        anchor: None,
        token: None,
        parent_pid: None,
    };
    assert_eq!(run_cleanup_helper_if_requested(no_mode), Ok(None));
    let no_anchor = CleanupEnvironment {
        anchor: None,
        ..whole.clone()
    };
    assert_eq!(
        run_cleanup_helper_if_requested(no_anchor),
        missing("PHANTUN_CLIENT_MAC_CLEANUP_ANCHOR")
    );
    let no_token = CleanupEnvironment {
        token: None,
        ..whole.clone()
    };
    assert_eq!(
        run_cleanup_helper_if_requested(no_token),
        missing("PHANTUN_CLIENT_MAC_CLEANUP_TOKEN")
    );
    let no_number = CleanupEnvironment {
        parent_pid: None,
        ..whole.clone()
    };
    assert_eq!(
        run_cleanup_helper_if_requested(no_number),
        missing("PHANTUN_CLIENT_MAC_CLEANUP_PARENT_PID")
    );
    for number in ["", "0", "-4", "4 ", "x", "2147483648"] {
        let odd = CleanupEnvironment {
            parent_pid: Some(number.to_owned()),
            ..whole.clone()
        };
        assert_eq!(run_cleanup_helper_if_requested(odd), bad);
    }
}

#[test]
fn numbers_are_read_as_usual() {
    for text in ["0", "-0", "+7", "-2147483648", "2147483647", "0012", "", "+", "-", "2147483648",
        "-2147483649", "1_0", " 1", "99999999999999999999999"]
    {
        assert_eq!(parse_i32(text), text.parse::<i32>().ok(), "{text}");
    }
}

#[test]
fn a_process_that_may_not_be_signalled_is_alive() {
    assert!(process_is_alive(Ok(())));
    assert!(process_is_alive(Err(Error::new(
        ErrorKind::Os(EPERM),
        "Operation not permitted"
    ))));
    assert!(!process_is_alive(Err(Error::new(
        ErrorKind::Os(3),
        "No such process"
    ))));
}

fn capture() -> BpfCapture {
    BpfCapture::new(4096, LinkType::Ethernet, remote())
}

fn sender() -> RawPacketSender {
    RawPacketSender::new(remote(), None).expect("an IPv4 sender")
}

fn more(setup: DeviceSetup, part: DevicePart) -> DeviceSetup {
    match setup.reply(Ok(part)) {
        Ok(DeviceStep::Continue(setup)) => setup,
        _ => panic!("another part was due"),
    }
}

fn complete(setup: DeviceSetup) -> MacPacketDevice {
    match setup.reply(Ok(DevicePart::Firewall(guard()))) {
        Ok(DeviceStep::Ready(device)) => device,
        _ => panic!("the device was complete"),
    }
}

fn start() -> DeviceSetup {
    MacPacketDevice::new(remote(), None)
}

#[test]
fn a_device_is_made_of_its_parts() {
    let setup = start();
    assert_eq!(
        setup.request(),
        DeviceRequest::FindInterface(IpAddr::V4(0xcb00_7114))
    );
    let setup = more(setup, DevicePart::Interface("en0".to_owned()));
    assert_eq!(
        setup.request(),
        DeviceRequest::OpenCapture {
            interface: "en0".to_owned(),
            remote_addr: remote(),
        }
    );
    let setup = more(setup, DevicePart::Capture(capture()));
    assert_eq!(
        setup.request(),
        DeviceRequest::OpenSender {
            remote_addr: remote(),
            local_ipv6: None,
        }
    );
    let setup = more(setup, DevicePart::Sender(sender()));
    assert_eq!(setup.request(), DeviceRequest::InstallRule(remote()));
    let device = complete(setup);
    assert_eq!(device.interface_name, "BPF/en0");
    assert_eq!(device.capture.buffer_len, 4096);
    assert_eq!(device.sender, sender());
    assert_eq!(device.firewall, guard());
}

#[test]
fn a_failure_tells_which_part_failed() {
    let message = |setup: DeviceSetup| match setup.reply(Err(broken())) {
        Err(error) => error.message,
        Ok(_) => panic!("the part failed"),
    };
    assert_eq!(
        message(start()),
        "resolve the outbound interface: No such file or directory"
    );
    let interface = || DevicePart::Interface("en0".to_owned());
    let capturing = || more(start(), interface());
    let sending = || more(capturing(), DevicePart::Capture(capture()));
    assert_eq!(
        message(capturing()),
        "open the macOS BPF capture: No such file or directory"
    );
    assert_eq!(
        message(sending()),
        "open the raw TCP sender: No such file or directory"
    );
    assert_eq!(
        message(more(sending(), DevicePart::Sender(sender()))),
        "install the temporary PF rule: No such file or directory"
    );
    assert_eq!(
        report_device_failure(broken()).message,
        "failed to open macOS packet device (administrator privileges may be required): No such file or directory"
    );
}
