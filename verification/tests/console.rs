use wgprobe::bindings::{
    check_raw_options, parse_ipv4, parse_options, phase_status_name, timeout, verdict_name, Binding,
    ProbeSlot, TimeOptions, MAX_CONCURRENT_PROBES,
};
use wgprobe::console::{
    apply_data_options, build_plan, check_bounded, check_secret_file, color_enabled,
    colored_phase_label, colored_status, colored_verdict, display_redactions, human_report,
    is_success, paint, parse_cidr, parse_cidrs, progress_line, redact_report, redaction_bar,
    secret_text, status_name, ColorChoice, ColorPolicy, ProbeArguments,
};
use wgprobe::net::{Ipv4Addr, SocketAddr};
use wgprobe::report::{emit_start, push_phase};
use wgprobe::time::Duration;
use wgprobe::{PhaseResult, PhaseStatus, ProbeConfig, ProbeReport, Verdict};

const KEY: &str = "AAAAAAAAAAAAAAAAAAAAAAAAAAAAAAAAAAAAAAAAAAA=";

fn report(local: Option<SocketAddr>, phases: Vec<PhaseResult>) -> ProbeReport {
    ProbeReport {
        schema_version: 1,
        verdict: Verdict::DataPlaneConfirmed,
        endpoint: "198.51.100.1:51820".into(),
        resolved_endpoint: SocketAddr::parse("198.51.100.1:51820"),
        local_udp_address: local,
        client_public_key: "public-identity".into(),
        duration_ms: 1,
        sent_bytes: 1,
        received_bytes: 1,
        phases,
    }
}

fn phase(name: &str, target: Option<&str>, detail: &str) -> PhaseResult {
    PhaseResult {
        phase: name.into(),
        target: target.map(Into::into),
        status: PhaseStatus::Passed,
        duration_ms: 0,
        sent_bytes: 0,
        received_bytes: 0,
        detail: Some(detail.into()),
    }
}

#[test]
fn color_policy_honors_terminal_no_color_and_explicit_modes() {
    assert!(color_enabled(ColorChoice::Auto, true, false));
    assert!(!color_enabled(ColorChoice::Auto, false, false));
    assert!(!color_enabled(ColorChoice::Auto, true, true));
    assert!(color_enabled(ColorChoice::Always, false, true));
    assert!(!color_enabled(ColorChoice::Never, true, false));
    assert_eq!(paint(false, 32, "passed"), "passed");
    assert_eq!(paint(true, 32, "passed"), "\x1b[32mpassed\x1b[0m");
    assert_eq!(
        colored_phase_label(false, &PhaseStatus::Passed),
        "[  PASS   ]"
    );
    assert!(colored_phase_label(true, &PhaseStatus::Error).starts_with("\x1b[97;41m"));
    assert_eq!(redaction_bar(false), "████████████");
    assert_eq!(
        display_redactions("bound [redacted]", false),
        "bound ████████████"
    );
}

#[test]
fn redacts_identity_and_local_socket_metadata() {
    let local_address = SocketAddr::parse("192.168.1.10:54321").unwrap();
    let mut report = report(
        Some(local_address),
        vec![phase(
            "socket",
            Some(&local_address.text()),
            &format!("bound {}", local_address.text()),
        )],
    );

    redact_report(&mut report);

    assert_eq!(report.client_public_key, "[redacted]");
    assert_eq!(report.local_udp_address, None);
    assert_eq!(report.phases[0].target.as_deref(), Some("[redacted]"));
    assert_eq!(report.phases[0].detail.as_deref(), Some("bound [redacted]"));
}

#[test]
fn bounded_reader_rejects_oversized_input() {
    let error = check_bounded("test input", 9, 8).unwrap_err();
    assert!(error.contains("8-byte limit"));
    assert!(check_bounded("test input", 8, 8).is_ok());
}

#[test]
fn secret_file_reader_rejects_non_regular_files() {
    let error = check_secret_file("configuration", "/dev/null", false, 0, 8).unwrap_err();
    assert!(error.contains("regular file"));
}

#[test]
fn secret_file_reader_rejects_symlinks() {
    let error = check_secret_file("private key", "link", false, 0, 4096).unwrap_err();
    assert!(error.contains("regular file"));
    assert!(check_secret_file("private key", "key", true, 4096, 4096).is_ok());
    assert!(check_secret_file("private key", "key", true, 4097, 4096).is_err());
}

#[test]
fn maps_stable_names() {
    assert_eq!(phase_status_name(&PhaseStatus::Passed), "passed");
    assert_eq!(phase_status_name(&PhaseStatus::Error), "error");
    assert_eq!(
        verdict_name(&Verdict::AuthenticationConfirmed),
        "authentication_confirmed"
    );
    assert_eq!(verdict_name(&Verdict::LocalError), "local_error");
}

#[test]
fn maps_all_stable_enum_names() {
    assert_eq!(phase_status_name(&PhaseStatus::Passed), "passed");
    assert_eq!(phase_status_name(&PhaseStatus::Sent), "sent");
    assert_eq!(phase_status_name(&PhaseStatus::Unconfirmed), "unconfirmed");
    assert_eq!(phase_status_name(&PhaseStatus::Skipped), "skipped");
    assert_eq!(phase_status_name(&PhaseStatus::Error), "error");
    assert_eq!(
        verdict_name(&Verdict::AuthenticationConfirmed),
        "authentication_confirmed"
    );
    assert_eq!(
        verdict_name(&Verdict::DataPlaneConfirmed),
        "data_plane_confirmed"
    );
    assert_eq!(verdict_name(&Verdict::Unconfirmed), "unconfirmed");
    assert_eq!(verdict_name(&Verdict::LocalError), "local_error");
}

#[test]
fn report_schema_serializes_stable_status_names() {
    let mut report = report(None, Vec::new());
    report.verdict = Verdict::AuthenticationConfirmed;
    report.phases.push(phase("keepalive", None, "sent"));
    report.phases[0].status = PhaseStatus::Sent;
    assert_eq!(report.schema_version, 1);
    assert_eq!(verdict_name(&report.verdict), "authentication_confirmed");
    assert_eq!(phase_status_name(&report.phases[0].status), "sent");
}

#[test]
fn bounds_concurrent_probes() {
    let mut active = 0usize;
    let slots = (0..MAX_CONCURRENT_PROBES)
        .map(|_| ProbeSlot::acquire(&mut active).unwrap())
        .collect::<Vec<_>>();
    assert!(ProbeSlot::acquire(&mut active).is_err());
    for slot in slots {
        slot.release(&mut active);
    }
    assert_eq!(active, 0);
    assert!(ProbeSlot::acquire(&mut active).is_ok());
}

#[test]
fn rejects_invalid_timeouts() {
    let error = timeout(Some(0), "deadlineMs").unwrap_err();
    assert!(error.contains("1 through 86400000"));

    assert!(timeout(None, "deadlineMs").is_err());
    assert!(timeout(Some(-1), "deadlineMs").is_err());
    assert!(timeout(Some(86_400_001), "deadlineMs").is_err());
    assert_eq!(timeout(Some(1), "deadlineMs"), Ok(Duration::from_millis(1)));
    assert_eq!(
        timeout(Some(86_400_000), "deadlineMs"),
        Ok(Duration::from_secs(86_400))
    );
}

#[test]
fn binding_arguments_are_checked() {
    assert_eq!(
        parse_ipv4("10.0.0.1", "ping target"),
        Ok(Ipv4Addr::new(10, 0, 0, 1))
    );
    assert!(parse_ipv4("10.0.0", "ping target").is_err());
    let times = TimeOptions {
        handshake: Some(3000),
        ping: Some(2000),
        dns: Some(1000),
        deadline: Some(9000),
    };
    let parse = |binding, pings: &[&str], server, times| {
        let pings: Vec<String> = pings.iter().map(|p| p.to_string()).collect();
        parse_options(binding, &pings, vec!["example.com".to_string()], server, times)
    };
    let arguments = parse(Binding::Node, &["10.0.0.1"], Some("10.0.0.53"), times).unwrap();
    assert_eq!(arguments.pings, [Ipv4Addr::new(10, 0, 0, 1)]);
    assert_eq!(arguments.resolves, ["example.com"]);
    assert_eq!(arguments.dns_server, Some(Ipv4Addr::new(10, 0, 0, 53)));
    assert_eq!(arguments.dns_timeout, Duration::from_secs(1));
    assert!(parse(Binding::Node, &["x"], None, times).unwrap_err().contains("ping target"));
    assert!(parse(Binding::Node, &[], Some("x"), times).unwrap_err().contains("dnsServer"));
    assert!(parse(Binding::Python, &[], Some("x"), times).unwrap_err().contains("dns_server"));
    let late = TimeOptions { deadline: Some(0), ..times };
    assert!(parse(Binding::Node, &[], None, late).unwrap_err().contains("deadlineMs"));
    assert!(parse(Binding::Python, &[], None, late).unwrap_err().contains("deadline_ms"));

    let refusal = |binding, has_address, networks| {
        check_raw_options(binding, &arguments, has_address, networks).unwrap_err()
    };
    assert!(check_raw_options(Binding::Node, &arguments, true, 1).is_ok());
    assert!(refusal(Binding::Node, true, 0).contains("allowedIps entry must be supplied together"));
    assert!(refusal(Binding::Python, false, 1).contains("allowed_ips entry must be supplied"));
    assert!(refusal(Binding::Python, false, 0).contains("data checks require address"));
    let without_server = parse(Binding::Node, &[], None, times).unwrap();
    assert_eq!(
        check_raw_options(Binding::Node, &without_server, true, 1).unwrap_err(),
        "resolve requires an IPv4 dnsServer in raw-key mode"
    );
}

#[test]
fn a_phase_adds_to_the_totals() {
    let mut report = report(None, Vec::new());
    let mut events = Vec::new();
    emit_start(&mut events, 3, "ping", Some("10.0.0.1"));
    let mut result = phase("ping", Some("10.0.0.1"), "fine");
    result.sent_bytes = 10;
    result.received_bytes = 20;
    push_phase(&mut report, &mut events, 4, result);
    assert_eq!((report.sent_bytes, report.received_bytes), (11, 21));
    assert_eq!(report.phases.len(), 1);
    assert_eq!(events.len(), 2);
    assert_eq!((events[0].elapsed_ms, events[1].elapsed_ms), (3, 4));
    assert!(events[0].result.is_none());
    assert_eq!(events[1].result, Some(report.phases[0].clone()));
}

#[test]
fn progress_is_told_line_by_line() {
    let colors = ColorPolicy::new(ColorChoice::Never, true, true, false);
    let mut events = Vec::new();
    emit_start(&mut events, 0, "ping", Some("10.0.0.1"));
    assert!(progress_line(&events[0], &colors).contains("ping"));
    let mut report = report(None, Vec::new());
    push_phase(&mut report, &mut events, 1, phase("ping", Some("10.0.0.1"), "fine"));
    assert!(progress_line(&events[1], &colors).contains("passed"));
    let text = human_report(&report, &colors, false);
    assert!(text.contains("DATA PLANE CONFIRMED"));
    assert!(text.contains("public-identity"));
}

#[test]
fn colors_follow_the_policy() {
    let always = ColorPolicy::new(ColorChoice::Always, false, false, true);
    assert_eq!(always.out(31, "x"), "\x1b[31mx\x1b[0m");
    assert_eq!(always.err(31, "x"), "\x1b[31mx\x1b[0m");
    let auto = ColorPolicy::new(ColorChoice::Auto, true, false, false);
    assert_eq!(auto.out(31, "x"), "\x1b[31mx\x1b[0m");
    assert_eq!(auto.err(31, "x"), "x");
    assert_eq!(colored_status(false, &PhaseStatus::Skipped), "skipped");
    assert_eq!(colored_status(true, &PhaseStatus::Passed), "\x1b[32mpassed\x1b[0m");
    assert_eq!(status_name(&PhaseStatus::Error), "error");
    assert_eq!(colored_verdict(false, &Verdict::Unconfirmed), "UNCONFIRMED");
    assert!(is_success(Verdict::AuthenticationConfirmed));
    assert!(is_success(Verdict::DataPlaneConfirmed));
    assert!(!is_success(Verdict::Unconfirmed));
    assert!(!is_success(Verdict::LocalError));
}

#[test]
fn secrets_must_be_text() {
    assert_eq!(secret_text(b"plain", "key"), Ok("plain"));
    assert!(secret_text(&[0xff, 0xfe], "key").unwrap_err().contains("key"));
}

#[test]
fn networks_in_options_are_checked() {
    assert_eq!(
        parse_cidr("10.0.0.0/8", "--address").map(|cidr| cidr.text()),
        Ok("10.0.0.0/8".to_string())
    );
    let error = parse_cidr("10.0.0.0", "--address").unwrap_err();
    assert!(error.contains("--address"));
    assert!(parse_cidrs(&["0.0.0.0/0".into(), "x".into()], "--allowed-ips").is_err());
    let mut config =
        ProbeConfig::from_parts(KEY, KEY, "h:1").unwrap_or_else(|e| panic!("{}", e.message()));
    apply_data_options(
        &mut config,
        "10.0.0.2/32",
        "--address",
        &["0.0.0.0/0".to_string()],
        "--allowed-ips",
    )
    .unwrap();
    assert_eq!(config.address().unwrap().text(), "10.0.0.2/32");
    assert_eq!(config.allowed_ips().len(), 1);
    let plan = build_plan(
        config,
        &ProbeArguments {
            pings: vec![Ipv4Addr::new(10, 0, 0, 1)],
            resolves: Vec::new(),
            dns_server: None,
            handshake_timeout: Duration::from_millis(3000),
            ping_timeout: Duration::from_millis(3000),
            dns_timeout: Duration::from_millis(3000),
            deadline: Duration::from_millis(9000),
        },
    );
    assert!(plan.validate_with(true).is_ok());
}
