use wgprobe::console::{color_enabled, paint, ColorChoice, ColorPolicy};
use wgprobe::finder::{
    after_failed_fetch, append_query, cache_age_notice, cache_freshness, case_eq,
    check_max_candidates, checks_notice, choose_location, colored_outcome, confirmed_notice,
    count_fitting, event_notice, find_options, fuzzy_score, inventory_source, location_notice, lowered_score,
    no_candidates, no_color_requested, outcome_name, pick_location, rank_by_scores,
    ranked_locations, selector_lines, start_notice, truncate, FindOptions, FindRun, FindStep,
    InventorySource, LocationChoice, Selector, SelectorStep,
};
use wgprobe::identity::{KeyError, RunIdentity};
use wgprobe::input::{KeyCode, KeyEvent, KeyModifiers};
use wgprobe::inventory::{CitySummary, NordTarget};
use wgprobe::keys::SecretText;
use wgprobe::net::{IpAddr, Ipv4Addr, SocketAddr};
use wgprobe::probing::{
    attempt_outcome, attempt_plan, disconnected_attempt, elapsed_ms, failed_attempt,
    finish_attempt, local_error_detail, panicked_attempt, Attempt, AttemptOutcome, CheckMode,
    Coordinator, FullCheckPlan, ProbeOptions, RunStep, WorkerMessage,
};
use wgprobe::report::emit_start;
use wgprobe::scheduler::{order_candidates, plan_candidates, Scheduler};
use wgprobe::time::Duration;
use wgprobe::{PhaseResult, PhaseStatus, ProbeReport, Verdict};

const KEY: &str = "AAAAAAAAAAAAAAAAAAAAAAAAAAAAAAAAAAAAAAAAAAA=";

fn target(country: &str, city: &str) -> NordTarget {
    NordTarget {
        name: city.into(),
        hostname: format!("{}.example", city.to_ascii_lowercase()),
        endpoint: SocketAddr::parse("192.0.2.1:51820").unwrap(),
        public_key: KEY.into(),
        country: country.into(),
        city: city.into(),
        load: 1,
    }
}

fn keyed(host: &str, key: &str) -> NordTarget {
    NordTarget {
        name: host.into(),
        hostname: host.into(),
        endpoint: SocketAddr::parse("192.0.2.1:51820").unwrap(),
        public_key: key.into(),
        country: "Test".into(),
        city: "Test".into(),
        load: 1,
    }
}

fn placed(ip: &str, load: u8, key: &str) -> NordTarget {
    NordTarget {
        name: ip.into(),
        hostname: format!("{ip}.example"),
        endpoint: SocketAddr::parse(&format!("{ip}:51820")).unwrap(),
        public_key: key.into(),
        country: "US".into(),
        city: "Denver".into(),
        load,
    }
}

fn city(country: &str, city: &str, count: usize) -> CitySummary {
    CitySummary { country: country.into(), city: city.into(), count }
}

fn ip_text(target: &NordTarget) -> String {
    match target.endpoint.ip() {
        IpAddr::V4(ip) => ip.text(),
        IpAddr::V6(ip) => ip.text(),
    }
}

fn plain() -> ColorPolicy {
    ColorPolicy::new(ColorChoice::Never, false, false, false)
}

fn options() -> FindOptions {
    FindOptions {
        key_file: "missing".into(),
        export_directory: "exports".into(),
        query: None,
        country: None,
        city: None,
        refresh: false,
        full: false,
        ping_targets: Vec::new(),
        resolve_names: Vec::new(),
        dns_server: None,
        max_candidates: 1,
    }
}

fn attempt(id: u64, outcome: AttemptOutcome) -> Attempt {
    Attempt {
        id,
        target: target("United States", "Denver"),
        report: None,
        outcome,
        client_public_key: "public".into(),
    }
}

fn key(code: KeyCode) -> KeyEvent {
    KeyEvent::new(code, KeyModifiers::none())
}

#[test]
fn fuzzy_query_finds_denver() {
    let choices = vec![
        CitySummary {
            country: "United States".into(),
            city: "Atlanta".into(),
            count: 1,
        },
        CitySummary {
            country: "United States".into(),
            city: "Denver".into(),
            count: 2,
        },
    ];
    let ranked = ranked_locations(&choices, "denv");
    assert_eq!(ranked[0].city, "Denver");
}

#[test]
fn exact_country_and_city_select_without_prompt() {
    let targets = vec![
        target("United States", "Denver"),
        target("United Kingdom", "Denver"),
    ];
    let selected =
        choose_location(&targets, "", Some("united states"), Some("denver"), false).unwrap();
    match selected {
        LocationChoice::Chosen(city) => assert_eq!(city.country, "United States"),
        other => panic!("{other:?}"),
    }
}

#[test]
fn rejects_invalid_candidate_budget_before_network_work() {
    assert!(check_max_candidates(0).unwrap_err().contains("max-candidates"));
    assert!(check_max_candidates(101).unwrap_err().contains("max-candidates"));
    assert!(check_max_candidates(1).is_ok());
    assert!(check_max_candidates(100).is_ok());
}

#[test]
fn selector_text_drops_controls_and_respects_display_width() {
    let mut query = String::new();
    append_query(&mut query, "den\n\u{1b}[31mver");
    assert_eq!(query, "den[31mver");
    assert_eq!(truncate("界界", 3), "界");
}

#[test]
fn exact_matching_uses_unicode_lowercase() {
    assert!(case_eq("MÜNCHEN", "münchen"));
}

#[test]
fn preexisting_interrupt_prevents_probe_start() {
    let options = ProbeOptions {
        desired_confirmed: 1,
        max_candidates: 1,
        mode: CheckMode::HandshakeOnly,
    };
    let mut coordinator = Coordinator::new(vec![target("United States", "Denver")], &options);
    let mut run = FindRun::new();
    run.interrupt(&plain());
    assert!(matches!(coordinator.next(true, 0), RunStep::Done));
    let step = run.handle(WorkerMessage::Complete { cancelled: true }, &plain());
    assert!(matches!(step, FindStep::Over));
    let error = run.finish().unwrap_err();

    assert!(error.contains("cancelled after 0 completed attempts"));
}

#[test]
fn custom_targets_enable_full_checks_and_replace_defaults() {
    let options = FindOptions {
        ping_targets: vec![Ipv4Addr::new(8, 8, 8, 8)],
        resolve_names: vec!["google.com".into()],
        dns_server: Some(Ipv4Addr::new(8, 8, 4, 4)),
        ..options()
    };

    assert_eq!(
        options.check_mode(),
        CheckMode::Full(FullCheckPlan {
            ping_targets: vec![Ipv4Addr::new(8, 8, 8, 8)],
            resolve_names: vec!["google.com".into()],
            dns_server: Ipv4Addr::new(8, 8, 4, 4),
        })
    );
}

#[test]
fn explicit_color_policy_adds_or_omits_ansi() {
    assert_eq!(paint(false, 32, "ok"), "ok");
    assert_eq!(paint(true, 32, "ok"), "\x1b[32mok\x1b[0m");
}

#[test]
fn color_policy_honors_nonempty_no_color_and_explicit_modes() {
    assert!(!no_color_requested(None));
    assert!(!no_color_requested(Some("")));
    assert!(no_color_requested(Some("1")));
    assert!(color_enabled(ColorChoice::Auto, true, false));
    assert!(!color_enabled(ColorChoice::Auto, false, false));
    assert!(!color_enabled(ColorChoice::Auto, true, true));
    assert!(color_enabled(ColorChoice::Always, false, true));
    assert!(!color_enabled(ColorChoice::Never, true, false));
}

#[test]
fn outcome_colors_match_status_semantics() {
    let colors = ColorPolicy {
        stdout: true,
        stderr: true,
    };
    assert!(colored_outcome(&colors, &AttemptOutcome::Confirmed).contains("[32m"));
    assert!(colored_outcome(&colors, &AttemptOutcome::Unconfirmed).contains("[33m"));
    assert!(colored_outcome(&colors, &AttemptOutcome::Error("test".into())).contains("[31m"));
}

#[test]
fn future_dated_cache_is_stale() {
    let now = Duration::from_secs(100);
    let future = Duration::from_secs(101);

    assert_eq!(cache_freshness(future, now), ("stale", None));
}

#[test]
fn local_error_keeps_the_error_phase_cause() {
    let phases = vec![
        PhaseResult {
            phase: "socket".into(),
            target: None,
            status: PhaseStatus::Error,
            duration_ms: 1,
            sent_bytes: 0,
            received_bytes: 0,
            detail: Some("permission denied".into()),
        },
        PhaseResult {
            phase: "ping".into(),
            target: None,
            status: PhaseStatus::Skipped,
            duration_ms: 0,
            sent_bytes: 0,
            received_bytes: 0,
            detail: Some("skipped after failure".into()),
        },
    ];
    assert_eq!(local_error_detail(&phases), "permission denied");
}

#[test]
fn queued_confirmation_is_processed_before_another_candidate_starts() {
    let options = ProbeOptions {
        desired_confirmed: 1,
        max_candidates: 2,
        mode: CheckMode::HandshakeOnly,
    };
    let targets = vec![keyed("first", "key-1"), keyed("second", "key-2")];
    let mut coordinator = Coordinator::new(targets, &options);
    let mut started = 0;
    let mut finished = 0;
    let mut queued: Option<Attempt> = None;
    loop {
        if let Some(attempt) = queued.take() {
            coordinator.on_finished(&attempt);
            finished += 1;
        }
        match coordinator.next(false, 0) {
            RunStep::Start { id, target } => {
                started += 1;
                queued = Some(Attempt {
                    id,
                    target,
                    report: None,
                    outcome: AttemptOutcome::Confirmed,
                    client_public_key: "public".into(),
                });
            }
            RunStep::Wait { .. } => panic!("nothing is left to wait for"),
            RunStep::Done => break,
        }
    }
    assert_eq!(started, 1);
    assert_eq!(finished, 1);
    assert_eq!(coordinator.confirmed(), 1);
}

#[test]
fn samples_distinct_prefixes_before_repeating_one() {
    let ordered = order_candidates(vec![
        placed("10.0.0.1", 1, "a"),
        placed("10.0.0.2", 2, "b"),
        placed("10.0.1.1", 9, "c"),
    ]);
    assert_eq!(ip_text(&ordered[0]), "10.0.0.1");
    assert_eq!(ip_text(&ordered[1]), "10.0.1.1");
    assert_eq!(ip_text(&ordered[2]), "10.0.0.2");
}

#[test]
fn enforces_group_exclusion_and_six_second_pacing() {
    let mut scheduler = Scheduler::new(
        vec![placed("10.0.0.1", 1, "same"), placed("10.0.1.1", 2, "same")],
        10,
    );
    let first = scheduler.start_ready(1_000).unwrap();
    assert!(scheduler.start_ready(1_000).is_none());
    scheduler.acknowledge_handshake_start(&first.public_key, 5_000);
    scheduler.finish(&first.public_key);
    assert_eq!(scheduler.next_ready_in(6_000), Some(Duration::from_secs(5)));
    assert!(scheduler.start_ready(10_999).is_none());
    assert!(scheduler.start_ready(11_000).is_some());
}

#[test]
fn accepts_one_trimmed_key_and_derives_stable_identity() {
    let identity = RunIdentity::parse(&format!(" \n{KEY}\n\t")).unwrap_or_else(|_| panic!());
    assert!(!identity.public_key().is_empty());
    assert_eq!(identity.private_key(), KEY);
}

#[test]
fn rejects_multiline_and_configuration_content() {
    assert!(matches!(
        RunIdentity::parse(&format!("{KEY}\n{KEY}")),
        Err(KeyError::InvalidContents)
    ));
    assert!(matches!(
        RunIdentity::parse(&format!("PrivateKey = {KEY}")),
        Err(KeyError::InvalidContents)
    ));
}

#[test]
fn key_files_are_named_when_they_fail() {
    let loaded = RunIdentity::load("private.key", Ok(SecretText::from_text(KEY)));
    assert!(loaded.is_ok());
    match RunIdentity::load("private.key", Err("denied".into())) {
        Err(error) => {
            assert!(error.message().contains("private.key"));
            assert!(error.message().contains("denied"));
        }
        Ok(_) => panic!("an unreadable file was accepted"),
    }
    assert_eq!(RunIdentity::key_text(" word ").ok(), Some("word"));
    assert!(RunIdentity::key_text("two words").is_err());
    assert!(RunIdentity::key_text("").is_err());
}

#[test]
fn identity_configures_a_probe() {
    let identity = RunIdentity::parse("dwdtCnMYpX08FsFyUbJmRd9ML4frwJkqsXf7pR25LCo=")
        .unwrap_or_else(|_| panic!());
    assert_eq!(identity.public_key(), "hSDwCYkwp1R0i33ctD73Wg2/Og0mOBr066SpjqqbTmo=");
    let config = identity.probe_config(KEY, "192.0.2.1:51820").unwrap_or_else(|_| panic!());
    assert_eq!(config.endpoint(), "192.0.2.1:51820");
    assert_eq!(config.client_public_key(), identity.public_key());
    assert!(identity.probe_config("bad", "192.0.2.1:51820").is_err());
    let server = target("United States", "Denver");
    let plan = attempt_plan(&identity, &server, &CheckMode::HandshakeOnly).unwrap();
    assert!(plan.validate_with(true).is_ok());
    let full = CheckMode::Full(FullCheckPlan::default());
    let plan = attempt_plan(&identity.copy(), &server, &full.copy()).unwrap();
    assert!(plan.validate_with(true).is_ok());
    assert!(attempt_plan(&identity, &keyed("h", "bad"), &full).is_err());
}

#[test]
fn scores_prefer_early_and_close_matches() {
    assert_eq!(lowered_score("denver", ""), Some(0));
    assert_eq!(lowered_score("denver", "x"), None);
    let near = lowered_score("denver", "den").unwrap();
    let far = lowered_score("d-e-n-ver", "den").unwrap();
    assert!(near < far);
    assert_eq!(fuzzy_score("DENVER", "den"), Some(near));
    assert_eq!(fuzzy_score("Denver", "nde"), None);
}

#[test]
fn ranking_follows_given_scores() {
    let choices = [city("A", "x", 1), city("A", "y", 1), city("B", "z", 1)];
    let ranked = rank_by_scores(&choices, &[Some(9), None, Some(2)]);
    assert_eq!(ranked, [city("B", "z", 1), city("A", "x", 1)]);
    assert_eq!(ranked_locations(&choices, "").len(), 3);
}

#[test]
fn a_single_or_no_location_needs_no_question() {
    let one = vec![city("A", "x", 1)];
    match pick_location(one.clone(), &one, false).unwrap() {
        LocationChoice::Chosen(found) => assert_eq!(found.city, "x"),
        other => panic!("{other:?}"),
    }
    assert!(pick_location(Vec::new(), &Vec::new(), false).is_err());
    let two = vec![city("A", "x", 1), city("A", "y", 1)];
    assert!(matches!(
        pick_location(two.clone(), &two, true),
        Ok(LocationChoice::Ask(_))
    ));
    assert!(pick_location(two.clone(), &two, false).is_err());
}

#[test]
fn selector_moves_and_chooses() {
    let matches = vec![city("A", "x", 1), city("A", "y", 1)];
    let mut selector = Selector::new("");
    assert!(matches!(selector.handle_key(key(KeyCode::Down), &matches), SelectorStep::Continue));
    assert_eq!(selector.selected, 1);
    match selector.handle_key(key(KeyCode::Enter), &matches) {
        SelectorStep::Chosen(found) => assert_eq!(found.city, "y"),
        other => panic!("{other:?}"),
    }
    assert!(matches!(selector.handle_key(key(KeyCode::Char('q')), &matches), SelectorStep::Continue));
    assert_eq!(selector.query, "q");
    selector.handle_paste("r\ns");
    assert_eq!(selector.query, "qrs");
    assert!(matches!(selector.handle_key(key(KeyCode::Esc), &matches), SelectorStep::Cancelled));
    selector.selected = 1;
    selector.clamp(1);
    assert_eq!(selector.selected, 0);
    let lines = selector_lines("q", &matches, 0);
    assert!(lines.iter().any(|line| line.contains('x')));
}

#[test]
fn texts_are_cut_by_columns() {
    assert_eq!(truncate("abc", 2), "ab");
    assert_eq!(truncate("abc", 5), "abc");
    assert_eq!(truncate("", 5), "");
    assert_eq!(count_fitting(&vec![2, 2], 3), 1);
    assert_eq!(count_fitting(&vec![0, 1, 1], 1), 2);
}

#[test]
fn runs_end_with_their_outcome() {
    let mut run = FindRun::new();
    let started = run.handle(
        WorkerMessage::Started { id: 1, target: target("United States", "Denver") },
        &plain(),
    );
    assert!(matches!(started, FindStep::Notice(_)));
    match run.handle(WorkerMessage::Finished(attempt(1, AttemptOutcome::Unconfirmed)), &plain()) {
        FindStep::Notice(text) => assert_eq!(text, "[1] denver.example: UNCONFIRMED"),
        other => panic!("{other:?}"),
    }
    run.handle(WorkerMessage::Complete { cancelled: false }, &plain());
    assert_eq!(
        run.finish().unwrap_err(),
        "no endpoint confirmed after 1 completed attempts"
    );

    let mut run = FindRun::new();
    run.handle(WorkerMessage::Finished(attempt(3, AttemptOutcome::Confirmed)), &plain());
    assert_eq!(run.finish().unwrap().id, 3);

    let mut run = FindRun::new();
    run.handle(WorkerMessage::Fatal("no socket".into()), &plain());
    assert_eq!(run.finish().unwrap_err(), "no socket");
}

#[test]
fn notices_are_worded() {
    assert!(start_notice(5, &plain()).contains('5'));
    assert!(checks_notice(&CheckMode::HandshakeOnly, &plain()).is_none());
    let full = CheckMode::Full(FullCheckPlan::default());
    assert!(checks_notice(&full, &plain()).is_some());
    assert!(location_notice(&city("A", "x", 1), 4, &plain()).contains('4'));
    assert!(no_candidates(&city("A", "x", 1)).contains('x'));
    assert!(confirmed_notice(&target("A", "x"), &plain()).contains("x.example"));
    assert_eq!(outcome_name(&AttemptOutcome::Error("e".into())), "ERROR");
    let mut events = Vec::new();
    emit_start(&mut events, 0, "handshake", None);
    let _ = event_notice(1, &events[0], &plain());
    assert_eq!(
        cache_age_notice(Duration::from_secs(0), Duration::from_secs(60)),
        "Using fresh cached inventory (1 minutes old)"
    );
    assert_eq!(
        cache_freshness(Duration::from_secs(0), Duration::from_secs(60)).1,
        Some(Duration::from_secs(60))
    );
    assert!(after_failed_fetch(false, "offline").is_err());
    assert!(after_failed_fetch(true, "offline").unwrap().contains("offline"));
    assert_eq!(inventory_source(true, false), InventorySource::Stored);
    assert_eq!(inventory_source(false, false), InventorySource::Remote);
    assert_eq!(inventory_source(true, true), inventory_source(false, true));
}

#[test]
fn attempts_follow_their_report() {
    let report = |verdict| ProbeReport {
        schema_version: 1,
        verdict,
        endpoint: "h:1".into(),
        resolved_endpoint: None,
        local_udp_address: None,
        client_public_key: "public".into(),
        duration_ms: 0,
        sent_bytes: 0,
        received_bytes: 0,
        phases: Vec::new(),
    };
    assert_eq!(
        attempt_outcome(&report(Verdict::AuthenticationConfirmed)),
        AttemptOutcome::Confirmed
    );
    assert_eq!(
        attempt_outcome(&report(Verdict::DataPlaneConfirmed)),
        AttemptOutcome::Confirmed
    );
    assert_eq!(attempt_outcome(&report(Verdict::Unconfirmed)), AttemptOutcome::Unconfirmed);
    assert!(matches!(
        attempt_outcome(&report(Verdict::LocalError)),
        AttemptOutcome::Error(_)
    ));
    let server = || target("A", "x");
    let done = finish_attempt(4, server(), report(Verdict::Unconfirmed));
    assert_eq!((done.id, done.client_public_key.as_str()), (4, "public"));
    assert!(matches!(
        failed_attempt(1, server(), "bad key", "public").outcome,
        AttemptOutcome::Error(detail) if detail.contains("bad key")
    ));
    assert!(matches!(disconnected_attempt(1, server(), "p").outcome, AttemptOutcome::Error(_)));
    assert!(matches!(panicked_attempt(1, server(), "p").outcome, AttemptOutcome::Error(_)));
    assert_eq!(elapsed_ms(Duration::from_millis(1234)), 1234);
}

#[test]
fn plans_are_limited() {
    let targets = vec![placed("10.0.0.1", 1, "a"), placed("10.0.1.1", 2, "b")];
    assert_eq!(plan_candidates(targets.clone(), 1).len(), 1);
    assert_eq!(plan_candidates(targets, 9).len(), 2);
}

#[test]
fn at_most_four_keys_are_in_use() {
    let targets = (0..6).map(|i| placed(&format!("10.0.{i}.1"), i, &format!("key-{i}"))).collect();
    let mut scheduler = Scheduler::new(targets, 10);
    for count in 1..=4 {
        assert!(scheduler.start_ready(0).is_some());
        assert_eq!(scheduler.active(), count);
    }
    assert!(scheduler.start_ready(0).is_none());
    scheduler.finish("key-0");
    assert_eq!(scheduler.start_ready(0).unwrap().public_key, "key-4");
    assert!(!scheduler.is_done());
}

#[test]
fn a_search_stops_at_the_first_confirmation() {
    let options = find_options(12, 5, CheckMode::HandshakeOnly);
    assert_eq!((options.desired_confirmed, options.max_candidates), (1, 5));
    assert_eq!(options.mode, CheckMode::HandshakeOnly);
    let full = CheckMode::Full(FullCheckPlan::default());
    let options = find_options(2, 5, full.clone());
    assert_eq!((options.desired_confirmed, options.max_candidates), (1, 2));
    assert_eq!(options.mode, full);
}

#[test]
fn candidates_are_ordered_by_load_host_and_endpoint() {
    let mut late = placed("10.0.3.1", 1, "a");
    late.hostname = "b.example".into();
    let mut early = placed("10.0.2.1", 1, "b");
    early.hostname = "a.example".into();
    let mut six = placed("10.0.4.1", 1, "c");
    six.hostname = "a.example".into();
    six.endpoint = SocketAddr::parse("[::1]:51820").unwrap();
    let light = placed("10.0.5.1", 0, "d");
    let ordered = order_candidates(vec![late, six, early, light]);
    let keys: Vec<&str> = ordered.iter().map(|target| target.public_key.as_str()).collect();
    assert_eq!(keys, ["d", "b", "a", "c"]);
}

#[test]
fn ranking_falls_back_on_country_and_name() {
    let choices = [city("B", "x", 1), city("A", "z", 1), city("A", "y", 1)];
    let ranked = rank_by_scores(&choices, &[Some(1), Some(1), Some(1)]);
    assert_eq!(ranked, [city("A", "y", 1), city("A", "z", 1), city("B", "x", 1)]);
}
