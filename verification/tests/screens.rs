use wgprobe::app::{
    adjust, ends_with_private_key, format_age, is_key_character, is_key_shaped,
    looks_like_private_key, move_plan_selection, selected_city_index, App, AppAction, KeySource,
    RunEndReason, Screen,
};
use wgprobe::input::{
    quit_requested, refresh_requested, text_modifier, KeyCode, KeyEvent, KeyModifiers,
};
use wgprobe::inventory::{CachedInventory, CitySummary, NordTarget};
use wgprobe::keys::SecretText;
use wgprobe::net::SocketAddr;
use wgprobe::paths::WrittenPath;
use wgprobe::probing::{Attempt, AttemptOutcome, CheckMode, FullCheckPlan, WorkerMessage};
use wgprobe::time::Duration;
use wgprobe::ui::{
    active_row, city_row, cursor_column, help_text, horizontal_scroll, identity_line, key_field,
    key_title, last_attempt_row, masked_path_value, mode_name, option_lines, place, plan_label,
    plan_row, plan_state, push_masked_run, run_progress, run_title, selected_detail, step_name,
    PlanState,
};

const KEY: &str = "AAAAAAAAAAAAAAAAAAAAAAAAAAAAAAAAAAAAAAAAAAA=";

fn press(code: KeyCode) -> KeyEvent {
    KeyEvent::new(code, KeyModifiers::none())
}

fn at(seconds: u64) -> Duration {
    Duration::from_secs(seconds)
}

fn target(city: &str, last: u8) -> NordTarget {
    NordTarget {
        name: city.into(),
        hostname: format!("{}.example", city.to_lowercase()),
        endpoint: SocketAddr::parse(&format!("192.0.{last}.1:51820")).unwrap(),
        public_key: KEY.into(),
        country: "United States".into(),
        city: city.into(),
        load: 1,
    }
}

/// Screens with an identity and an inventory, at the list of locations.
fn at_locations() -> App {
    let mut app = App::new();
    let action = app.preload_key_file(
        "private.key",
        Ok(b"/launch/nordprobe-exports".to_vec()),
        Ok(SecretText::from_text(KEY)),
    );
    assert_eq!(action, Ok(AppAction::LoadCache));
    app.cache_loaded(Some(CachedInventory {
        targets: vec![target("Atlanta", 1), target("Denver", 2), target("Denver", 3)],
        fetched_at: 40,
    }));
    app
}

#[test]
fn setup_has_no_implicit_key_and_uses_relative_export_default() {
    let app = App::new();
    assert!(app.key_path.is_empty());
    assert!(app.pasted_key.is_empty());
    assert_eq!(app.export_directory.as_str(), "./nordprobe-exports");
}

#[test]
fn paste_once_accepts_base64_and_clears_when_source_changes() {
    let mut app = App::new();
    app.key_source = KeySource::PasteOnce;
    app.setup_focus = 1;
    app.handle_paste(KEY);
    assert_eq!(app.pasted_key.as_str(), KEY);

    app.handle_paste("not a key");
    assert_eq!(app.pasted_key.as_str(), KEY);

    app.toggle_key_source();
    assert!(app.pasted_key.is_empty());
    assert_eq!(app.key_source, KeySource::File);
}

#[test]
fn key_shaped_paste_is_rejected_in_file_mode() {
    let mut app = App::new();
    app.setup_focus = 1;
    app.handle_paste(KEY);

    assert!(app.key_path.is_empty());
    assert!(app.status.contains("PASTE ONCE"));
}

#[test]
fn key_shaped_paste_is_rejected_in_export_field() {
    let mut app = App::new();
    app.setup_focus = 2;
    app.handle_paste(KEY);

    assert_eq!(app.export_directory.as_str(), "./nordprobe-exports");
    assert!(app.status.contains("PASTE ONCE"));
}

#[test]
fn key_typed_into_file_field_is_removed() {
    let mut app = App::new();
    app.setup_focus = 1;
    for character in KEY.chars() {
        app.key_setup(press(KeyCode::Char(character)));
    }

    assert!(app.key_path.is_empty());
    assert!(app.status.contains("PASTE ONCE"));
}

#[test]
fn key_typed_after_export_default_is_removed() {
    let mut app = App::new();
    app.setup_focus = 2;
    for character in KEY.chars() {
        app.key_setup(press(KeyCode::Char(character)));
    }

    assert!(app.export_directory.is_empty());
    assert!(app.status.contains("PASTE ONCE"));
}

#[test]
fn f2_toggles_pasted_key_visibility() {
    let mut app = App::new();
    app.key_source = KeySource::PasteOnce;
    app.setup_focus = 1;

    app.key_setup(press(KeyCode::F(2)));
    assert!(app.reveal_pasted_key);
    app.key_setup(press(KeyCode::F(2)));
    assert!(!app.reveal_pasted_key);
}

#[test]
fn preserves_selected_location_by_identity_after_filtering() {
    let cities = vec![
        CitySummary {
            country: "United States".into(),
            city: "Atlanta".into(),
            count: 2,
        },
        CitySummary {
            country: "United States".into(),
            city: "Denver".into(),
            count: 3,
        },
    ];
    let previous = ("United States".into(), "Denver".into());
    assert_eq!(selected_city_index(&cities, Some(&previous)), 1);
}

#[test]
fn unmodified_q_is_text_while_ctrl_c_quits() {
    let plain = KeyEvent::new(KeyCode::Char('q'), KeyModifiers::none());
    let control_c = KeyEvent::new(KeyCode::Char('c'), KeyModifiers::control());
    let control_q = KeyEvent::new(KeyCode::Char('q'), KeyModifiers::control());
    assert!(!quit_requested(plain, true));
    assert!(quit_requested(control_c, true));
    assert!(!quit_requested(control_q, true));
    assert!(quit_requested(plain, false));
}

#[test]
fn formats_inventory_ages_compactly() {
    assert_eq!(format_age(Duration::from_secs(45)), "45s");
    assert_eq!(format_age(Duration::from_secs(90)), "1m");
    assert_eq!(format_age(Duration::from_secs(3_900)), "1h 5m");
    assert_eq!(format_age(Duration::from_secs(90_000)), "1d 1h");
}

#[test]
fn plan_arrows_follow_visual_direction() {
    assert_eq!(move_plan_selection(1, -1, 3), 0);
    assert_eq!(move_plan_selection(1, 1, 3), 2);
    assert_eq!(move_plan_selection(0, -1, 3), 0);
    assert_eq!(move_plan_selection(2, 1, 3), 2);
}

#[test]
fn elapsed_time_stops_when_worker_completes() {
    let mut app = App::new();
    app.probe_started = Some(at(8));
    app.handle_worker(WorkerMessage::Complete { cancelled: false }, at(10));
    let elapsed = app.elapsed(at(10));
    assert_eq!(elapsed, at(2));
    assert_eq!(app.elapsed(at(12)), elapsed);
}

#[test]
fn completed_cancellation_remains_visible() {
    let mut app = App::new();
    app.probe_started = Some(at(0));
    app.handle_worker(WorkerMessage::Complete { cancelled: true }, at(0));

    assert!(app.run_cancelled());
    assert!(!app.cancelling);
}

#[test]
fn cli_export_directory_preserves_relative_display() {
    let mut app = App::new();
    app.set_export_directory("custom-exports", Ok(b"/launch/custom-exports".to_vec())).unwrap();

    assert_eq!(app.export_directory.as_str(), "custom-exports");
    assert_eq!(
        app.validated_export_directory.as_deref(),
        Some(&b"/launch/custom-exports"[..])
    );
}

#[test]
fn cli_export_directory_preserves_non_utf8_os_path_for_writes() {
    let relative = vec![b'e', b'x', b'p', 0xff];
    let mut app = App::new();
    let shown = String::from_utf8_lossy(&relative).to_string();
    let mut resolved = b"/launch/".to_vec();
    resolved.extend_from_slice(&relative);
    app.set_export_directory(&shown, Ok(resolved.clone())).unwrap();

    assert_eq!(app.validated_export_directory, Some(resolved));
}

#[test]
fn masks_key_like_runs_without_hiding_normal_default_path() {
    assert_eq!(
        masked_path_value("./nordprobe-exports"),
        "./nordprobe-exports"
    );
    let masked = masked_path_value("AAAAAAAAAAAAAAAAAAAAAAAAAAAAAAAAAAAAAAAAAAA=");
    assert_eq!(masked.len(), 44);
    assert!(masked.chars().all(|character| character == '*'));
}

#[test]
fn keys_are_recognised_by_their_shape() {
    assert!(is_key_character('+') && is_key_character('=') && is_key_character('Z'));
    assert!(!is_key_character('-') && !is_key_character(' '));
    assert!(is_key_shaped(KEY));
    assert!(!is_key_shaped("AAAA"));
    assert!(looks_like_private_key(KEY));
    assert!(!looks_like_private_key(&format!(" {KEY}\n")));
    assert!(!looks_like_private_key("./exports"));
    assert!(ends_with_private_key(&format!("./exports{KEY}")));
    assert!(!ends_with_private_key("./exports"));
}

#[test]
fn a_run_goes_from_the_locations_to_an_export() {
    let mut app = at_locations();
    assert_eq!(app.screen, Screen::Locations);
    assert_eq!(app.cities.len(), 2);
    assert!(app.inventory_summary(at(100)).contains("1m"));
    assert_eq!(app.identity_public_key().map(str::len), Some(44));
    app.location_focus = 1;
    app.handle_key(press(KeyCode::Down), at(1));
    assert_eq!(app.selected_city, 1);
    app.handle_key(press(KeyCode::Enter), at(1));
    assert_eq!(app.screen, Screen::ProbeSetup);
    assert_eq!(app.selected_targets.len(), 2);
    app.option_focus = 3;
    app.options.desired_confirmed = 1;
    let action = app.handle_key(press(KeyCode::Enter), at(2));
    assert_eq!(action, AppAction::StartProbes);
    assert_eq!(app.screen, Screen::Probing);
    assert_eq!(app.planned_targets.len(), app.options.max_candidates.min(2));
    let first = app.planned_targets[0].clone();
    assert_eq!(plan_state(&app, &first), PlanState::Pending);
    app.handle_worker(WorkerMessage::Started { id: 1, target: first.clone() }, at(2));
    assert_eq!(plan_state(&app, &first), PlanState::Active);
    assert!(active_row(&app.active[0], app.group_number(KEY)).contains("denver.example"));
    app.handle_worker(
        WorkerMessage::Finished(Attempt {
            id: 1,
            target: first.clone(),
            report: None,
            outcome: AttemptOutcome::Confirmed,
            client_public_key: app.identity_public_key().unwrap().to_string(),
        }),
        at(3),
    );
    assert_eq!(plan_state(&app, &first), PlanState::Confirmed);
    assert_eq!(app.confirmed_count(), 1);
    assert!(app.selected_attempt().is_some());
    assert!(last_attempt_row(&app.attempts[0]).contains("denver.example"));
    assert_eq!(app.export_confirmed(), AppAction::Export);
    app.exported(
        1,
        Ok(WrittenPath::Slashes("/launch/nordprobe-exports/denver.example.conf".into())),
    );
    assert_eq!(
        app.exported_path(1).map(String::as_str),
        Some("./nordprobe-exports/denver.example.conf")
    );
    app.handle_worker(WorkerMessage::Complete { cancelled: false }, at(5));
    assert!(app.run_finished());
    assert!(app.goal_reached());
    assert_eq!(app.run_end_reason, Some(RunEndReason::GoalReached));
    assert!(run_progress(&app, "3.0s").contains("3.0s"));
    assert!(!run_title(&app).is_empty());
    assert!(!selected_detail(&app).is_empty());
    assert!(identity_line(&app).contains(app.identity_public_key().unwrap()));
    assert!(plan_row(&app, 0, &first).contains("denver.example"));
}

#[test]
fn a_lost_worker_ends_the_run() {
    let mut app = App::new();
    app.probe_started = Some(at(0));
    app.running = true;
    app.worker_lost(at(4));
    assert!(app.run_finished());
    assert_eq!(app.run_end_reason, Some(RunEndReason::Failed));
}

#[test]
fn setup_asks_for_what_it_needs() {
    let mut app = App::new();
    app.key_path.set("private.key");
    app.setup_focus = 3;
    let action = app.handle_key(press(KeyCode::Enter), at(0));
    assert_eq!(action, AppAction::ResolveDirectory("./nordprobe-exports".into()));
    let action = app.directory_resolved(Ok(b"/launch/nordprobe-exports".to_vec()));
    assert_eq!(action, AppAction::ReadKeyFile("private.key".into()));
    let action = app.key_file_read(Ok(SecretText::from_text("broken")));
    assert_eq!(action, AppAction::Nothing);
    assert!(app.identity_public_key().is_none());
    app.directory_resolved(Ok(b"/launch/nordprobe-exports".to_vec()));
    let action = app.key_file_read(Ok(SecretText::from_text(KEY)));
    assert_eq!(action, AppAction::LoadCache);
    assert_eq!(app.cache_loaded(None), AppAction::FetchInventory);
    assert_eq!(app.screen, Screen::Loading);
    app.fetch_failed(Some("offline".into()));
    assert_eq!(app.screen, Screen::Error);
    assert!(app.error.contains("offline"));
    let action = app.inventory_fetched(vec![target("Denver", 1)], at(100));
    assert_eq!(action, AppAction::StoreCache);
    app.cache_stored(Err("read-only".into()));
    assert!(app.status.contains("read-only"));
}

#[test]
fn numbers_stay_in_their_bounds() {
    assert_eq!(adjust(5, 1, 1, 5), 5);
    assert_eq!(adjust(5, -1, 1, 5), 4);
    assert_eq!(adjust(0, -1, 0, 5), 0);
    assert_eq!(adjust(usize::MAX, 1, 0, usize::MAX), usize::MAX);
    assert_eq!(move_plan_selection(0, 1, 0), 0);
    assert!(text_modifier(KeyModifiers::none()));
    assert!(!text_modifier(KeyModifiers::control()));
    assert!(refresh_requested(press(KeyCode::F(5))) || refresh_requested(
        KeyEvent::new(KeyCode::Char('r'), KeyModifiers::control())
    ));
}

#[test]
fn hidden_keys_are_masked() {
    let mut app = App::new();
    app.key_source = KeySource::PasteOnce;
    app.setup_focus = 1;
    app.handle_paste(KEY);
    assert!(key_field(&app).as_str().chars().all(|c| c == '*' || c == '•'));
    app.reveal_pasted_key = true;
    assert_eq!(key_field(&app).as_str(), KEY);
    assert_ne!(key_title(KeySource::File, false), key_title(KeySource::PasteOnce, false));
    let mut output = String::from("x");
    push_masked_run(&mut output, KEY);
    assert_eq!(output, format!("x{}", "*".repeat(44)));
    push_masked_run(&mut output, "short");
    assert!(output.ends_with("short"));
}

#[test]
fn fields_scroll_to_their_end() {
    assert_eq!(horizontal_scroll("abc", 10), 0);
    assert_eq!(horizontal_scroll("abcdefghij", 4), 7);
    assert_eq!(cursor_column("abc", 10), 3);
    assert_eq!(cursor_column("abcdefghij", 4), 3);
}

#[test]
fn screens_are_named() {
    assert_ne!(step_name(Screen::Setup), step_name(Screen::Probing));
    assert_ne!(help_text(Screen::Setup), help_text(Screen::Locations));
    assert_ne!(
        mode_name(&CheckMode::HandshakeOnly),
        mode_name(&CheckMode::Full(FullCheckPlan::default()))
    );
    assert!(city_row(&CitySummary { country: "A".into(), city: "x".into(), count: 12 })
        .contains("12"));
    let states = [PlanState::Pending, PlanState::Active, PlanState::Confirmed];
    assert_eq!(states.map(plan_label).iter().collect::<std::collections::BTreeSet<_>>().len(), 3);
    let app = at_locations();
    let (desired, maximum, mode) = option_lines(&app);
    assert!(desired.contains(&app.options.desired_confirmed.to_string()));
    assert!(maximum.contains(&app.options.max_candidates.to_string()));
    assert!(mode.ends_with("HANDSHAKE ONLY") || mode.ends_with("FULL CHECKS"));
    assert_eq!(place(&app), None);
}

#[test]
fn unconfirmed_attempts_are_not_exported() {
    let mut app = at_locations();
    app.location_focus = 1;
    app.handle_key(press(KeyCode::Enter), at(1));
    assert_eq!(app.handle_key(press(KeyCode::Enter), at(1)), AppAction::StartProbes);
    assert_eq!(app.handle_key(press(KeyCode::Char('e')), at(1)), AppAction::Nothing);
    assert!(app.status.contains("has not completed"));
    app.handle_worker(
        WorkerMessage::Finished(Attempt {
            id: 1,
            target: app.planned_targets[0].clone(),
            report: None,
            outcome: AttemptOutcome::Unconfirmed,
            client_public_key: "public".into(),
        }),
        at(2),
    );
    assert_eq!(app.handle_key(press(KeyCode::Char('e')), at(2)), AppAction::Nothing);
    assert!(app.status.contains("Only a selected CONFIRMED candidate"));
}

#[test]
fn an_accepted_paste_is_forgotten() {
    let mut app = App::new();
    app.set_export_directory("exports", Ok(b"/launch/exports".to_vec())).unwrap();
    app.toggle_key_source();
    app.setup_focus = 1;
    app.handle_paste(KEY);
    app.reveal_pasted_key = true;
    assert_eq!(app.handle_key(press(KeyCode::Enter), at(0)), AppAction::LoadCache);
    assert!(app.pasted_key.is_empty());
    assert!(!app.reveal_pasted_key);
    assert!(app.identity_public_key().is_some());
}

#[test]
fn a_failed_refresh_keeps_the_inventory() {
    let mut app = at_locations();
    let refresh = KeyEvent::new(KeyCode::Char('r'), KeyModifiers::control());
    assert_eq!(app.handle_key(refresh, at(1)), AppAction::FetchInventory);
    assert_eq!(app.screen, Screen::Loading);
    app.fetch_failed(None);
    assert_eq!(app.screen, Screen::Locations);
    assert_eq!(app.inventory.len(), 3);
    app.handle_key(refresh, at(1));
    assert_eq!(app.handle_key(press(KeyCode::Esc), at(1)), AppAction::DropFetch);
    assert_eq!(app.screen, Screen::Locations);
    assert_eq!(app.inventory.len(), 3);
}

#[test]
fn the_goal_stays_between_one_and_ten() {
    let mut app = at_locations();
    let targets: Vec<NordTarget> = (0..20).map(|i| target("Denver", i)).collect();
    app.inventory_fetched(targets, at(100));
    app.location_focus = 1;
    app.handle_key(press(KeyCode::Enter), at(1));
    assert_eq!(app.screen, Screen::ProbeSetup);
    assert_eq!((app.options.desired_confirmed, app.options.max_candidates), (3, 12));
    for _ in 0..30 {
        app.handle_key(press(KeyCode::Up), at(1));
    }
    assert_eq!((app.options.desired_confirmed, app.options.max_candidates), (10, 12));
    for _ in 0..30 {
        app.handle_key(press(KeyCode::Down), at(1));
    }
    assert_eq!((app.options.desired_confirmed, app.options.max_candidates), (1, 12));
    app.handle_key(press(KeyCode::Tab), at(1));
    for _ in 0..30 {
        app.handle_key(press(KeyCode::Up), at(1));
    }
    assert_eq!(app.options.max_candidates, 20);
}

#[test]
fn the_screens_start_with_nothing_revealed() {
    let app = App::new();
    assert!(!app.reveal_pasted_key);
    assert_eq!((app.setup_focus, app.location_focus, app.option_focus), (0, 0, 0));
    assert!(app.attempts.is_empty() && app.active.is_empty() && app.planned_targets.is_empty());
    assert!(app.status.is_empty() && app.error.is_empty() && app.filter.is_empty());
    assert!(!app.cancelling && !app.refreshing_inventory && !app.inventory_from_cache);
    assert!(app.run_end_reason.is_none() && app.worker_fatal.is_none());
}
