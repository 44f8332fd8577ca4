use wgprobe::cache::{CacheSwap, SwapStep};
use wgprobe::commands::{check_options, city_line, filtered_cities, list_marked, CommandKind};
use wgprobe::inventory::{
    candidate, candidate_with, check_cache_size, cities, city_targets, decode_body,
    has_plain_names, is_wireguard_key, load_document, parse, store_document, ApiLocation,
    ApiMetadata, ApiServer, ApiTechnology, CacheFault, CitySummary, InventoryError, NordTarget,
    MAX_INVENTORY_BYTES,
};
use wgprobe::net::SocketAddr;
use wgprobe::text::sanitize_display;

const ONES: &str = "AQEBAQEBAQEBAQEBAQEBAQEBAQEBAQEBAQEBAQEBAQE=";
const ZEROS: &str = "AAAAAAAAAAAAAAAAAAAAAAAAAAAAAAAAAAAAAAAAAAA=";

fn server(city: &str, station: &str, key: &str, status: &str) -> ApiServer {
    ApiServer {
        name: format!("{city} #1"),
        hostname: format!("{}.example", city.to_lowercase()),
        station: station.into(),
        load: 7,
        status: status.into(),
        locations: vec![ApiLocation { country: "United States".into(), city: city.into() }],
        technologies: vec![ApiTechnology {
            identifier: "wireguard_udp".into(),
            status: "online".into(),
            metadata: vec![ApiMetadata { name: "public_key".into(), value: key.into() }],
        }],
    }
}

fn fixture() -> Vec<Option<ApiServer>> {
    vec![
        Some(server("Denver", "192.0.2.10", ZEROS, "online")),
        Some(server("Atlanta", "192.0.2.20", ONES, "online")),
        Some(server("Atlanta", "192.0.2.20", ONES, "online")),
        Some(server("Chicago", "192.0.2.30", ONES, "offline")),
        Some(server("Miami", "192.0.2.40", "short", "online")),
    ]
}

fn targets() -> Vec<NordTarget> {
    parse(&fixture()).unwrap()
}

#[test]
fn extracts_online_wireguard_targets_and_deduplicates() {
    let targets = targets();
    assert_eq!(targets.len(), 2);
    assert_eq!(targets[0].city, "Atlanta");
    assert_eq!(targets[0].endpoint.text(), "192.0.2.20:51820");
    assert_eq!(targets[0].public_key, ONES);
    assert_eq!(targets[1].city, "Denver");
}

#[test]
fn aggregates_and_filters_city_names() {
    let summaries = cities(&targets(), "den");
    assert_eq!(summaries.len(), 1);
    assert_eq!(summaries[0].city, "Denver");
    assert_eq!(summaries[0].count, 1);
}

#[test]
fn strips_remote_control_characters_from_display_text() {
    assert_eq!(sanitize_display("Den\u{1b}[31mver\n"), "Den[31mver");
}

#[test]
fn rejects_inventory_without_usable_candidates() {
    assert!(matches!(parse(&Vec::new()), Err(InventoryError::NoUsableTargets)));
    assert!(matches!(
        parse(&vec![None, Some(server("Denver", "192.0.2.1", ONES, "offline"))]),
        Err(InventoryError::NoUsableTargets)
    ));
}

#[test]
fn skips_malformed_records_while_retaining_valid_records() {
    let records = vec![None, None, Some(server("Atlanta", "192.0.2.20", ONES, "online"))];
    let targets = parse(&records).unwrap();
    assert_eq!(targets.len(), 1);
    assert_eq!(targets[0].city, "Atlanta");
}

#[test]
fn rejects_response_bodies_over_the_limit_before_parsing() {
    let error = decode_body(b"12345", 4).unwrap_err();
    assert!(matches!(error, InventoryError::BodyTooLarge));
    assert_eq!(decode_body(b"1234", 4).unwrap(), "1234");
    assert!(matches!(decode_body(&[0xff], 4), Err(InventoryError::BodyEncoding)));
}

#[test]
fn round_trips_normalized_inventory_cache() {
    let targets = targets();
    let fetched_at = 123_456u64;
    let document = store_document(&targets, Some(fetched_at)).unwrap();
    let cached = load_document(document, true).unwrap();
    assert_eq!(cached.targets, targets);
    assert_eq!(cached.fetched_at, fetched_at);

    let refreshed_at = fetched_at + 60;
    let document = store_document(&targets, Some(refreshed_at)).unwrap();
    assert_eq!(load_document(document, true).unwrap().fetched_at, refreshed_at);
}

#[test]
fn unmatched_headless_country_is_an_error() {
    let targets = vec![NordTarget {
        name: "Test".into(),
        hostname: "test.example".into(),
        endpoint: SocketAddr::parse("192.0.2.1:51820").unwrap(),
        public_key: ZEROS.into(),
        country: "United States".into(),
        city: "Denver".into(),
        load: 1,
    }];
    assert!(filtered_cities(&targets, Some("Nowhere")).is_err());
    let found = filtered_cities(&targets, Some("united STATES")).unwrap();
    assert_eq!(found.len(), 1);
    assert!(city_line(&found[0]).contains("Denver"));
    assert_eq!(filtered_cities(&targets, None).unwrap().len(), 1);
}

#[test]
fn countries_are_matched_case_aside() {
    let targets = vec![NordTarget {
        name: "Test".into(),
        hostname: "test.example".into(),
        endpoint: SocketAddr::parse("192.0.2.1:51820").unwrap(),
        public_key: ZEROS.into(),
        country: "\u{d6}sterreich".into(),
        city: "Wien".into(),
        load: 1,
    }];
    assert_eq!(filtered_cities(&targets, Some("\u{f6}STERREICH")).unwrap().len(), 1);
    assert!(filtered_cities(&targets, Some("\u{f6}sterreic")).is_err());
    let all = vec![
        CitySummary { country: "A".into(), city: "x".into(), count: 1 },
        CitySummary { country: "B".into(), city: "y".into(), count: 1 },
    ];
    assert_eq!(list_marked(&all, &vec![false, true], Some("b")).unwrap()[0].city, "y");
    assert_eq!(
        list_marked(&all, &vec![false, false], Some("C")).unwrap_err(),
        "no usable Nord candidates found for country \"C\""
    );
    assert_eq!(
        list_marked(&Vec::new(), &Vec::new(), None).unwrap_err(),
        "Nord inventory contained no usable cities"
    );
}

#[test]
fn key_file_flag_is_tui_only() {
    assert!(check_options(CommandKind::Cities, true, false)
        .unwrap_err()
        .contains("available only"));
}

#[test]
fn export_directory_flag_is_tui_only() {
    assert!(check_options(CommandKind::Cities, false, true)
        .unwrap_err()
        .contains("available only"));
    assert!(check_options(CommandKind::Cities, false, false).is_ok());
}

#[test]
fn servers_are_judged_by_their_record() {
    assert!(candidate(&server("Denver", "192.0.2.10", ZEROS, "online")).is_some());
    assert!(candidate(&server("Denver", "192.0.2.10", ZEROS, "offline")).is_none());
    assert!(candidate(&server("Denver", "not an address", ZEROS, "online")).is_none());
    let nowhere = ApiServer {
        locations: Vec::new(),
        ..server("Denver", "192.0.2.10", ZEROS, "online")
    };
    assert!(candidate(&nowhere).is_none());
    let other = ApiServer {
        technologies: Vec::new(),
        ..server("Denver", "192.0.2.10", ZEROS, "online")
    };
    assert!(candidate(&other).is_none());
    let record = server("Denver", "192.0.2.10", "anything", "online");
    assert!(candidate_with(&record, true).is_some());
    assert!(candidate_with(&record, false).is_none());
    assert!(is_wireguard_key(ONES));
    assert!(!is_wireguard_key("anything"));
}

#[test]
fn servers_are_found_by_their_city() {
    let targets = targets();
    assert_eq!(city_targets(&targets, "United States", "Denver").len(), 1);
    assert_eq!(city_targets(&targets, "Canada", "Denver").len(), 0);
    assert_eq!(
        cities(&targets, ""),
        [
            CitySummary { country: "United States".into(), city: "Atlanta".into(), count: 1 },
            CitySummary { country: "United States".into(), city: "Denver".into(), count: 1 },
        ]
    );
}

#[test]
fn damaged_caches_are_refused() {
    let stored = || store_document(&targets(), Some(5)).unwrap();
    let mut document = stored();
    document.schema_version += 1;
    assert!(matches!(load_document(document, true), Err(CacheFault::Schema(_))));
    let mut document = stored();
    document.targets.clear();
    assert!(matches!(load_document(document, true), Err(CacheFault::Empty)));
    let mut document = stored();
    document.targets[0].public_key = "x".into();
    assert!(matches!(load_document(document, true), Err(CacheFault::InvalidCandidates)));
    let mut document = stored();
    document.targets[0].city = "Den\nver".into();
    assert!(!has_plain_names(&document.targets[0]));
    assert!(matches!(load_document(document, true), Err(CacheFault::InvalidCandidates)));
    assert!(matches!(load_document(stored(), false), Err(CacheFault::Timestamp)));
    assert!(check_cache_size(MAX_INVENTORY_BYTES).is_ok());
    assert!(matches!(
        check_cache_size(MAX_INVENTORY_BYTES + 1),
        Err(CacheFault::TooLarge)
    ));
    assert!(store_document(&targets(), None).is_err());
    assert!(CacheFault::Empty.message("cache.json").contains("cache.json"));
}

#[test]
fn inventory_errors_have_messages() {
    for (error, part) in [
        (InventoryError::Request("refused".into()), "refused"),
        (InventoryError::Json("bad".into()), "bad"),
        (InventoryError::BodyTooLarge, ""),
        (InventoryError::Body("cut".into()), "cut"),
        (InventoryError::BodyEncoding, ""),
        (InventoryError::NoUsableTargets, ""),
    ] {
        let message = error.message();
        assert!(!message.is_empty() && message.contains(part));
    }
}

/// Carries out the steps of a replacement on a map from names to contents, but for those that
/// fail.
fn replace(
    disk: &mut std::collections::BTreeMap<&'static str, &'static str>,
    faults: &[SwapStep],
) -> Result<(), String> {
    let mut swap = CacheSwap::new("cache", "backup");
    loop {
        let step = swap.step();
        let (from, to) = match step {
            SwapStep::Install | SwapStep::Replace => ("new", Some("cache")),
            SwapStep::Inspect => ("", None),
            SwapStep::Preserve => ("cache", Some("backup")),
            SwapStep::Restore => ("backup", Some("cache")),
            SwapStep::Discard => ("new", None),
            SwapStep::Forget => ("backup", None),
            SwapStep::Done => return swap.result(),
        };
        let result = if faults.contains(&step) {
            Err("refused".to_string())
        } else {
            if let Some(content) = disk.remove(from) {
                if let Some(to) = to {
                    disk.insert(to, content);
                }
            }
            Ok(())
        };
        swap.advance(result);
    }
}

#[test]
fn replacing_a_cache_keeps_a_usable_one() {
    let disk = || std::collections::BTreeMap::from([("cache", "old"), ("new", "fresh")]);
    let mut files = disk();
    assert!(replace(&mut files, &[]).is_ok());
    assert_eq!(files.get("cache"), Some(&"fresh"));

    let mut files = disk();
    assert!(replace(&mut files, &[SwapStep::Install]).is_ok());
    assert_eq!(files.get("cache"), Some(&"fresh"));
    assert_eq!(files.get("backup"), None);

    let mut files = disk();
    let error = replace(&mut files, &[SwapStep::Install, SwapStep::Replace]).unwrap_err();
    assert!(error.contains("restored the previous cache"));
    assert_eq!(files.get("cache"), Some(&"old"));

    let mut files = disk();
    let faults = [SwapStep::Install, SwapStep::Replace, SwapStep::Restore];
    let error = replace(&mut files, &faults).unwrap_err();
    assert!(error.contains("remains at backup"));
    assert_eq!(files.get("backup"), Some(&"old"));

    let mut files = disk();
    let error = replace(&mut files, &[SwapStep::Install, SwapStep::Preserve]).unwrap_err();
    assert!(error.contains("could not preserve the existing cache"));
    assert_eq!(files.get("cache"), Some(&"old"));

    let mut files = disk();
    assert!(replace(&mut files, &[SwapStep::Install, SwapStep::Inspect]).is_err());
    assert_eq!(files.get("cache"), Some(&"old"));
}
