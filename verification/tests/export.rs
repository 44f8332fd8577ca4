use std::collections::BTreeSet;
use wgprobe::credentials::{
    check_response_size, decode_hex_key, ensure_secure_file_creation, key_file_text,
    key_write_fault, normalize_private_key, validate_access_token, KeyFileFault, LockOutput,
    SingleLockWriter, LOCK_INDICATOR, MAX_RESPONSE_BYTES,
};
use wgprobe::export::{
    cleanup_partial, export_name, export_text, sanitize_hostname,
    write_sensitive_config, CreateOutcome, ExportError, ExportFailure, ExportRun, ExportStep,
};
use wgprobe::identity::RunIdentity;
use wgprobe::inventory::NordTarget;
use wgprobe::net::SocketAddr;
use wgprobe::paths::{
    check_export_directory, export_display_path, join_path, reject_symlink_component,
    resolve_export_directory, restrict_directory, restrict_file, shown_path, ComponentStep,
    DirectorySetup, EntryKind, Inspection, LookUp, PartStep, PathPart, PathResolution, SetupOutcome,
    SetupStep, WrittenPath,
};
use wgprobe::ProbeConfig;

const KEY: &str = "AAAAAAAAAAAAAAAAAAAAAAAAAAAAAAAAAAAAAAAAAAA=";

fn target() -> NordTarget {
    NordTarget {
        name: "Test".into(),
        hostname: "../bad host".into(),
        endpoint: SocketAddr::parse("192.0.2.1:51820").unwrap(),
        public_key: "AQEBAQEBAQEBAQEBAQEBAQEBAQEBAQEBAQEBAQEBAQE=".into(),
        country: "Test".into(),
        city: "Test".into(),
        load: 1,
    }
}

fn identity() -> RunIdentity {
    RunIdentity::parse(KEY).unwrap_or_else(|error| panic!("{}", error.message()))
}

/// A directory tree in memory: what stands at each path.
struct Tree {
    directories: BTreeSet<String>,
    links: BTreeSet<String>,
    files: BTreeSet<String>,
    restricted: BTreeSet<String>,
}

impl Tree {
    fn new(directories: &[&str], links: &[&str]) -> Tree {
        Tree {
            directories: directories.iter().map(|path| path.to_string()).collect(),
            links: links.iter().map(|path| path.to_string()).collect(),
            files: BTreeSet::new(),
            restricted: BTreeSet::new(),
        }
    }

    fn inspect(&self, path: &str) -> Inspection {
        if self.links.contains(path) {
            Inspection::Found(EntryKind::Symlink)
        } else if self.directories.contains(path) {
            Inspection::Found(EntryKind::Directory)
        } else if self.files.contains(path) {
            Inspection::Found(EntryKind::Other)
        } else {
            Inspection::Missing
        }
    }

    fn judge(&self, path: &str) -> Result<(), ExportError> {
        let ends = path.match_indices('/').map(|(end, _)| end).skip(1);
        for end in ends.chain([path.len()]) {
            match reject_symlink_component(&path[..end], self.inspect(&path[..end])) {
                ComponentStep::Continue => {}
                ComponentStep::Stop => break,
                ComponentStep::Refused(error) => return Err(error),
            }
        }
        Ok(())
    }

    fn set_up(&mut self, path: &str) -> Result<(), ExportError> {
        let parent = path.rsplit_once('/').unwrap().0.to_string();
        let mut setup = DirectorySetup::new(path, Some(&parent));
        loop {
            let outcome = match setup.step() {
                SetupStep::RejectSymlinks => SetupOutcome::Judged(self.judge(path)),
                SetupStep::Inspect | SetupStep::Recheck => {
                    SetupOutcome::Inspected(self.inspect(path))
                }
                SetupStep::CreateParents => {
                    self.directories.insert(parent.clone());
                    SetupOutcome::Changed(Ok(()))
                }
                SetupStep::RejectParentSymlinks => SetupOutcome::Judged(self.judge(&parent)),
                SetupStep::Create => {
                    self.directories.insert(path.to_string());
                    SetupOutcome::Created(CreateOutcome::Created)
                }
                SetupStep::Restrict => {
                    self.restricted.insert(path.to_string());
                    SetupOutcome::Changed(Ok(()))
                }
                SetupStep::Done => return Ok(()),
            };
            setup.advance(outcome)?;
        }
    }

    fn export(
        &mut self,
        identity: &RunIdentity,
        expected: &str,
        root: &str,
        cancelled: bool,
    ) -> Result<String, ExportError> {
        let target = target();
        let (mut run, mut step) = ExportRun::begin(identity, expected, &target, root, cancelled);
        loop {
            step = match step {
                ExportStep::EnsureDirectory => {
                    let outcome = self.set_up(root);
                    run.directory_ready(outcome, cancelled)
                }
                ExportStep::Create(name) => {
                    let path = join_path(root, &name);
                    let outcome = if self.files.insert(path.clone()) {
                        CreateOutcome::Created
                    } else {
                        CreateOutcome::AlreadyExists
                    };
                    run.created(outcome, &path, cancelled)
                }
                ExportStep::Write(_) => run.written(Ok(()), cancelled),
                ExportStep::Remove { name, write_error } => {
                    let path = join_path(root, &name);
                    self.files.remove(&path);
                    return Err(run.removed(write_error, &path, Ok(())));
                }
                ExportStep::Exported(name) => return Ok(name),
                ExportStep::Failed(error) => return Err(error),
            };
        }
    }
}

#[test]
fn rejects_identity_mismatch_before_writing() {
    let mut tree = Tree::new(&["/tmp"], &[]);
    let error = tree.export(&identity(), "different", "/tmp/exports", false).unwrap_err();
    assert!(matches!(error, ExportError::IdentityMismatch));
    assert!(!tree.directories.contains("/tmp/exports"));
}

#[test]
fn creates_unique_restrictive_exports_without_overwrite() {
    let mut tree = Tree::new(&["/tmp"], &[]);
    let identity = identity();
    let root = "/tmp/nordprobe-exports";
    let first = tree.export(&identity, identity.public_key(), root, false).unwrap();
    let second = tree.export(&identity, identity.public_key(), root, false).unwrap();
    assert_ne!(first, second);
    assert_eq!(first, "_bad_host.conf");
    assert_eq!(second, "_bad_host-1.conf");
    assert!(export_text(&identity, &target()).as_str().contains(KEY));
    assert!(tree.restricted.contains(root));
    assert_eq!(restrict_directory(true), Some(0o700));
    assert_eq!(restrict_file(true), Some(0o600));
    assert_eq!(restrict_directory(false), None);
    assert_eq!(restrict_file(false), None);
}

#[test]
fn preserves_permissions_on_existing_export_directory() {
    let mut tree = Tree::new(&["/tmp", "/tmp/existing"], &[]);
    let identity = identity();
    tree.export(&identity, identity.public_key(), "/tmp/existing", false).unwrap();
    assert!(tree.restricted.is_empty());
}

#[test]
fn rejects_symlinked_managed_directory() {
    let mut tree = Tree::new(&["/tmp", "/tmp/destination"], &["/tmp/nordprobe"]);
    let identity = identity();
    let error =
        tree.export(&identity, identity.public_key(), "/tmp/nordprobe", false).unwrap_err();
    assert!(matches!(error, ExportError::SymlinkDirectory(path) if path == "/tmp/nordprobe"));
}

#[test]
fn rejects_symlinked_export_directory_ancestor() {
    let mut tree = Tree::new(&["/tmp", "/tmp/destination"], &["/tmp/link"]);
    let identity = identity();
    let root = "/tmp/link/nested-export";
    let error = tree.export(&identity, identity.public_key(), root, false).unwrap_err();
    assert!(matches!(error, ExportError::SymlinkDirectory(path) if path == "/tmp/link"));
    assert!(!tree.directories.contains(root));
}

#[test]
fn cancelled_export_does_not_create_a_directory() {
    let mut tree = Tree::new(&["/tmp"], &[]);
    let identity = identity();
    let root = "/tmp/cancelled";
    let error = tree.export(&identity, identity.public_key(), root, true).unwrap_err();
    assert!(matches!(error, ExportError::Cancelled));
    assert!(!tree.directories.contains(root));
}

#[test]
fn write_failure_removes_sensitive_partial_file() {
    let error = write_sensitive_config(
        "partial.conf",
        Err("injected write failure".into()),
        Ok(()),
    )
    .unwrap_err();
    assert!(matches!(error, ExportError::Write { .. }));
    let identity = identity();
    let (mut run, _) =
        ExportRun::begin(&identity, identity.public_key(), &target(), "/tmp/exports", false);
    assert_eq!(
        run.created(CreateOutcome::Created, "/tmp/exports/_bad_host.conf", false),
        ExportStep::Write("_bad_host.conf".into())
    );
    assert_eq!(
        run.written(Err("injected write failure".into()), false),
        ExportStep::Remove {
            name: "_bad_host.conf".into(),
            write_error: Some("injected write failure".into()),
        }
    );
}

#[test]
fn write_failure_reports_sensitive_partial_file_when_cleanup_fails() {
    let error = write_sensitive_config(
        "partial.conf",
        Err("injected write failure".into()),
        Err("injected cleanup failure".into()),
    )
    .unwrap_err();
    assert!(matches!(error, ExportError::SensitivePartialFile { .. }));
    assert!(error.message().contains("sensitive partial file"));
}

#[test]
fn cancelled_write_is_cleaned_up() {
    let cancelled = || ExportFailure::Cancelled;
    assert_eq!(cleanup_partial("p", cancelled(), Ok(())), ExportError::Cancelled);
    assert_eq!(
        cleanup_partial("p", cancelled(), Err("busy".into())),
        ExportError::CancelledCleanup { path: "p".into(), source: "busy".into() }
    );
    for (error, part) in [
        (ExportError::Cancelled, "cancelled"),
        (ExportError::CancelledCleanup { path: "p".into(), source: "s".into() }, "p"),
        (ExportError::IdentityMismatch, "identity"),
        (ExportError::SymlinkDirectory("d".into()), "d"),
        (ExportError::Directory { path: "d".into(), source: "s".into() }, "s"),
        (ExportError::Write { path: "f".into(), source: "full".into() }, "full"),
    ] {
        assert!(error.message().contains(part), "{}", error.message());
    }
}

#[test]
fn export_names_run_out() {
    let identity = identity();
    let (mut run, _) =
        ExportRun::begin(&identity, identity.public_key(), &target(), "/x", false);
    let mut names = BTreeSet::from([export_name("_bad_host", 0)]);
    loop {
        match run.created(CreateOutcome::AlreadyExists, "unused", false) {
            ExportStep::Create(name) => assert!(names.insert(name)),
            ExportStep::Failed(error) => {
                assert!(error.message().contains("no unused export filename"));
                break;
            }
            other => panic!("{other:?}"),
        }
    }
    assert_eq!(names.len(), 10_000);
    assert!(names.contains("_bad_host-9999.conf"));
}

#[test]
fn exported_configuration_is_read_back() {
    let identity = identity();
    let text = export_text(&identity, &target());
    let config = ProbeConfig::parse(text.as_str()).unwrap_or_else(|e| panic!("{}", e.message()));
    assert_eq!(config.client_public_key(), identity.public_key());
    assert_eq!(config.endpoint(), "192.0.2.1:51820");
    assert_eq!(config.address().unwrap().text(), "10.5.0.2/32");
    assert_eq!(config.dns_servers().len(), 2);
    assert_eq!(config.allowed_ips()[0].text(), "0.0.0.0/0");
}

#[test]
fn hostnames_become_file_names() {
    assert_eq!(sanitize_hostname("us1.example-host"), "us1.example-host");
    assert!(!sanitize_hostname("../../etc/passwd").contains('/'));
    assert!(!sanitize_hostname("..").starts_with('.'));
    assert_eq!(sanitize_hostname("..a/b.."), "a_b");
    assert_eq!(sanitize_hostname(&sanitize_hostname("..a/b..")), "a_b");
    assert!(!sanitize_hostname("").is_empty());
}

#[test]
fn validates_token_and_normalizes_key_encodings() {
    assert!(validate_access_token(&"a".repeat(64)).is_ok());
    assert!(validate_access_token("not-a-token").is_err());
    let normalized = |value: &str| normalize_private_key(value).map(|key| key.as_str().to_string());
    assert_eq!(normalized(KEY), Ok(KEY.to_string()));
    assert_eq!(normalized(&"0".repeat(64)), Ok(KEY.to_string()));
    assert!(normalized("invalid").is_err());
    assert_eq!(
        normalized(&"01".repeat(32)),
        Ok("AQEBAQEBAQEBAQEBAQEBAQEBAQEBAQEBAQEBAQEBAQE=".to_string())
    );
    let loose = format!("{}B=", "A".repeat(42));
    assert_eq!(loose.len(), KEY.len());
    assert!(normalized(&loose).is_err());
    assert!(normalized(KEY.trim_end_matches('=')).is_err());
    let upper = normalized(&"aB".repeat(32)).unwrap();
    assert_eq!(upper.len(), 44);
    assert_eq!(normalized(&upper), Ok(upper.clone()));
    let mut bytes = [0u8; 32];
    assert!(decode_hex_key(&"Ff".repeat(32), &mut bytes));
    assert_eq!(bytes, [0xff; 32]);
    assert!(!decode_hex_key(&"g".repeat(64), &mut bytes));
}

#[test]
fn password_feedback_shows_one_lock_without_revealing_length() {
    let mut writer = SingleLockWriter::new();
    let mut shown = Vec::new();
    let put = |writer: &mut SingleLockWriter, shown: &mut Vec<u8>, buffer: &[u8]| {
        match writer.write(buffer) {
            LockOutput::Drop => {}
            LockOutput::ShowLock => {
                shown.extend_from_slice(buffer);
                writer.lock_shown();
            }
            LockOutput::Pass => shown.extend_from_slice(buffer),
        }
    };
    put(&mut writer, &mut shown, b"Nord access token: ");
    writer.flushed();
    let lock = LOCK_INDICATOR.to_string();
    for _ in 0..64 {
        put(&mut writer, &mut shown, lock.as_bytes());
    }
    put(&mut writer, &mut shown, b"\x08 \x08");
    put(&mut writer, &mut shown, b"\x08 \x08\x08 \x08");
    put(&mut writer, &mut shown, b"\n");
    assert_eq!(String::from_utf8(shown).unwrap(), "Nord access token: 🔒\n");
}

#[test]
fn writes_restrictive_key_without_overwrite() {
    assert_eq!(key_file_text(KEY).as_str(), format!("{KEY}\n"));
    assert!(KeyFileFault::Create("file exists".into())
        .message("private-key")
        .contains("could not create"));
    assert!(key_write_fault("disk full".into(), Ok(()))
        .message("private-key")
        .contains("disk full"));
    assert!(key_write_fault("disk full".into(), Err("busy".into()))
        .message("private-key")
        .contains("sensitive partial file"));
    assert!(ensure_secure_file_creation(true).is_ok());
    assert!(ensure_secure_file_creation(false).is_err());
    assert!(check_response_size(MAX_RESPONSE_BYTES).is_ok());
    assert!(check_response_size(MAX_RESPONSE_BYTES + 1).is_err());
}

#[test]
fn resolves_relative_export_directory_from_launch_directory() {
    assert_eq!(resolve_export_directory("custom-exports"), Ok("custom-exports"));
    assert_eq!(resolve_export_directory("  exports "), Ok("exports"));
    assert!(resolve_export_directory(" \t").is_err());
}

#[test]
fn keeps_relative_export_path_for_display() {
    let written = "/launch/exports/server.conf";
    assert_eq!(export_display_path("./exports", written), "./exports/server.conf");
    assert_eq!(export_display_path("/launch/exports", written), written);
    assert_eq!(export_display_path("e", "/w/a.conf/"), "e/a.conf");
    assert_eq!(export_display_path("e", "/w/a.conf/."), "e/a.conf");
    assert_eq!(export_display_path("e/", "a.conf"), "e/a.conf");
    assert_eq!(export_display_path("", "/w//a.conf"), "a.conf");
    assert_eq!(export_display_path("e", "/w/.."), "e");
    assert_eq!(export_display_path("e", "/"), "e");
}

#[test]
fn other_systems_say_how_their_paths_are_shown() {
    let native = |in_full: bool, appended: Option<&str>| WrittenPath::Native {
        path: "C:\\exports\\server.conf".into(),
        in_full,
        appended: appended.map(Into::into),
    };
    assert_eq!(
        shown_path("C:\\exports", &native(true, None)),
        "C:\\exports\\server.conf"
    );
    assert_eq!(
        shown_path("exports", &native(false, Some("exports\\server.conf"))),
        "exports\\server.conf"
    );
    assert_eq!(shown_path("exports", &native(false, None)), "exports");
    assert_eq!(
        shown_path("./exports", &WrittenPath::Slashes("/launch/exports/a.conf".into())),
        "./exports/a.conf"
    );
}

#[test]
fn a_file_that_cannot_be_created_is_named() {
    let identity = identity();
    let (mut run, _) =
        ExportRun::begin(&identity, identity.public_key(), &target(), "/x", false);
    assert_eq!(
        run.created(CreateOutcome::Failed("denied".into()), "/x/_bad_host.conf", false),
        ExportStep::Failed(ExportError::Write {
            path: "/x/_bad_host.conf".into(),
            source: "denied".into(),
        })
    );
}

/// Resolves the parts of a path below a base that exists.
fn resolve(
    parts: &[PathPart],
    existing: &[&[u8]],
    files: &[&[u8]],
) -> Result<Vec<Vec<u8>>, String> {
    let mut resolution = PathResolution::new();
    let mut resolved: Vec<Vec<u8>> = Vec::new();
    for part in parts {
        match resolution.next_part(part) {
            PartStep::Append | PartStep::Skip => {}
            PartStep::Leave => {
                let is_directory = !resolved.last().is_some_and(|n| files.contains(&n.as_slice()));
                resolution.left(is_directory, "given")?;
                resolved.pop();
            }
            PartStep::LookUp => {
                if let PathPart::Name(name) = part {
                    let known = existing.contains(&name.as_slice());
                    let outcome = if known { LookUp::Resolved } else { LookUp::Missing };
                    resolution.looked_up(name, outcome, "given")?;
                    if known {
                        resolved.push(name.clone());
                    }
                }
            }
        }
    }
    resolved.extend(resolution.missing().iter().cloned());
    Ok(resolved)
}

fn name(text: &str) -> PathPart {
    PathPart::Name(text.as_bytes().to_vec())
}

#[test]
fn unresolved_parent_components_are_normalized_without_creation() {
    let parts = [PathPart::Root, name("new"), PathPart::Parent, name("exports")];
    assert_eq!(resolve(&parts, &[], &[]), Ok(vec![b"exports".to_vec()]));
}

#[test]
fn parent_after_regular_file_is_rejected() {
    let parts = [name("file"), PathPart::Parent, name("exports")];
    let error = resolve(&parts, &[b"file"], &[b"file"]).unwrap_err();
    assert!(error.contains("non-directory"));
}

#[test]
fn parent_after_symlink_resolves_from_symlink_target() {
    let parts = [name("link"), PathPart::Current, PathPart::Parent, name("exports")];
    assert_eq!(resolve(&parts, &[b"link"], &[]), Ok(vec![b"exports".to_vec()]));
}

#[test]
fn unreadable_parts_fail() {
    let mut resolution = PathResolution::new();
    let error = resolution
        .looked_up(&b"x".to_vec(), LookUp::Failed("denied".into()), "given")
        .unwrap_err();
    assert_eq!(error, "could not resolve export directory given: denied");
    assert!(check_export_directory("p", None).is_ok());
    assert!(check_export_directory("p", Some(EntryKind::Directory)).is_ok());
    assert!(check_export_directory("p", Some(EntryKind::Other)).is_err());
}
