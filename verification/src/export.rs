//! Writing the configuration of a confirmed server to a file of its own.
use crate::config::{
    apply_line, apply_lines, apply_pair, empty_draft, line_content, parse_config_spec, ConfigModel,
    Draft, Ipv4Cidr, Section,
};
use crate::identity::RunIdentity;
use crate::inventory::NordTarget;
use crate::keys::{all_key_characters, is_key_character_spec, key_spec, SecretText};
use crate::net::{IpModel, Ipv4Addr, SocketAddr, SocketModel};
use crate::text::{
    chars_of, decimal, decimal_spec, is_whitespace_spec, lines_spec, same_text, split_list_spec,
    trim_spec,
};
use vstd::prelude::*;
use vstd::string::*;

verus! {

/// Why there is no export. Paths are given in the notation for the user.
#[derive(Debug, PartialEq, Eq)]
pub enum ExportError {
    Cancelled,
    CancelledCleanup { path: String, source: String },
    IdentityMismatch,
    SymlinkDirectory(String),
    Directory { path: String, source: String },
    Write { path: String, source: String },
    SensitivePartialFile { path: String, write_error: String, cleanup_error: String },
}

/// Why there is no export, as a mathematical value.
#[verifier::ext_equal]
pub enum ExportErrorModel {
    Cancelled,
    CancelledCleanup { path: Seq<char>, source: Seq<char> },
    IdentityMismatch,
    SymlinkDirectory(Seq<char>),
    Directory { path: Seq<char>, source: Seq<char> },
    Write { path: Seq<char>, source: Seq<char> },
    SensitivePartialFile {
        path: Seq<char>,
        write_error: Seq<char>,
        cleanup_error: Seq<char>,
    },
}

impl View for ExportError {
    type V = ExportErrorModel;

    open spec fn view(&self) -> ExportErrorModel {
        match self {
            ExportError::Cancelled => ExportErrorModel::Cancelled,
            ExportError::CancelledCleanup { path, source } => ExportErrorModel::CancelledCleanup {
                path: path@,
                source: source@,
            },
            ExportError::IdentityMismatch => ExportErrorModel::IdentityMismatch,
            ExportError::SymlinkDirectory(path) => ExportErrorModel::SymlinkDirectory(path@),
            ExportError::Directory { path, source } => ExportErrorModel::Directory {
                path: path@,
                source: source@,
            },
            ExportError::Write { path, source } => ExportErrorModel::Write {
                path: path@,
                source: source@,
            },
            ExportError::SensitivePartialFile { path, write_error, cleanup_error } => {
                ExportErrorModel::SensitivePartialFile {
                    path: path@,
                    write_error: write_error@,
                    cleanup_error: cleanup_error@,
                }
            },
        }
    }
}

impl ExportErrorModel {
    /// The message for the user.
    pub open spec fn message(self) -> Seq<char> {
        match self {
            ExportErrorModel::Cancelled => "export cancelled"@,
            ExportErrorModel::CancelledCleanup { path, source } => {
                "export cancelled but could not remove "@ + path + ": "@ + source
            },
            ExportErrorModel::IdentityMismatch => {
                "the confirmed result belongs to a different client identity"@
            },
            ExportErrorModel::SymlinkDirectory(path) => "export directory "@ + path
                + " must not be a symbolic link"@,
            ExportErrorModel::Directory { path, source } => "could not create export directory "@
                + path + ": "@ + source,
            ExportErrorModel::Write { path, source } => "could not write export "@ + path + ": "@
                + source,
            ExportErrorModel::SensitivePartialFile { path, write_error, cleanup_error } => {
                "could not write export "@ + path + ": "@ + write_error + "; cleanup failed: "@
                    + cleanup_error
                    + "; sensitive partial file containing private-key material remains"@
            },
        }
    }
}

impl ExportError {
    /// The message for the user.
    pub fn message(&self) -> (r: String)
        ensures
            r@ == self@.message(),
    {
        let mut r = String::new();
        match self {
            ExportError::Cancelled => {
                r = "export cancelled".to_string();
            },
            ExportError::CancelledCleanup { path, source } => {
                r = "export cancelled but could not remove ".to_string();
                r.append(path.as_str());
                r.append(": ");
                r.append(source.as_str());
            },
            ExportError::IdentityMismatch => {
                r = "the confirmed result belongs to a different client identity".to_string();
            },
            ExportError::SymlinkDirectory(path) => {
                r = "export directory ".to_string();
                r.append(path.as_str());
                r.append(" must not be a symbolic link");
            },
            ExportError::Directory { path, source } => {
                r = "could not create export directory ".to_string();
                r.append(path.as_str());
                r.append(": ");
                r.append(source.as_str());
            },
            ExportError::Write { path, source } => {
                r = "could not write export ".to_string();
                r.append(path.as_str());
                r.append(": ");
                r.append(source.as_str());
            },
            ExportError::SensitivePartialFile { path, write_error, cleanup_error } => {
                r = "could not write export ".to_string();
                r.append(path.as_str());
                r.append(": ");
                r.append(write_error.as_str());
                r.append("; cleanup failed: ");
                r.append(cleanup_error.as_str());
                r.append("; sensitive partial file containing private-key material remains");
            },
        }
        r
    }
}

/// Whether a character is an ASCII letter or digit.
pub open spec fn is_ascii_alphanumeric_spec(c: char) -> bool {
    'a' <= c <= 'z' || 'A' <= c <= 'Z' || '0' <= c <= '9'
}

/// What stands for a character in a file name: letters, digits, dots and hyphens stay.
pub open spec fn file_char(c: char) -> char {
    if is_ascii_alphanumeric_spec(c) || c == '-' || c == '.' {
        c
    } else {
        '_'
    }
}

/// `s` without the dots at its start.
pub open spec fn trim_start_dots(s: Seq<char>) -> Seq<char>
    decreases s.len(),
{
    if s.len() > 0 && s[0] == '.' {
        trim_start_dots(s.drop_first())
    } else {
        s
    }
}

/// The beginning of the file name for a host: harmless characters, with no dot at either end, and
/// never empty.
pub open spec fn sanitize_hostname_spec(hostname: Seq<char>) -> Seq<char> {
    let plain = hostname.map_values(|c: char| file_char(c));
    let trimmed = crate::text::trim_end_char_spec(trim_start_dots(plain), '.');
    if trimmed.len() == 0 {
        "nord-server"@
    } else {
        trimmed
    }
}

/// The beginning of the file name for a host.
pub fn sanitize_hostname(hostname: &str) -> (r: String)
    ensures
        r@ == sanitize_hostname_spec(hostname@),
{
    let chars = chars_of(hostname);
    let ghost plain = hostname@.map_values(|c: char| file_char(c));
    let mut value = String::new();
    let mut i: usize = 0;
    assert(value@ =~= plain.take(0));
    while i < chars.len()
        invariant
            chars@ == hostname@,
            i <= hostname@.len(),
            plain == hostname@.map_values(|c: char| file_char(c)),
            value@ == plain.take(i as int),
        decreases hostname@.len() - i,
    {
        let c = chars[i];
        let plain_char = if ('a' <= c && c <= 'z') || ('A' <= c && c <= 'Z') || ('0' <= c && c
            <= '9') || c == '-' || c == '.' {
            c
        } else {
            '_'
        };
        value.push(plain_char);
        assert(plain[i as int] == plain_char);
        i = i + 1;
        assert(plain.take(i as int) =~= plain.take(i - 1).push(plain[i - 1]));
    }
    assert(plain.take(i as int) =~= plain);
    let all = chars_of(value.as_str());
    let mut start: usize = 0;
    assert(plain.skip(0) =~= plain);
    while start < all.len() && all[start] == '.'
        invariant
            all@ == plain,
            start <= all@.len(),
            trim_start_dots(plain.skip(start as int)) == trim_start_dots(plain),
        decreases all@.len() - start,
    {
        assert(plain.skip(start as int).drop_first() =~= plain.skip(start + 1));
        start = start + 1;
    }
    let front = value.as_str().substring_char(start, all.len());
    assert(front@ =~= plain.skip(start as int));
    let trimmed = crate::text::trim_end_char(front, '.');
    if trimmed.is_empty() {
        "nord-server".to_string()
    } else {
        trimmed.to_string()
    }
}

/// Whether a character is harmless in a file name.
pub open spec fn is_file_char(c: char) -> bool {
    is_ascii_alphanumeric_spec(c) || c == '-' || c == '.' || c == '_'
}

/// A file name made for a host holds no separator: only letters, digits, dots, hyphens and
/// underscores, with no dot at its start or end, and it is not empty. Made for such a name, it is
/// the name itself.
pub proof fn sanitized_hostname_is_safe(hostname: Seq<char>)
    ensures
        sanitize_hostname_spec(hostname).len() > 0,
        sanitize_hostname_spec(hostname)[0] != '.',
        sanitize_hostname_spec(hostname).last() != '.',
        sanitize_hostname_spec(sanitize_hostname_spec(hostname)) == sanitize_hostname_spec(
            hostname,
        ),
        forall|i: int|
            0 <= i < sanitize_hostname_spec(hostname).len() ==> is_file_char(
                #[trigger] sanitize_hostname_spec(hostname)[i],
            ),
{
    let plain = hostname.map_values(|c: char| file_char(c));
    reveal_strlit("nord-server");
    assert forall|i: int| 0 <= i < plain.len() implies is_file_char(#[trigger] plain[i]) by {}
    lemma_trim_start_dots(plain);
    lemma_trim_end_dots(trim_start_dots(plain));
    let name = sanitize_hostname_spec(hostname);
    assert(forall|i: int| 0 <= i < name.len() ==> is_file_char(#[trigger] name[i]));
    assert(name.map_values(|c: char| file_char(c)) =~= name);
}

proof fn lemma_trim_start_dots(s: Seq<char>)
    requires
        forall|i: int| 0 <= i < s.len() ==> is_file_char(#[trigger] s[i]),
    ensures
        forall|i: int|
            0 <= i < trim_start_dots(s).len() ==> is_file_char(#[trigger] trim_start_dots(s)[i]),
        trim_start_dots(s).len() > 0 ==> trim_start_dots(s)[0] != '.',
    decreases s.len(),
{
    if s.len() > 0 && s[0] == '.' {
        assert forall|i: int| 0 <= i < s.drop_first().len() implies is_file_char(
            #[trigger] s.drop_first()[i],
        ) by {
            assert(s.drop_first()[i] == s[i + 1]);
        }
        lemma_trim_start_dots(s.drop_first());
    }
}

proof fn lemma_trim_end_dots(s: Seq<char>)
    requires
        forall|i: int| 0 <= i < s.len() ==> is_file_char(#[trigger] s[i]),
        s.len() > 0 ==> s[0] != '.',
    ensures
        ({
            let t = crate::text::trim_end_char_spec(s, '.');
            &&& forall|i: int| 0 <= i < t.len() ==> is_file_char(#[trigger] t[i])
            &&& t.len() > 0 ==> t[0] != '.' && t.last() != '.'
        }),
    decreases s.len(),
{
    if s.len() > 0 && s.last() == '.' {
        assert forall|i: int| 0 <= i < s.drop_last().len() implies is_file_char(
            #[trigger] s.drop_last()[i],
        ) by {
            assert(s.drop_last()[i] == s[i]);
        }
        lemma_trim_end_dots(s.drop_last());
    }
}

/// The file name for a host: with a number where earlier names are taken.
pub open spec fn export_name_spec(stem: Seq<char>, suffix: int) -> Seq<char> {
    if suffix == 0 {
        stem + ".conf"@
    } else {
        stem + "-"@ + decimal_spec(suffix) + ".conf"@
    }
}

/// The file name for a host.
pub fn export_name(stem: &str, suffix: u32) -> (r: String)
    ensures
        r@ == export_name_spec(stem@, suffix as int),
{
    let mut r = stem.to_string();
    if suffix != 0 {
        r.append("-");
        r.append(decimal(suffix as u64).as_str());
    }
    r.append(".conf");
    r
}

/// The configuration file for a server.
pub open spec fn export_text_spec(
    private_key: Seq<char>,
    public_key: Seq<char>,
    endpoint: SocketModel,
) -> Seq<char> {
    "[Interface]\nPrivateKey = "@ + private_key
        + "\nAddress = 10.5.0.2/32\nDNS = 103.86.96.100,103.86.99.100\n\n[Peer]\nPublicKey = "@
        + public_key + "\nAllowedIPs = 0.0.0.0/0\nEndpoint = "@ + SocketAddr::text_spec(endpoint)
        + "\nPersistentKeepalive = 25\n"@
}

/// The configuration file for a server, with the private key of the identity.
pub fn export_text(identity: &RunIdentity, target: &NordTarget) -> (r: SecretText)
    ensures
        r@ == export_text_spec(
            identity.private_key_spec(),
            target.public_key@,
            target.endpoint@,
        ),
{
    let mut r = "[Interface]\nPrivateKey = ".to_string();
    r.append(identity.private_key());
    r.append(
        "\nAddress = 10.5.0.2/32\nDNS = 103.86.96.100,103.86.99.100\n\n[Peer]\nPublicKey = ",
    );
    r.append(target.public_key.as_str());
    r.append("\nAllowedIPs = 0.0.0.0/0\nEndpoint = ");
    r.append(target.endpoint.text().as_str());
    r.append("\nPersistentKeepalive = 25\n");
    SecretText::new(r)
}

/// Why a file that was created is given up.
#[derive(Debug)]
pub enum ExportFailure {
    Cancelled,
    Write(String),
}

/// The error after a file was given up and removed, or not.
pub open spec fn cleanup_spec(
    path: Seq<char>,
    failure: Option<Seq<char>>,
    removed: Result<(), Seq<char>>,
) -> ExportErrorModel {
    match (failure, removed) {
        (None, Ok(_)) => ExportErrorModel::Cancelled,
        (None, Err(source)) => ExportErrorModel::CancelledCleanup { path, source },
        (Some(source), Ok(_)) => ExportErrorModel::Write { path, source },
        (Some(write_error), Err(cleanup_error)) => ExportErrorModel::SensitivePartialFile {
            path,
            write_error,
            cleanup_error,
        },
    }
}

/// The write error of a failure; a cancelled export has none.
pub open spec fn failure_view(failure: ExportFailure) -> Option<Seq<char>> {
    match failure {
        ExportFailure::Cancelled => None,
        ExportFailure::Write(error) => Some(error@),
    }
}

/// The view of an outcome without a value.
pub open spec fn outcome_view(outcome: Result<(), String>) -> Result<(), Seq<char>> {
    match outcome {
        Ok(_) => Ok(()),
        Err(error) => Err(error@),
    }
}

/// The error after a file was given up and removed, or not.
pub fn cleanup_partial(path: &str, failure: ExportFailure, removed: Result<(), String>) -> (r:
    ExportError)
    ensures
        r@ == cleanup_spec(path@, failure_view(failure), outcome_view(removed)),
{
    match (failure, removed) {
        (ExportFailure::Cancelled, Ok(())) => ExportError::Cancelled,
        (ExportFailure::Cancelled, Err(source)) => ExportError::CancelledCleanup {
            path: path.to_string(),
            source,
        },
        (ExportFailure::Write(source), Ok(())) => ExportError::Write {
            path: path.to_string(),
            source,
        },
        (ExportFailure::Write(write_error), Err(cleanup_error)) => {
            ExportError::SensitivePartialFile {
                path: path.to_string(),
                write_error,
                cleanup_error,
            }
        },
    }
}

/// The result of writing a file that holds a key, where what was written of it was removed, or not,
/// after a failure.
pub fn write_sensitive_config(
    path: &str,
    written: Result<(), String>,
    removed: Result<(), String>,
) -> (r: Result<(), ExportError>)
    ensures
        match r {
            Ok(_) => written is Ok,
            Err(error) => written matches Err(failure) && error@ == cleanup_spec(
                path@,
                Some(failure@),
                outcome_view(removed),
            ),
        },
{
    match written {
        Ok(()) => Ok(()),
        Err(error) => Err(cleanup_partial(path, ExportFailure::Write(error), removed)),
    }
}

/// How many file names are tried.
pub const MAX_EXPORT_NAMES: u32 = 10_000;

/// What came of creating a file.
#[derive(Debug)]
pub enum CreateOutcome {
    Created,
    AlreadyExists,
    Failed(String),
}

/// An export in progress: the step that is due, and which name is tried.
#[derive(Debug)]
pub struct ExportRun {
    root: String,
    stem: String,
    suffix: u32,
}

/// What an export needs next, or how it ended.
#[derive(Debug, PartialEq, Eq)]
pub enum ExportStep {
    /// The directory, which may have to be created.
    EnsureDirectory,
    /// A new file with this name in the directory.
    Create(String),
    /// The configuration written to the file with this name.
    Write(String),
    /// The file with this name removed, after the write error if there was one.
    Remove { name: String, write_error: Option<String> },
    /// Nothing: the file with this name holds the configuration.
    Exported(String),
    /// Nothing: there is no export.
    Failed(ExportError),
}

/// What an export needs next, as a mathematical value.
#[verifier::ext_equal]
pub enum ExportStepModel {
    EnsureDirectory,
    Create(Seq<char>),
    Write(Seq<char>),
    Remove { name: Seq<char>, write_error: Option<Seq<char>> },
    Exported(Seq<char>),
    Failed(ExportErrorModel),
}

impl View for ExportStep {
    type V = ExportStepModel;

    open spec fn view(&self) -> ExportStepModel {
        match self {
            ExportStep::EnsureDirectory => ExportStepModel::EnsureDirectory,
            ExportStep::Create(name) => ExportStepModel::Create(name@),
            ExportStep::Write(name) => ExportStepModel::Write(name@),
            ExportStep::Remove { name, write_error } => ExportStepModel::Remove {
                name: name@,
                write_error: match write_error {
                    Some(error) => Some(error@),
                    None => None,
                },
            },
            ExportStep::Exported(name) => ExportStepModel::Exported(name@),
            ExportStep::Failed(error) => ExportStepModel::Failed(error@),
        }
    }
}

impl ExportRun {
    pub closed spec fn root_spec(self) -> Seq<char> {
        self.root@
    }

    pub closed spec fn stem_spec(self) -> Seq<char> {
        self.stem@
    }

    pub closed spec fn suffix_spec(self) -> int {
        self.suffix as int
    }

    /// The name that is tried now.
    pub open spec fn name_spec(self) -> Seq<char> {
        export_name_spec(self.stem_spec(), self.suffix_spec())
    }

    /// Starts an export of a server whose confirmation belongs to the public key. Nothing is
    /// created for another identity, or after the user has cancelled.
    pub fn begin(
        identity: &RunIdentity,
        expected_public_key: &str,
        target: &NordTarget,
        root: &str,
        cancelled: bool,
    ) -> (r: (ExportRun, ExportStep))
        ensures
            r.0.root_spec() == root@,
            r.0.stem_spec() == sanitize_hostname_spec(target.hostname@),
            r.0.suffix_spec() == 0,
            r.1@ == (if cancelled {
                ExportStepModel::Failed(ExportErrorModel::Cancelled)
            } else if identity.public_key_spec() != expected_public_key@ {
                ExportStepModel::Failed(ExportErrorModel::IdentityMismatch)
            } else {
                ExportStepModel::EnsureDirectory
            }),
    {
        let run = ExportRun {
            root: root.to_string(),
            stem: sanitize_hostname(target.hostname.as_str()),
            suffix: 0,
        };
        if cancelled {
            return (run, ExportStep::Failed(ExportError::Cancelled));
        }
        if !same_text(identity.public_key(), expected_public_key) {
            return (run, ExportStep::Failed(ExportError::IdentityMismatch));
        }
        (run, ExportStep::EnsureDirectory)
    }

    /// Takes what came of the directory.
    pub fn directory_ready(&self, outcome: Result<(), ExportError>, cancelled: bool) -> (r:
        ExportStep)
        ensures
            r@ == (match outcome {
                Err(error) => ExportStepModel::Failed(error@),
                Ok(_) => if cancelled {
                    ExportStepModel::Failed(ExportErrorModel::Cancelled)
                } else {
                    ExportStepModel::Create(self.name_spec())
                },
            }),
    {
        match outcome {
            Err(error) => ExportStep::Failed(error),
            Ok(()) => if cancelled {
                ExportStep::Failed(ExportError::Cancelled)
            } else {
                ExportStep::Create(export_name(self.stem.as_str(), self.suffix))
            },
        }
    }

    /// Takes what came of creating the file, whose path reads as given. A name that is taken leads
    /// to the next, as long as there is one; a file that was created when the user cancels is
    /// removed.
    pub fn created(&mut self, outcome: CreateOutcome, path: &str, cancelled: bool) -> (r: ExportStep)
        requires
            old(self).suffix_spec() < MAX_EXPORT_NAMES,
        ensures
            final(self).root_spec() == old(self).root_spec(),
            final(self).stem_spec() == old(self).stem_spec(),
            match outcome {
                CreateOutcome::Created => final(self).suffix_spec() == old(self).suffix_spec() && r@
                    == (if cancelled {
                    ExportStepModel::Remove { name: old(self).name_spec(), write_error: None }
                } else {
                    ExportStepModel::Write(old(self).name_spec())
                }),
                CreateOutcome::AlreadyExists => final(self).suffix_spec() == old(
                    self,
                ).suffix_spec() + 1 && r@ == (if final(self).suffix_spec() == MAX_EXPORT_NAMES {
                    ExportStepModel::Failed(
                        ExportErrorModel::Write {
                            path: old(self).root_spec(),
                            source: "no unused export filename was available"@,
                        },
                    )
                } else if cancelled {
                    ExportStepModel::Failed(ExportErrorModel::Cancelled)
                } else {
                    ExportStepModel::Create(final(self).name_spec())
                }),
                CreateOutcome::Failed(source) => final(self).suffix_spec() == old(
                    self,
                ).suffix_spec() && r@ == ExportStepModel::Failed(
                    ExportErrorModel::Write { path: path@, source: source@ },
                ),
            },
    {
        let name = export_name(self.stem.as_str(), self.suffix);
        match outcome {
            CreateOutcome::Created => if cancelled {
                ExportStep::Remove { name, write_error: None }
            } else {
                ExportStep::Write(name)
            },
            CreateOutcome::AlreadyExists => {
                self.suffix = self.suffix + 1;
                if self.suffix == MAX_EXPORT_NAMES {
                    ExportStep::Failed(
                        ExportError::Write {
                            path: self.root.clone(),
                            source: "no unused export filename was available".to_string(),
                        },
                    )
                } else if cancelled {
                    ExportStep::Failed(ExportError::Cancelled)
                } else {
                    ExportStep::Create(export_name(self.stem.as_str(), self.suffix))
                }
            },
            CreateOutcome::Failed(source) => ExportStep::Failed(
                ExportError::Write { path: path.to_string(), source },
            ),
        }
    }

    /// Takes what came of writing the configuration. A file that was not written in full, or that
    /// was written when the user cancels, is removed.
    pub fn written(&self, outcome: Result<(), String>, cancelled: bool) -> (r: ExportStep)
        ensures
            r@ == (match outcome {
                Err(error) => ExportStepModel::Remove {
                    name: self.name_spec(),
                    write_error: Some(error@),
                },
                Ok(_) => if cancelled {
                    ExportStepModel::Remove { name: self.name_spec(), write_error: None }
                } else {
                    ExportStepModel::Exported(self.name_spec())
                },
            }),
    {
        let name = export_name(self.stem.as_str(), self.suffix);
        match outcome {
            Err(error) => ExportStep::Remove { name, write_error: Some(error) },
            Ok(()) => if cancelled {
                ExportStep::Remove { name, write_error: None }
            } else {
                ExportStep::Exported(name)
            },
        }
    }

    /// Takes what came of removing the file, whose path reads as given.
    pub fn removed(&self, write_error: Option<String>, path: &str, outcome: Result<(), String>) -> (r:
        ExportError)
        ensures
            r@ == cleanup_spec(
                path@,
                match write_error {
                    Some(error) => Some(error@),
                    None => None,
                },
                outcome_view(outcome),
            ),
    {
        let failure = match write_error {
            Some(error) => ExportFailure::Write(error),
            None => ExportFailure::Cancelled,
        };
        cleanup_partial(path, failure, outcome)
    }
}

/// Names that are tried one after the other are different.
pub proof fn export_names_differ(stem: Seq<char>, a: int, b: int)
    requires
        0 <= a,
        a < b,
    ensures
        export_name_spec(stem, a) != export_name_spec(stem, b),
{
    let x = export_name_spec(stem, a);
    let y = export_name_spec(stem, b);
    reveal_strlit(".conf");
    reveal_strlit("-");
    let n = stem.len() as int;
    assert(y[n] == '-');
    if a == 0 {
        assert(x[n] == '.');
    } else {
        if x == y {
            let da = decimal_spec(a);
            let db = decimal_spec(b);
            assert(da =~= x.subrange(n + 1, x.len() - 5));
            assert(db =~= y.subrange(n + 1, y.len() - 5));
            crate::text::decimal_reads_back(a);
            crate::text::decimal_reads_back(b);
        }
    }
}

/// A line before a line feed is the first line.
proof fn lemma_first_line(line: Seq<char>, rest: Seq<char>)
    requires
        !line.contains('\n'),
        !line.contains('\r'),
    ensures
        lines_spec(line + seq!['\n'] + rest) == seq![line] + lines_spec(rest),
{
    let s = line + seq!['\n'] + rest;
    assert forall|k: int| 0 <= k < line.len() implies s[k] != '\n' by {
        assert(line.contains(line[k]));
    }
    crate::text::lemma_first_index_unique(s, '\n', line.len() as int);
    assert(s.take(line.len() as int) =~= line);
    assert(s.skip(line.len() as int + 1) =~= rest);
    if line.len() > 0 {
        assert(line.contains(line.last()));
    }
    assert(crate::text::strip_return(line) == line);
}

/// A text without white space at its ends is unchanged by trimming.
proof fn lemma_trimmed(s: Seq<char>)
    requires
        s.len() > 0,
        !is_whitespace_spec(s[0]),
        !is_whitespace_spec(s.last()),
    ensures
        trim_spec(s) == s,
{
}

/// A space at the end, or at the start, is trimmed away.
proof fn lemma_trim_space(s: Seq<char>)
    requires
        s.len() > 0,
        !is_whitespace_spec(s[0]),
        !is_whitespace_spec(s.last()),
    ensures
        trim_spec(s.push(' ')) == s,
        trim_spec(seq![' '] + s) == s,
{
    let padded = s.push(' ');
    assert(padded[0] == s[0]);
    assert(padded.drop_last() =~= s);
    lemma_trimmed(s);
    assert(crate::text::trim_start_spec(padded) == padded);
    assert(crate::text::trim_end_spec(padded) == crate::text::trim_end_spec(s));
    let led = seq![' '] + s;
    assert(led.drop_first() =~= s);
    assert(led[0] == ' ');
    assert(crate::text::trim_start_spec(led) == crate::text::trim_start_spec(s));
}

/// Whether a text can stand in a line: it is not empty, and holds no white space, comment sign or
/// bracket at its ends.
spec fn is_line_part(s: Seq<char>) -> bool {
    &&& s.len() > 0
    &&& !is_whitespace_spec(s[0])
    &&& !is_whitespace_spec(s.last())
    &&& !s.contains('#')
}

/// A line with a name and a value says what they say.
proof fn lemma_pair_line(draft: Draft, name: Seq<char>, value: Seq<char>, number: int)
    requires
        is_line_part(name),
        is_line_part(value),
        !name.contains('='),
        name[0] != '[',
    ensures
        apply_line(draft, name + " = "@ + value, number) == apply_pair(draft, name, value),
{
    reveal_strlit(" = ");
    let raw = name + " = "@ + value;
    assert(" = "@.len() == 3);
    let n = name.len() as int;
    assert forall|k: int| 0 <= k < raw.len() implies raw[k] != '#' by {
        if k < n {
            assert(name.contains(name[k]));
        } else if k >= n + 3 {
            assert(raw[k] == value[k - n - 3]);
            assert(value.contains(value[k - n - 3]));
        }
    }
    crate::text::lemma_first_index_unique(raw, '#', raw.len() as int);
    assert(raw.take(raw.len() as int) =~= raw);
    assert(raw[0] == name[0]);
    assert(raw.last() == value.last());
    lemma_trimmed(raw);
    assert(line_content(raw) == raw);
    assert forall|k: int| 0 <= k < n + 1 implies raw[k] != '=' by {
        if k < n {
            assert(name.contains(name[k]));
        }
    }
    assert(raw[n + 1] == '=');
    crate::text::lemma_first_index_unique(raw, '=', n + 1);
    assert(raw.take(n + 1) =~= name.push(' '));
    assert(raw.skip(n + 2) =~= seq![' '] + value);
    lemma_trim_space(name);
    lemma_trim_space(value);
}

/// A list of one item is that item.
proof fn lemma_one_item(value: Seq<char>)
    requires
        value.len() > 0,
        !is_whitespace_spec(value[0]),
        !is_whitespace_spec(value.last()),
        !value.contains(','),
    ensures
        split_list_spec(value) == seq![value],
{
    crate::net::lemma_split_piece(value, ',', value);
    lemma_trimmed(value);
    let pieces = seq![value];
    assert(pieces.drop_first() =~= Seq::empty());
    assert(crate::text::list_items(pieces.drop_first()) =~= Seq::empty());
    assert(split_list_spec(value) =~= seq![value]);
}

/// An address list with one comma has two items.
proof fn lemma_two_items(a: Seq<char>, b: Seq<char>)
    requires
        is_line_part(a),
        is_line_part(b),
        !a.contains(','),
        !b.contains(','),
    ensures
        split_list_spec(a + seq![','] + b) == seq![a, b],
{
    crate::net::lemma_split_piece(a, ',', b);
    crate::net::lemma_split_piece(b, ',', b);
    lemma_trimmed(a);
    lemma_trimmed(b);
    let pieces = seq![a] + seq![b];
    assert(pieces.drop_first() =~= seq![b]);
    assert(seq![b].drop_first() =~= Seq::empty());
    assert(crate::text::list_items(Seq::empty()) =~= Seq::empty());
    assert(crate::text::list_items(seq![b]) =~= seq![b]);
    assert(split_list_spec(a + seq![','] + b) =~= seq![a, b]);
}

/// Address characters can stand in a line and in a list.
proof fn lemma_address_part(s: Seq<char>)
    requires
        s.len() > 0,
        crate::net::all_address_chars(s),
    ensures
        is_line_part(s),
        !s.contains(','),
        !s.contains('\n'),
        !s.contains('\r'),
{
    assert(crate::net::is_address_char(s[0]));
    assert(crate::net::is_address_char(s[s.len() - 1]));
    assert forall|c: char| s.contains(c) implies crate::net::is_address_char(c) by {
        let k = choose|k: int| 0 <= k < s.len() && s[k] == c;
        assert(crate::net::is_address_char(s[k]));
    }
}

/// Key characters can stand in a line.
proof fn lemma_key_part(s: Seq<char>)
    requires
        s.len() > 0,
        all_key_characters(s),
    ensures
        is_line_part(s),
        !s.contains('\n'),
        !s.contains('\r'),
{
    assert(is_key_character_spec(s[0]));
    assert(is_key_character_spec(s[s.len() - 1]));
    assert forall|c: char| s.contains(c) implies is_key_character_spec(c) by {
        let k = choose|k: int| 0 <= k < s.len() && s[k] == c;
        assert(is_key_character_spec(s[k]));
    }
}

/// The notation of an endpoint can stand in a line.
proof fn lemma_endpoint_part(endpoint: SocketModel)
    ensures
        is_line_part(SocketAddr::text_spec(endpoint)),
        !SocketAddr::text_spec(endpoint).contains('\n'),
        !SocketAddr::text_spec(endpoint).contains('\r'),
{
    let s = SocketAddr::text_spec(endpoint);
    crate::net::endpoint_text_shape(endpoint);
    assert forall|c: char| s.contains(c) implies crate::net::is_address_char(c) || c == '[' || c
        == ']' || c == '%' by {
        let k = choose|k: int| 0 <= k < s.len() && s[k] == c;
        assert(s[k] == c);
    }
    assert(s.contains(s[0]));
    assert(s.contains(s[s.len() - 1]));
}

/// The address that clients have in the networks of the servers.
pub open spec fn client_address() -> Ipv4Addr {
    Ipv4Addr { a: 10, b: 5, c: 0, d: 2 }
}

/// The DNS servers in an exported configuration.
pub open spec fn export_dns() -> (Ipv4Addr, Ipv4Addr) {
    (Ipv4Addr { a: 103, b: 86, c: 96, d: 100 }, Ipv4Addr { a: 103, b: 86, c: 99, d: 100 })
}

proof fn lemma_address_literals()
    ensures
        "10.5.0.2/32"@ == Ipv4Cidr::text_spec(client_address(), 32),
        "0.0.0.0/0"@ == Ipv4Cidr::text_spec(Ipv4Addr { a: 0, b: 0, c: 0, d: 0 }, 0),
        "103.86.96.100"@ == export_dns().0.text_spec(),
        "103.86.99.100"@ == export_dns().1.text_spec(),
        "103.86.96.100,103.86.99.100"@ == "103.86.96.100"@ + seq![','] + "103.86.99.100"@,
{
    reveal_strlit("10.5.0.2/32");
    reveal_strlit("0.0.0.0/0");
    reveal_strlit("103.86.96.100");
    reveal_strlit("103.86.99.100");
    reveal_strlit("103.86.96.100,103.86.99.100");
    reveal_with_fuel(decimal_spec, 4);
    assert("10.5.0.2/32"@ =~= Ipv4Cidr::text_spec(client_address(), 32));
    assert("0.0.0.0/0"@ =~= Ipv4Cidr::text_spec(Ipv4Addr { a: 0, b: 0, c: 0, d: 0 }, 0));
    assert("103.86.96.100"@ =~= export_dns().0.text_spec());
    assert("103.86.99.100"@ =~= export_dns().1.text_spec());
    assert("103.86.96.100,103.86.99.100"@ =~= "103.86.96.100"@ + seq![','] + "103.86.99.100"@);
}

/// A section header changes the section, and counts a peer.
proof fn lemma_header_lines(draft: Draft, number: int)
    ensures
        apply_line(draft, "[Interface]"@, number) == Ok::<
            Draft,
            crate::config::ConfigErrorModel,
        >(Draft { section: Section::Interface, ..draft }),
        apply_line(draft, "[Peer]"@, number) == Ok::<Draft, crate::config::ConfigErrorModel>(
            Draft { section: Section::Peer, peers: draft.peers + 1, ..draft },
        ),
        apply_line(draft, Seq::empty(), number) == Ok::<Draft, crate::config::ConfigErrorModel>(
            draft,
        ),
{
    reveal_strlit("[Interface]");
    reveal_strlit("[Peer]");
    reveal_strlit("Interface");
    reveal_strlit("Peer");
    let a = "[Interface]"@;
    let b = "[Peer]"@;
    assert(a.len() == 11 && b.len() == 6);
    crate::text::lemma_first_index_unique(a, '#', 11);
    crate::text::lemma_first_index_unique(b, '#', 6);
    assert(a.take(11) =~= a);
    assert(b.take(6) =~= b);
    lemma_trimmed(a);
    lemma_trimmed(b);
    assert(a.subrange(1, 10) =~= "Interface"@);
    assert(b.subrange(1, 5) =~= "Peer"@);
    assert("Interface"@.len() != "Peer"@.len());
    let none = Seq::<char>::empty();
    assert(none.take(0) =~= none);
    assert(line_content(none) =~= none);
}

/// What the lines of an exported configuration say, one by one.
proof fn lemma_export_pairs(
    draft: Draft,
    private_key: Seq<char>,
    public_key: Seq<char>,
    endpoint: SocketModel,
)
    requires
        key_spec(private_key) is Some,
        key_spec(public_key) is Some,
    ensures
        draft.section == Section::Interface ==> {
            &&& apply_pair(draft, "PrivateKey"@, private_key) == Ok::<
                Draft,
                crate::config::ConfigErrorModel,
            >(Draft { private_key: key_spec(private_key), ..draft })
            &&& draft.address is None ==> apply_pair(draft, "Address"@, "10.5.0.2/32"@) == Ok::<
                Draft,
                crate::config::ConfigErrorModel,
            >(Draft { address: Some((client_address(), 32)), ..draft })
            &&& apply_pair(draft, "DNS"@, "103.86.96.100,103.86.99.100"@) == Ok::<
                Draft,
                crate::config::ConfigErrorModel,
            >(
                Draft {
                    dns_servers: draft.dns_servers + seq![
                        IpModel::V4(export_dns().0),
                        IpModel::V4(export_dns().1),
                    ],
                    ..draft
                },
            )
        },
        draft.section == Section::Peer ==> {
            &&& apply_pair(draft, "PublicKey"@, public_key) == Ok::<
                Draft,
                crate::config::ConfigErrorModel,
            >(Draft { peer_public_key: key_spec(public_key), ..draft })
            &&& apply_pair(draft, "AllowedIPs"@, "0.0.0.0/0"@) == Ok::<
                Draft,
                crate::config::ConfigErrorModel,
            >(
                Draft {
                    allowed_ips: draft.allowed_ips + seq![
                        (Ipv4Addr { a: 0, b: 0, c: 0, d: 0 }, 0int),
                    ],
                    ..draft
                },
            )
            &&& apply_pair(draft, "Endpoint"@, SocketAddr::text_spec(endpoint)) == Ok::<
                Draft,
                crate::config::ConfigErrorModel,
            >(Draft { endpoint: Some(SocketAddr::text_spec(endpoint)), ..draft })
            &&& apply_pair(draft, "PersistentKeepalive"@, "25"@) == Ok::<
                Draft,
                crate::config::ConfigErrorModel,
            >(draft)
        },
{
    reveal_strlit("PrivateKey");
    reveal_strlit("Address");
    reveal_strlit("DNS");
    reveal_strlit("PublicKey");
    reveal_strlit("PresharedKey");
    reveal_strlit("Endpoint");
    reveal_strlit("AllowedIPs");
    reveal_strlit("PersistentKeepalive");
    assert("PrivateKey"@.len() == 10 && "Address"@.len() == 7 && "DNS"@.len() == 3
        && "PublicKey"@.len() == 9 && "PresharedKey"@.len() == 12 && "Endpoint"@.len() == 8
        && "AllowedIPs"@.len() == 10 && "PersistentKeepalive"@.len() == 19);
    lemma_export_networks();
}

proof fn lemma_export_networks()
    ensures
        crate::config::cidr_items(split_list_spec("10.5.0.2/32"@)) == Ok::<
            Seq<(Ipv4Addr, int)>,
            Seq<char>,
        >(seq![(client_address(), 32int)]),
        crate::config::cidr_items(split_list_spec("0.0.0.0/0"@)) == Ok::<
            Seq<(Ipv4Addr, int)>,
            Seq<char>,
        >(seq![(Ipv4Addr { a: 0, b: 0, c: 0, d: 0 }, 0int)]),
        crate::config::ip_items(split_list_spec("103.86.96.100,103.86.99.100"@)) == seq![
            IpModel::V4(export_dns().0),
            IpModel::V4(export_dns().1),
        ],
{
    lemma_address_literals();
    let zero = Ipv4Addr { a: 0, b: 0, c: 0, d: 0 };
    crate::config::cidr_text_reads_back(client_address(), 32);
    crate::config::cidr_text_reads_back(zero, 0);
    lemma_one_network(client_address(), 32, "10.5.0.2/32"@);
    lemma_one_network(zero, 0, "0.0.0.0/0"@);
    let (first, second) = export_dns();
    let a = first.text_spec();
    let b = second.text_spec();
    crate::net::ipv4_text_reads_back(first);
    crate::net::ipv4_text_reads_back(second);
    crate::net::lemma_ipv4_chars(first);
    crate::net::lemma_ipv4_chars(second);
    lemma_address_part(a);
    lemma_address_part(b);
    lemma_two_items(a, b);
    let items = seq![a, b];
    assert(items.drop_first() =~= seq![b]);
    assert(seq![b].drop_first() =~= Seq::empty());
    assert(crate::config::ip_items(Seq::empty()) =~= Seq::empty());
    assert(crate::config::ip_items(seq![b]) =~= seq![IpModel::V4(second)]);
    assert(crate::config::ip_items(items) =~= seq![IpModel::V4(first), IpModel::V4(second)]);
}

proof fn lemma_one_network(address: Ipv4Addr, prefix: int, text: Seq<char>)
    requires
        0 <= prefix <= 32,
        text == Ipv4Cidr::text_spec(address, prefix),
        Ipv4Cidr::parse_spec(text) == Some((address, prefix)),
    ensures
        crate::config::cidr_items(split_list_spec(text)) == Ok::<
            Seq<(Ipv4Addr, int)>,
            Seq<char>,
        >(seq![(address, prefix)]),
{
    lemma_network_part(address, prefix);
    lemma_one_item(text);
    let items = seq![text];
    assert(items.drop_first() =~= Seq::empty());
    assert(crate::config::cidr_items(Seq::empty()) == Ok::<Seq<(Ipv4Addr, int)>, Seq<char>>(
        Seq::empty(),
    ));
    assert(seq![(address, prefix)] + Seq::empty() =~= seq![(address, prefix)]);
}

/// The notation of a network can stand in a line and in a list, and holds no colon.
proof fn lemma_network_part(address: Ipv4Addr, prefix: int)
    requires
        0 <= prefix <= 32,
    ensures
        is_line_part(Ipv4Cidr::text_spec(address, prefix)),
        !Ipv4Cidr::text_spec(address, prefix).contains(','),
        !Ipv4Cidr::text_spec(address, prefix).contains(':'),
        !Ipv4Cidr::text_spec(address, prefix).contains('\n'),
        !Ipv4Cidr::text_spec(address, prefix).contains('\r'),
{
    let s = Ipv4Cidr::text_spec(address, prefix);
    crate::net::lemma_ipv4_dotted(address);
    crate::text::decimal_reads_back(prefix);
    let text = address.text_spec();
    let digits = decimal_spec(prefix);
    assert forall|k: int| 0 <= k < s.len() implies crate::text::is_digit_spec(#[trigger] s[k]) || s[k]
        == '.' || s[k] == '/' by {
        if k < text.len() {
            assert(s[k] == text[k]);
        } else if k > text.len() {
            assert(s[k] == digits[k - text.len() - 1]);
        }
    }
    assert forall|c: char| s.contains(c) implies crate::text::is_digit_spec(c) || c == '.' || c
        == '/' by {
        let k = choose|k: int| 0 <= k < s.len() && s[k] == c;
        assert(s[k] == c);
    }
}

/// A configuration that was exported is read back: the private key, the peer's key, the endpoint,
/// and what data checks need.
pub proof fn exported_configuration_reads_back(
    private_key: Seq<char>,
    public_key: Seq<char>,
    endpoint: SocketModel,
)
    requires
        private_key.len() > 0,
        public_key.len() > 0,
        all_key_characters(private_key),
        all_key_characters(public_key),
        key_spec(private_key) is Some,
        key_spec(public_key) is Some,
    ensures
        parse_config_spec(export_text_spec(private_key, public_key, endpoint)) == Ok::<
            ConfigModel,
            crate::config::ConfigErrorModel,
        >(
            ConfigModel {
                private_key: key_spec(private_key).unwrap(),
                peer_public_key: key_spec(public_key).unwrap(),
                preshared_key: None,
                endpoint: SocketAddr::text_spec(endpoint),
                address: Some((client_address(), 32)),
                dns_servers: seq![IpModel::V4(export_dns().0), IpModel::V4(export_dns().1)],
                allowed_ips: seq![(Ipv4Addr { a: 0, b: 0, c: 0, d: 0 }, 0int)],
            },
        ),
{
    let lines = export_lines(private_key, public_key, endpoint);
    let drafts = export_drafts(private_key, public_key, endpoint);
    lemma_export_lines(private_key, public_key, endpoint);
    lemma_interface_steps(private_key, public_key, endpoint);
    lemma_peer_steps(private_key, public_key, endpoint);
    assert forall|k: int| 0 <= k < lines.len() implies #[trigger] steps_to(drafts, lines, k) by {
        if k < 5 {
            assert(k == 0 || k == 1 || k == 2 || k == 3 || k == 4);
        } else {
            assert(k == 5 || k == 6 || k == 7 || k == 8 || k == 9);
        }
    }
    lemma_apply_steps(drafts, lines, 0);
}

/// What has been read before each line of an exported configuration, and at its end.
#[verifier::opaque]
spec fn export_drafts(
    private_key: Seq<char>,
    public_key: Seq<char>,
    endpoint: SocketModel,
) -> Seq<Draft> {
    let d0 = empty_draft();
    let d1 = Draft { section: Section::Interface, ..d0 };
    let d2 = Draft { private_key: key_spec(private_key), ..d1 };
    let d3 = Draft { address: Some((client_address(), 32)), ..d2 };
    let d4 = Draft {
        dns_servers: seq![IpModel::V4(export_dns().0), IpModel::V4(export_dns().1)],
        ..d3
    };
    let d5 = Draft { section: Section::Peer, peers: 1, ..d4 };
    let d6 = Draft { peer_public_key: key_spec(public_key), ..d5 };
    let d7 = Draft { allowed_ips: seq![(Ipv4Addr { a: 0, b: 0, c: 0, d: 0 }, 0int)], ..d6 };
    let d8 = Draft { endpoint: Some(SocketAddr::text_spec(endpoint)), ..d7 };
    seq![d0, d1, d2, d3, d4, d4, d5, d6, d7, d8, d8]
}

/// Line `k` leads from one draft to the next.
#[verifier::opaque]
spec fn steps_to(drafts: Seq<Draft>, lines: Seq<Seq<char>>, k: int) -> bool {
    apply_line(drafts[k], lines[k], k + 1) == Ok::<Draft, crate::config::ConfigErrorModel>(
        drafts[k + 1],
    )
}

proof fn lemma_step(drafts: Seq<Draft>, lines: Seq<Seq<char>>, k: int)
    requires
        apply_line(drafts[k], lines[k], k + 1) == Ok::<Draft, crate::config::ConfigErrorModel>(
            drafts[k + 1],
        ),
    ensures
        steps_to(drafts, lines, k),
{
    reveal(steps_to);
}

proof fn lemma_apply_steps(drafts: Seq<Draft>, lines: Seq<Seq<char>>, i: int)
    requires
        0 <= i <= lines.len(),
        forall|k: int| 0 <= k < lines.len() ==> #[trigger] steps_to(drafts, lines, k),
    ensures
        apply_lines(drafts[i], lines, i) == Ok::<Draft, crate::config::ConfigErrorModel>(
            drafts[lines.len() as int],
        ),
    decreases lines.len() - i,
{
    if i < lines.len() {
        assert(steps_to(drafts, lines, i));
        reveal(steps_to);
        lemma_apply_steps(drafts, lines, i + 1);
    }
}

proof fn lemma_interface_steps(
    private_key: Seq<char>,
    public_key: Seq<char>,
    endpoint: SocketModel,
)
    requires
        private_key.len() > 0,
        all_key_characters(private_key),
        key_spec(private_key) is Some,
        key_spec(public_key) is Some,
    ensures
        ({
            let drafts = export_drafts(private_key, public_key, endpoint);
            let lines = export_lines(private_key, public_key, endpoint);
            &&& drafts[0] == empty_draft()
            &&& steps_to(drafts, lines, 0)
            &&& steps_to(drafts, lines, 1)
            &&& steps_to(drafts, lines, 2)
            &&& steps_to(drafts, lines, 3)
            &&& steps_to(drafts, lines, 4)
        }),
{
    let drafts = export_drafts(private_key, public_key, endpoint);
    let lines = export_lines(private_key, public_key, endpoint);
    reveal(export_drafts);
    lemma_literal_parts();
    lemma_key_part(private_key);
    assert(steps_to(drafts, lines, 0)) by {
        lemma_header_lines(drafts[0], 1);
        lemma_step(drafts, lines, 0);
    }
    assert(steps_to(drafts, lines, 1)) by {
        lemma_export_pairs(drafts[1], private_key, public_key, endpoint);
        lemma_pair_line(drafts[1], "PrivateKey"@, private_key, 2);
        lemma_step(drafts, lines, 1);
    }
    assert(steps_to(drafts, lines, 2)) by {
        lemma_export_pairs(drafts[2], private_key, public_key, endpoint);
        lemma_pair_line(drafts[2], "Address"@, "10.5.0.2/32"@, 3);
        lemma_step(drafts, lines, 2);
    }
    assert(steps_to(drafts, lines, 3)) by {
        lemma_export_pairs(drafts[3], private_key, public_key, endpoint);
        lemma_pair_line(drafts[3], "DNS"@, "103.86.96.100,103.86.99.100"@, 4);
        assert(drafts[3].dns_servers + drafts[4].dns_servers =~= drafts[4].dns_servers);
        lemma_step(drafts, lines, 3);
    }
    assert(steps_to(drafts, lines, 4)) by {
        lemma_header_lines(drafts[4], 5);
        lemma_step(drafts, lines, 4);
    }
}

proof fn lemma_peer_steps(
    private_key: Seq<char>,
    public_key: Seq<char>,
    endpoint: SocketModel,
)
    requires
        public_key.len() > 0,
        all_key_characters(public_key),
        key_spec(private_key) is Some,
        key_spec(public_key) is Some,
    ensures
        ({
            let drafts = export_drafts(private_key, public_key, endpoint);
            let lines = export_lines(private_key, public_key, endpoint);
            &&& drafts[10].peers == 1
            &&& drafts[10].private_key == key_spec(private_key)
            &&& drafts[10].peer_public_key == key_spec(public_key)
            &&& drafts[10].preshared_key is None
            &&& drafts[10].endpoint == Some(SocketAddr::text_spec(endpoint))
            &&& drafts[10].address == Some((client_address(), 32int))
            &&& drafts[10].dns_servers == seq![
                IpModel::V4(export_dns().0),
                IpModel::V4(export_dns().1),
            ]
            &&& drafts[10].allowed_ips == seq![(Ipv4Addr { a: 0, b: 0, c: 0, d: 0 }, 0int)]
            &&& steps_to(drafts, lines, 5)
            &&& steps_to(drafts, lines, 6)
            &&& steps_to(drafts, lines, 7)
            &&& steps_to(drafts, lines, 8)
            &&& steps_to(drafts, lines, 9)
        }),
{
    let drafts = export_drafts(private_key, public_key, endpoint);
    let lines = export_lines(private_key, public_key, endpoint);
    reveal(export_drafts);
    lemma_literal_parts();
    lemma_key_part(public_key);
    lemma_endpoint_part(endpoint);
    assert(steps_to(drafts, lines, 5)) by {
        lemma_header_lines(drafts[5], 6);
        lemma_step(drafts, lines, 5);
    }
    assert(steps_to(drafts, lines, 6)) by {
        lemma_export_pairs(drafts[6], private_key, public_key, endpoint);
        lemma_pair_line(drafts[6], "PublicKey"@, public_key, 7);
        lemma_step(drafts, lines, 6);
    }
    assert(steps_to(drafts, lines, 7)) by {
        lemma_export_pairs(drafts[7], private_key, public_key, endpoint);
        lemma_pair_line(drafts[7], "AllowedIPs"@, "0.0.0.0/0"@, 8);
        assert(drafts[7].allowed_ips + drafts[8].allowed_ips =~= drafts[8].allowed_ips);
        lemma_step(drafts, lines, 7);
    }
    assert(steps_to(drafts, lines, 8)) by {
        lemma_export_pairs(drafts[8], private_key, public_key, endpoint);
        lemma_pair_line(drafts[8], "Endpoint"@, SocketAddr::text_spec(endpoint), 9);
        lemma_step(drafts, lines, 8);
    }
    assert(steps_to(drafts, lines, 9)) by {
        lemma_export_pairs(drafts[9], private_key, public_key, endpoint);
        lemma_pair_line(drafts[9], "PersistentKeepalive"@, "25"@, 10);
        lemma_step(drafts, lines, 9);
    }
}

/// The lines of an exported configuration.
spec fn export_lines(
    private_key: Seq<char>,
    public_key: Seq<char>,
    endpoint: SocketModel,
) -> Seq<Seq<char>> {
    seq![
        "[Interface]"@,
        "PrivateKey"@ + " = "@ + private_key,
        "Address"@ + " = "@ + "10.5.0.2/32"@,
        "DNS"@ + " = "@ + "103.86.96.100,103.86.99.100"@,
        Seq::empty(),
        "[Peer]"@,
        "PublicKey"@ + " = "@ + public_key,
        "AllowedIPs"@ + " = "@ + "0.0.0.0/0"@,
        "Endpoint"@ + " = "@ + SocketAddr::text_spec(endpoint),
        "PersistentKeepalive"@ + " = "@ + "25"@,
    ]
}

/// A text without certain characters stays so when others are put before it.
proof fn lemma_unbroken(name: Seq<char>, value: Seq<char>)
    requires
        !name.contains('\n'),
        !name.contains('\r'),
        !value.contains('\n'),
        !value.contains('\r'),
    ensures
        !(name + " = "@ + value).contains('\n'),
        !(name + " = "@ + value).contains('\r'),
{
    reveal_strlit(" = ");
    let s = name + " = "@ + value;
    assert(" = "@.len() == 3);
    assert forall|k: int| 0 <= k < s.len() implies s[k] != '\n' && s[k] != '\r' by {
        if k < name.len() {
            assert(name.contains(name[k]));
        } else if k >= name.len() + 3 {
            assert(s[k] == value[k - name.len() - 3]);
            assert(value.contains(value[k - name.len() - 3]));
        }
    }
}

proof fn lemma_literal_parts()
    ensures
        is_line_part("PrivateKey"@) && !"PrivateKey"@.contains('=') && "PrivateKey"@[0] != '[',
        is_line_part("Address"@) && !"Address"@.contains('=') && "Address"@[0] != '[',
        is_line_part("DNS"@) && !"DNS"@.contains('=') && "DNS"@[0] != '[',
        is_line_part("PublicKey"@) && !"PublicKey"@.contains('=') && "PublicKey"@[0] != '[',
        is_line_part("AllowedIPs"@) && !"AllowedIPs"@.contains('=') && "AllowedIPs"@[0] != '[',
        is_line_part("Endpoint"@) && !"Endpoint"@.contains('=') && "Endpoint"@[0] != '[',
        is_line_part("PersistentKeepalive"@) && !"PersistentKeepalive"@.contains('=')
            && "PersistentKeepalive"@[0] != '[',
        is_line_part("10.5.0.2/32"@),
        is_line_part("103.86.96.100,103.86.99.100"@),
        is_line_part("0.0.0.0/0"@),
        is_line_part("25"@),
{
    reveal_strlit("PrivateKey");
    reveal_strlit("Address");
    reveal_strlit("DNS");
    reveal_strlit("PublicKey");
    reveal_strlit("AllowedIPs");
    reveal_strlit("Endpoint");
    reveal_strlit("PersistentKeepalive");
    reveal_strlit("10.5.0.2/32");
    reveal_strlit("103.86.96.100,103.86.99.100");
    reveal_strlit("0.0.0.0/0");
    reveal_strlit("25");
}

proof fn lemma_unbroken_literals()
    ensures
        forall|c: char|
            c == '\n' || c == '\r' ==> !#[trigger] "PrivateKey"@.contains(c) && !"Address"@.contains(
                c,
            ) && !"DNS"@.contains(c) && !"PublicKey"@.contains(c) && !"AllowedIPs"@.contains(c)
                && !"Endpoint"@.contains(c) && !"PersistentKeepalive"@.contains(c)
                && !"10.5.0.2/32"@.contains(c) && !"103.86.96.100,103.86.99.100"@.contains(c)
                && !"0.0.0.0/0"@.contains(c) && !"25"@.contains(c) && !"[Interface]"@.contains(c)
                && !"[Peer]"@.contains(c),
{
    reveal_strlit("PrivateKey");
    reveal_strlit("Address");
    reveal_strlit("DNS");
    reveal_strlit("PublicKey");
    reveal_strlit("AllowedIPs");
    reveal_strlit("Endpoint");
    reveal_strlit("PersistentKeepalive");
    reveal_strlit("10.5.0.2/32");
    reveal_strlit("103.86.96.100,103.86.99.100");
    reveal_strlit("0.0.0.0/0");
    reveal_strlit("25");
    reveal_strlit("[Interface]");
    reveal_strlit("[Peer]");
}

proof fn lemma_export_literals()
    ensures
        "[Interface]\nPrivateKey = "@ == "[Interface]"@ + seq!['\n'] + "PrivateKey"@ + " = "@,
        "\nAddress = 10.5.0.2/32\nDNS = 103.86.96.100,103.86.99.100\n\n[Peer]\nPublicKey = "@
            == seq!['\n'] + "Address"@ + " = "@ + "10.5.0.2/32"@ + seq!['\n'] + "DNS"@ + " = "@
            + "103.86.96.100,103.86.99.100"@ + seq!['\n'] + seq!['\n'] + "[Peer]"@ + seq!['\n']
            + "PublicKey"@ + " = "@,
        "\nAllowedIPs = 0.0.0.0/0\nEndpoint = "@ == seq!['\n'] + "AllowedIPs"@ + " = "@
            + "0.0.0.0/0"@ + seq!['\n'] + "Endpoint"@ + " = "@,
        "\nPersistentKeepalive = 25\n"@ == seq!['\n'] + "PersistentKeepalive"@ + " = "@ + "25"@
            + seq!['\n'],
{
    reveal_strlit("PrivateKey");
    reveal_strlit("Address");
    reveal_strlit("DNS");
    reveal_strlit("PublicKey");
    reveal_strlit("AllowedIPs");
    reveal_strlit("Endpoint");
    reveal_strlit("PersistentKeepalive");
    reveal_strlit("10.5.0.2/32");
    reveal_strlit("103.86.96.100,103.86.99.100");
    reveal_strlit("0.0.0.0/0");
    reveal_strlit("25");
    reveal_strlit("[Interface]");
    reveal_strlit("[Peer]");
    reveal_strlit(" = ");
    reveal_strlit("[Interface]\nPrivateKey = ");
    reveal_strlit(
        "\nAddress = 10.5.0.2/32\nDNS = 103.86.96.100,103.86.99.100\n\n[Peer]\nPublicKey = ",
    );
    reveal_strlit("\nAllowedIPs = 0.0.0.0/0\nEndpoint = ");
    reveal_strlit("\nPersistentKeepalive = 25\n");
    assert("[Interface]\nPrivateKey = "@ =~= "[Interface]"@ + seq!['\n'] + "PrivateKey"@ + " = "@);
    assert("\nAddress = 10.5.0.2/32\nDNS = 103.86.96.100,103.86.99.100\n\n[Peer]\nPublicKey = "@
        =~= seq!['\n'] + "Address"@ + " = "@ + "10.5.0.2/32"@ + seq!['\n'] + "DNS"@ + " = "@
        + "103.86.96.100,103.86.99.100"@ + seq!['\n'] + seq!['\n'] + "[Peer]"@ + seq!['\n']
        + "PublicKey"@ + " = "@);
    assert("\nAllowedIPs = 0.0.0.0/0\nEndpoint = "@ =~= seq!['\n'] + "AllowedIPs"@ + " = "@
        + "0.0.0.0/0"@ + seq!['\n'] + "Endpoint"@ + " = "@);
    assert("\nPersistentKeepalive = 25\n"@ =~= seq!['\n'] + "PersistentKeepalive"@ + " = "@ + "25"@
        + seq!['\n']);
}

/// The lines of the text from position `i` on.
spec fn text_of_lines(lines: Seq<Seq<char>>, i: int) -> Seq<char>
    decreases lines.len() - i,
{
    if i >= lines.len() {
        Seq::empty()
    } else {
        lines[i] + seq!['\n'] + text_of_lines(lines, i + 1)
    }
}

proof fn lemma_text_of_lines(lines: Seq<Seq<char>>, i: int)
    requires
        0 <= i <= lines.len(),
        forall|k: int|
            0 <= k < lines.len() ==> !(#[trigger] lines[k]).contains('\n') && !lines[k].contains(
                '\r',
            ),
    ensures
        lines_spec(text_of_lines(lines, i)) == lines.skip(i),
    decreases lines.len() - i,
{
    if i < lines.len() {
        lemma_text_of_lines(lines, i + 1);
        lemma_first_line(lines[i], text_of_lines(lines, i + 1));
        assert(lines.skip(i) =~= seq![lines[i]] + lines.skip(i + 1));
    } else {
        assert(lines.skip(i) =~= Seq::empty());
    }
}

proof fn lemma_export_lines(
    private_key: Seq<char>,
    public_key: Seq<char>,
    endpoint: SocketModel,
)
    requires
        private_key.len() > 0,
        public_key.len() > 0,
        all_key_characters(private_key),
        all_key_characters(public_key),
    ensures
        lines_spec(export_text_spec(private_key, public_key, endpoint)) == export_lines(
            private_key,
            public_key,
            endpoint,
        ),
{
    let lines = export_lines(private_key, public_key, endpoint);
    lemma_export_literals();
    lemma_unbroken_literals();
    lemma_key_part(private_key);
    lemma_key_part(public_key);
    lemma_endpoint_part(endpoint);
    assert(!"PrivateKey"@.contains('\n') && !"PrivateKey"@.contains('\r'));
    lemma_unbroken("PrivateKey"@, private_key);
    lemma_unbroken("Address"@, "10.5.0.2/32"@);
    lemma_unbroken("DNS"@, "103.86.96.100,103.86.99.100"@);
    lemma_unbroken("PublicKey"@, public_key);
    lemma_unbroken("AllowedIPs"@, "0.0.0.0/0"@);
    lemma_unbroken("Endpoint"@, SocketAddr::text_spec(endpoint));
    lemma_unbroken("PersistentKeepalive"@, "25"@);
    assert forall|k: int| 0 <= k < lines.len() implies !(#[trigger] lines[k]).contains('\n')
        && !lines[k].contains('\r') by {
        assert(k == 0 || k == 1 || k == 2 || k == 3 || k == 4 || k == 5 || k == 6 || k == 7 || k
            == 8 || k == 9);
    }
    lemma_text_of_lines(lines, 0);
    assert(lines.skip(0) =~= lines);
    lemma_export_joined(private_key, public_key, endpoint);
}

/// Regrouping of texts put one behind the other.
proof fn lemma_regroup(a: Seq<char>, b: Seq<char>, c: Seq<char>)
    ensures
        (a + b) + c == a + (b + c),
{
    assert((a + b) + c =~= a + (b + c));
}

proof fn lemma_join_pair(front: Seq<char>, name: Seq<char>, value: Seq<char>, rest: Seq<char>)
    ensures
        (front + seq!['\n'] + name + " = "@) + value + (seq!['\n'] + rest) == front + (seq!['\n']
            + ((name + " = "@ + value) + seq!['\n'] + rest)),
{
    assert((front + seq!['\n'] + name + " = "@) + value + (seq!['\n'] + rest) =~= front + (
    seq!['\n'] + ((name + " = "@ + value) + seq!['\n'] + rest)));
}

proof fn lemma_join_line(name: Seq<char>, value: Seq<char>, rest: Seq<char>)
    ensures
        (seq!['\n'] + name + " = "@ + value) + (seq!['\n'] + rest) == seq!['\n'] + ((name + " = "@
            + value) + seq!['\n'] + rest),
{
    assert((seq!['\n'] + name + " = "@ + value) + (seq!['\n'] + rest) =~= seq!['\n'] + ((name
        + " = "@ + value) + seq!['\n'] + rest));
}

/// The exported text is its lines, one behind the other.
proof fn lemma_export_joined(
    private_key: Seq<char>,
    public_key: Seq<char>,
    endpoint: SocketModel,
)
    ensures
        text_of_lines(export_lines(private_key, public_key, endpoint), 0) == export_text_spec(
            private_key,
            public_key,
            endpoint,
        ),
{
    let lines = export_lines(private_key, public_key, endpoint);
    let end = seq!['\n'];
    let e = SocketAddr::text_spec(endpoint);
    let l1 = "[Interface]\nPrivateKey = "@;
    let l2 =
        "\nAddress = 10.5.0.2/32\nDNS = 103.86.96.100,103.86.99.100\n\n[Peer]\nPublicKey = "@;
    let l3 = "\nAllowedIPs = 0.0.0.0/0\nEndpoint = "@;
    let l4 = "\nPersistentKeepalive = 25\n"@;
    lemma_export_literals();
    let t10 = text_of_lines(lines, 10);
    let t9 = text_of_lines(lines, 9);
    let t8 = text_of_lines(lines, 8);
    let t7 = text_of_lines(lines, 7);
    let t6 = text_of_lines(lines, 6);
    let t5 = text_of_lines(lines, 5);
    let t4 = text_of_lines(lines, 4);
    let t3 = text_of_lines(lines, 3);
    let t2 = text_of_lines(lines, 2);
    let t1 = text_of_lines(lines, 1);
    let t0 = text_of_lines(lines, 0);
    assert(t10 =~= Seq::empty());
    assert(t9 == lines[9] + end + t10);
    assert(t8 == lines[8] + end + t9);
    assert(t7 == lines[7] + end + t8);
    assert(t6 == lines[6] + end + t7);
    assert(t5 == lines[5] + end + t6);
    assert(t4 == lines[4] + end + t5);
    assert(t3 == lines[3] + end + t4);
    assert(t2 == lines[2] + end + t3);
    assert(t1 == lines[1] + end + t2);
    assert(t0 == lines[0] + end + t1);
    assert(l4 == end + t9) by {
        assert(end + t10 =~= end);
        lemma_join_line("PersistentKeepalive"@, "25"@, t10);
    }
    assert(l3 + e + l4 == end + t7) by {
        let front = end + "AllowedIPs"@ + " = "@ + "0.0.0.0/0"@;
        assert(l3 == front + end + "Endpoint"@ + " = "@);
        lemma_join_pair(front, "Endpoint"@, e, t9);
        lemma_join_line("AllowedIPs"@, "0.0.0.0/0"@, t8);
    }
    assert(l2 + public_key + (end + t7) == end + t2) by {
        let dns = end + "DNS"@ + " = "@ + "103.86.96.100,103.86.99.100"@;
        let address = end + "Address"@ + " = "@ + "10.5.0.2/32"@;
        let front = end + "Address"@ + " = "@ + "10.5.0.2/32"@ + end + "DNS"@ + " = "@
            + "103.86.96.100,103.86.99.100"@ + end + end + "[Peer]"@;
        assert(l2 == front + end + "PublicKey"@ + " = "@);
        lemma_join_pair(front, "PublicKey"@, public_key, t7);
        assert(l2 + public_key + (end + t7) == front + (end + t6));
        assert(front =~= address + (dns + (end + (end + "[Peer]"@))));
        lemma_regroup(address, dns + (end + (end + "[Peer]"@)), end + t6);
        lemma_regroup(dns, end + (end + "[Peer]"@), end + t6);
        lemma_regroup(end, end + "[Peer]"@, end + t6);
        lemma_regroup(end, "[Peer]"@, end + t6);
        lemma_regroup("[Peer]"@, end, t6);
        assert(t5 == "[Peer]"@ + (end + t6));
        assert(t4 =~= end + t5);
        assert(front + (end + t6) == address + (dns + (end + t4)));
        lemma_join_line("DNS"@, "103.86.96.100,103.86.99.100"@, t4);
        lemma_join_line("Address"@, "10.5.0.2/32"@, t3);
    }
    assert(l1 + private_key + (end + t2) == t0) by {
        lemma_join_pair("[Interface]"@, "PrivateKey"@, private_key, t2);
        lemma_regroup("[Interface]"@, end, t1);
    }
    lemma_regroup(l1 + private_key + l2 + public_key, l3 + e, l4);
    lemma_regroup(l1 + private_key + l2 + public_key, l3, e);
    lemma_regroup(l1 + private_key, l2, public_key);
    lemma_regroup(l1 + private_key, l2 + public_key, l3 + e + l4);
}

} // verus!
