//! Export directories: how they are resolved, checked and created, and how the paths of written
//! files are shown. Names of path components are bytes.
use crate::export::{CreateOutcome, ExportError, ExportErrorModel};
use crate::text::{chars_of, same_text, split, split_spec, trim, trim_spec, views};
use vstd::prelude::*;
use vstd::string::*;

verus! {

/// What stands at a path.
#[derive(Clone, Copy, Debug, PartialEq, Eq, Structural)]
pub enum EntryKind {
    Symlink,
    Directory,
    Other,
}

/// What is known of a path.
#[derive(Debug)]
pub enum Inspection {
    Found(EntryKind),
    Missing,
    Failed(String),
}

/// What follows from one part of a path.
#[derive(Debug)]
pub enum ComponentStep {
    /// The next part is to be inspected.
    Continue,
    /// Nothing more is there to inspect.
    Stop,
    /// The path is refused.
    Refused(ExportError),
}

/// Judges one part of a path, up to which the path reads as given: no part may be a symbolic link,
/// and behind the first that is missing there is nothing.
pub fn reject_symlink_component(path: &str, found: Inspection) -> (r: ComponentStep)
    ensures
        match found {
            Inspection::Found(EntryKind::Symlink) => r matches ComponentStep::Refused(error) && error@
                == ExportErrorModel::SymlinkDirectory(path@),
            Inspection::Found(_) => r is Continue,
            Inspection::Missing => r is Stop,
            Inspection::Failed(source) => r matches ComponentStep::Refused(error) && error@
                == (ExportErrorModel::Directory { path: path@, source: source@ }),
        },
{
    match found {
        Inspection::Found(EntryKind::Symlink) => ComponentStep::Refused(
            ExportError::SymlinkDirectory(path.to_string()),
        ),
        Inspection::Found(_) => ComponentStep::Continue,
        Inspection::Missing => ComponentStep::Stop,
        Inspection::Failed(source) => ComponentStep::Refused(
            ExportError::Directory { path: path.to_string(), source },
        ),
    }
}

/// The permissions that a new directory gets, where the system knows them: for its owner alone.
pub fn restrict_directory(unix: bool) -> (r: Option<u32>)
    ensures
        r == if unix {
            Some(448u32)
        } else {
            None
        },
{
    if unix {
        Some(0o700)
    } else {
        None
    }
}

/// The permissions that a new file with a key gets, where the system knows them: for its owner
/// alone, and not to be executed.
pub fn restrict_file(unix: bool) -> (r: Option<u32>)
    ensures
        r == if unix {
            Some(384u32)
        } else {
            None
        },
{
    if unix {
        Some(0o600)
    } else {
        None
    }
}

/// What the setup of a directory needs next.
#[derive(Clone, Copy, Debug, PartialEq, Eq, Structural)]
pub enum SetupStep {
    /// All parts of the path judged.
    RejectSymlinks,
    /// The path inspected.
    Inspect,
    /// The directories above it created.
    CreateParents,
    /// All parts of the path above it judged.
    RejectParentSymlinks,
    /// The directory created.
    Create,
    /// The path inspected once more.
    Recheck,
    /// The permissions of the new directory restricted.
    Restrict,
    /// Nothing: the directory is there.
    Done,
}

/// What came of a step of the setup.
#[derive(Debug)]
pub enum SetupOutcome {
    Judged(Result<(), ExportError>),
    Inspected(Inspection),
    Created(CreateOutcome),
    Changed(Result<(), String>),
}

/// The setup of a directory: its path, the path above it, and whether it was created.
#[derive(Debug)]
pub struct DirectorySetup {
    path: String,
    parent: Option<String>,
    created: bool,
    step: SetupStep,
}

impl DirectorySetup {
    pub closed spec fn path_spec(self) -> Seq<char> {
        self.path@
    }

    pub closed spec fn parent_spec(self) -> Option<Seq<char>> {
        match self.parent {
            Some(parent) => Some(parent@),
            None => None,
        }
    }

    pub closed spec fn created_spec(self) -> bool {
        self.created
    }

    pub closed spec fn step_spec(self) -> SetupStep {
        self.step
    }

    /// Whether the outcome is one of the step. A path that is missing when it is inspected once
    /// more could not be inspected.
    pub open spec fn expects(step: SetupStep, outcome: SetupOutcome) -> bool {
        match step {
            SetupStep::RejectSymlinks => outcome is Judged,
            SetupStep::Inspect => outcome is Inspected,
            SetupStep::CreateParents => outcome is Changed,
            SetupStep::RejectParentSymlinks => outcome is Judged,
            SetupStep::Create => outcome is Created,
            SetupStep::Recheck => outcome matches SetupOutcome::Inspected(found) && !(found
                is Missing),
            SetupStep::Restrict => outcome is Changed,
            SetupStep::Done => false,
        }
    }

    /// The next step after an outcome, and whether the directory was created by now; or the error.
    pub open spec fn next_step(
        path: Seq<char>,
        parent: Option<Seq<char>>,
        created: bool,
        step: SetupStep,
        outcome: SetupOutcome,
    ) -> Result<(SetupStep, bool), ExportErrorModel> {
        match (step, outcome) {
            (SetupStep::RejectSymlinks, SetupOutcome::Judged(Ok(_))) => Ok(
                (SetupStep::Inspect, created),
            ),
            (SetupStep::RejectParentSymlinks, SetupOutcome::Judged(Ok(_))) => Ok(
                (SetupStep::Create, created),
            ),
            (_, SetupOutcome::Judged(Err(error))) => Err(error@),
            (_, SetupOutcome::Inspected(Inspection::Found(EntryKind::Symlink))) => Err(
                ExportErrorModel::SymlinkDirectory(path),
            ),
            (_, SetupOutcome::Inspected(Inspection::Failed(source))) => Err(
                ExportErrorModel::Directory { path, source: source@ },
            ),
            (SetupStep::Inspect, SetupOutcome::Inspected(Inspection::Found(_))) => Ok(
                (SetupStep::Recheck, created),
            ),
            (SetupStep::Inspect, SetupOutcome::Inspected(Inspection::Missing)) => Ok(
                (
                    if parent is Some {
                        SetupStep::CreateParents
                    } else {
                        SetupStep::Create
                    },
                    created,
                ),
            ),
            (SetupStep::CreateParents, SetupOutcome::Changed(Ok(_))) => Ok(
                (SetupStep::RejectParentSymlinks, created),
            ),
            (SetupStep::CreateParents, SetupOutcome::Changed(Err(source))) => Err(
                ExportErrorModel::Directory { path: parent.unwrap(), source: source@ },
            ),
            (_, SetupOutcome::Created(CreateOutcome::Created)) => Ok((SetupStep::Recheck, true)),
            (_, SetupOutcome::Created(CreateOutcome::AlreadyExists)) => Ok(
                (SetupStep::Recheck, created),
            ),
            (_, SetupOutcome::Created(CreateOutcome::Failed(source))) => Err(
                ExportErrorModel::Directory { path, source: source@ },
            ),
            (SetupStep::Recheck, SetupOutcome::Inspected(Inspection::Found(EntryKind::Directory))) => {
                Ok(
                    (
                        if created {
                            SetupStep::Restrict
                        } else {
                            SetupStep::Done
                        },
                        created,
                    ),
                )
            },
            (SetupStep::Recheck, SetupOutcome::Inspected(Inspection::Found(EntryKind::Other))) => Err(
                ExportErrorModel::Directory {
                    path,
                    source: "export path is not a directory"@,
                },
            ),
            (_, SetupOutcome::Changed(Ok(_))) => Ok((SetupStep::Done, created)),
            (_, SetupOutcome::Changed(Err(source))) => Err(
                ExportErrorModel::Directory { path, source: source@ },
            ),
            _ => Ok((step, created)),
        }
    }

    /// The setup of the directory at a path, with the path above it if there is one.
    pub fn new(path: &str, parent: Option<&str>) -> (r: DirectorySetup)
        ensures
            r.path_spec() == path@,
            r.parent_spec() == (match parent {
                Some(parent) => Some(parent@),
                None => None,
            }),
            !r.created_spec(),
            r.step_spec() == SetupStep::RejectSymlinks,
    {
        DirectorySetup {
            path: path.to_string(),
            parent: match parent {
                Some(parent) => Some(parent.to_string()),
                None => None,
            },
            created: false,
            step: SetupStep::RejectSymlinks,
        }
    }

    /// What is needed next.
    pub fn step(&self) -> (r: SetupStep)
        ensures
            r == self.step_spec(),
    {
        self.step
    }

    fn refused(&self, source: String) -> (r: ExportError)
        ensures
            r@ == (ExportErrorModel::Directory { path: self.path_spec(), source: source@ }),
    {
        ExportError::Directory { path: self.path.clone(), source }
    }

    /// Takes what came of the step that was needed.
    pub fn advance(&mut self, outcome: SetupOutcome) -> (r: Result<(), ExportError>)
        requires
            DirectorySetup::expects(old(self).step_spec(), outcome),
            old(self).step_spec() == SetupStep::CreateParents ==> old(self).parent_spec() is Some,
        ensures
            final(self).path_spec() == old(self).path_spec(),
            final(self).parent_spec() == old(self).parent_spec(),
            match r {
                Ok(_) => DirectorySetup::next_step(
                    old(self).path_spec(),
                    old(self).parent_spec(),
                    old(self).created_spec(),
                    old(self).step_spec(),
                    outcome,
                ) == Ok::<(SetupStep, bool), ExportErrorModel>(
                    (final(self).step_spec(), final(self).created_spec()),
                ),
                Err(error) => DirectorySetup::next_step(
                    old(self).path_spec(),
                    old(self).parent_spec(),
                    old(self).created_spec(),
                    old(self).step_spec(),
                    outcome,
                ) == Err::<(SetupStep, bool), ExportErrorModel>(error@),
            },
    {
        match outcome {
            SetupOutcome::Judged(Ok(())) => {
                self.step = if self.step == SetupStep::RejectSymlinks {
                    SetupStep::Inspect
                } else {
                    SetupStep::Create
                };
            },
            SetupOutcome::Judged(Err(error)) => {
                return Err(error);
            },
            SetupOutcome::Inspected(Inspection::Found(EntryKind::Symlink)) => {
                return Err(ExportError::SymlinkDirectory(self.path.clone()));
            },
            SetupOutcome::Inspected(Inspection::Failed(source)) => {
                return Err(self.refused(source));
            },
            SetupOutcome::Inspected(Inspection::Missing) => {
                self.step = if self.parent.is_some() {
                    SetupStep::CreateParents
                } else {
                    SetupStep::Create
                };
            },
            SetupOutcome::Inspected(Inspection::Found(kind)) => {
                if self.step == SetupStep::Inspect {
                    self.step = SetupStep::Recheck;
                } else if kind == EntryKind::Directory {
                    self.step = if self.created {
                        SetupStep::Restrict
                    } else {
                        SetupStep::Done
                    };
                } else {
                    return Err(self.refused("export path is not a directory".to_string()));
                }
            },
            SetupOutcome::Created(CreateOutcome::Created) => {
                self.created = true;
                self.step = SetupStep::Recheck;
            },
            SetupOutcome::Created(CreateOutcome::AlreadyExists) => {
                self.step = SetupStep::Recheck;
            },
            SetupOutcome::Created(CreateOutcome::Failed(source)) => {
                return Err(self.refused(source));
            },
            SetupOutcome::Changed(Ok(())) => {
                self.step = if self.step == SetupStep::CreateParents {
                    SetupStep::RejectParentSymlinks
                } else {
                    SetupStep::Done
                };
            },
            SetupOutcome::Changed(Err(source)) => {
                if self.step == SetupStep::CreateParents {
                    if let Some(parent) = &self.parent {
                        return Err(ExportError::Directory { path: parent.clone(), source });
                    }
                }
                return Err(self.refused(source));
            },
        }
        Ok(())
    }
}

/// Permissions are only changed on a directory that the setup has created itself, and only a path
/// that was found to be a directory, and no symbolic link, is accepted.
pub proof fn existing_directory_is_left_alone(
    path: Seq<char>,
    parent: Option<Seq<char>>,
    created: bool,
    step: SetupStep,
    outcome: SetupOutcome,
)
    requires
        DirectorySetup::expects(step, outcome),
    ensures
        DirectorySetup::next_step(path, parent, created, step, outcome) matches Ok((next, made))
            ==> {
            &&& (next == SetupStep::Restrict ==> created)
            &&& (made && !created ==> outcome is Created && outcome->Created_0 is Created)
            &&& (next == SetupStep::Done ==> step == SetupStep::Restrict || outcome
                == SetupOutcome::Inspected(Inspection::Found(EntryKind::Directory)))
        },
{
}

/// A directory is set up step by step: one that exists is left as it is, one that is missing is created
/// behind its parents and closed to others, and a symbolic link or another file is refused at every
/// look.
pub proof fn directory_is_set_up(path: Seq<char>, parent: Option<Seq<char>>, created: bool)
    ensures
        ({
            let found = SetupOutcome::Inspected(Inspection::Found(EntryKind::Directory));
            let linked = SetupOutcome::Inspected(Inspection::Found(EntryKind::Symlink));
            let other = SetupOutcome::Inspected(Inspection::Found(EntryKind::Other));
            let missing = SetupOutcome::Inspected(Inspection::Missing);
            let fine = SetupOutcome::Judged(Ok(()));
            let changed = SetupOutcome::Changed(Ok(()));
            let made = SetupOutcome::Created(CreateOutcome::Created);
            let raced = SetupOutcome::Created(CreateOutcome::AlreadyExists);
            let after = |step: SetupStep, outcome: SetupOutcome|
                DirectorySetup::next_step(path, parent, created, step, outcome);
            &&& after(SetupStep::RejectSymlinks, fine) matches Ok((SetupStep::Inspect, c)) && c
                == created
            &&& after(SetupStep::Inspect, found) matches Ok((SetupStep::Recheck, c)) && c == created
            &&& parent is Some ==> (after(SetupStep::Inspect, missing) matches Ok(
                (SetupStep::CreateParents, c),
            ) && c == created)
            &&& parent is None ==> (after(SetupStep::Inspect, missing) matches Ok(
                (SetupStep::Create, c),
            ) && c == created)
            &&& after(SetupStep::CreateParents, changed) matches Ok(
                (SetupStep::RejectParentSymlinks, c),
            ) && c == created
            &&& after(SetupStep::RejectParentSymlinks, fine) matches Ok((SetupStep::Create, c)) && c
                == created
            &&& after(SetupStep::Create, made) matches Ok((SetupStep::Recheck, c)) && c
            &&& after(SetupStep::Create, raced) matches Ok((SetupStep::Recheck, c)) && c == created
            &&& created ==> (after(SetupStep::Recheck, found) matches Ok((SetupStep::Restrict, c))
                && c)
            &&& !created ==> (after(SetupStep::Recheck, found) matches Ok((SetupStep::Done, c)) && !c)
            &&& after(SetupStep::Restrict, changed) matches Ok((SetupStep::Done, c)) && c == created
            &&& after(SetupStep::Inspect, linked) == Err::<(SetupStep, bool), ExportErrorModel>(
                ExportErrorModel::SymlinkDirectory(path),
            )
            &&& after(SetupStep::Recheck, linked) == Err::<(SetupStep, bool), ExportErrorModel>(
                ExportErrorModel::SymlinkDirectory(path),
            )
            &&& after(SetupStep::Recheck, other) is Err
        }),
{
}

/// A part of a path.
#[derive(Debug, PartialEq, Eq)]
pub enum PathPart {
    /// The root, or what stands for it.
    Root,
    /// The directory itself.
    Current,
    /// The directory above.
    Parent,
    /// A name.
    Name(Vec<u8>),
}

/// What the resolution of a path needs for a part.
#[derive(Debug, PartialEq, Eq)]
pub enum PartStep {
    /// The part appended to what is resolved.
    Append,
    /// Nothing.
    Skip,
    /// To find out whether what is resolved is a directory; its last part is then removed.
    Leave,
    /// The name looked up in what is resolved.
    LookUp,
}

/// What came of looking a name up.
#[derive(Debug)]
pub enum LookUp {
    /// It exists, and what is resolved is now its canonical path.
    Resolved,
    /// It does not exist.
    Missing,
    /// It could not be told.
    Failed(String),
}

/// The resolution of a path that may not exist in full: the names behind what is resolved.
#[derive(Debug)]
pub struct PathResolution {
    missing: Vec<Vec<u8>>,
}

impl View for PathResolution {
    type V = Seq<Seq<u8>>;

    closed spec fn view(&self) -> Seq<Seq<u8>> {
        name_views(self.missing@)
    }
}

/// The names as byte sequences.
pub open spec fn name_views(names: Seq<Vec<u8>>) -> Seq<Seq<u8>> {
    Seq::new(names.len(), |i: int| names[i]@)
}

impl PathResolution {
    pub fn new() -> (r: PathResolution)
        ensures
            r@ == Seq::<Seq<u8>>::empty(),
    {
        let resolution = PathResolution { missing: Vec::new() };
        assert(resolution@ =~= Seq::empty());
        resolution
    }

    /// Takes a part of the path. A name behind one that does not exist does not exist either; a
    /// step up takes the last of these back, or leaves what is resolved.
    pub fn next_part(&mut self, part: &PathPart) -> (r: PartStep)
        ensures
            match *part {
                PathPart::Root => r == PartStep::Append && final(self)@ == old(self)@,
                PathPart::Current => r == PartStep::Skip && final(self)@ == old(self)@,
                PathPart::Parent => if old(self)@.len() > 0 {
                    r == PartStep::Skip && final(self)@ == old(self)@.drop_last()
                } else {
                    r == PartStep::Leave && final(self)@ == old(self)@
                },
                PathPart::Name(name) => if old(self)@.len() > 0 {
                    r == PartStep::Skip && final(self)@ == old(self)@.push(name@)
                } else {
                    r == PartStep::LookUp && final(self)@ == old(self)@
                },
            },
    {
        match part {
            PathPart::Root => PartStep::Append,
            PathPart::Current => PartStep::Skip,
            PathPart::Parent => {
                if self.missing.len() > 0 {
                    let ghost before = self@;
                    self.missing.pop();
                    assert(self@ =~= before.drop_last());
                    PartStep::Skip
                } else {
                    PartStep::Leave
                }
            },
            PathPart::Name(name) => {
                if self.missing.len() > 0 {
                    self.add_missing(name);
                    PartStep::Skip
                } else {
                    PartStep::LookUp
                }
            },
        }
    }

    fn add_missing(&mut self, name: &Vec<u8>)
        ensures
            final(self)@ == old(self)@.push(name@),
    {
        let ghost before = self@;
        let mut copy: Vec<u8> = Vec::new();
        let mut i: usize = 0;
        assert(copy@ =~= name@.take(0));
        while i < name.len()
            invariant
                i <= name@.len(),
                copy@ == name@.take(i as int),
            decreases name@.len() - i,
        {
            copy.push(name[i]);
            assert(name@.take(i + 1) =~= name@.take(i as int).push(name@[i as int]));
            i = i + 1;
        }
        assert(name@.take(i as int) =~= name@);
        self.missing.push(copy);
        assert(self@ =~= before.push(name@));
    }

    /// Takes what came of looking a name up, in the resolution of the path that reads as given.
    pub fn looked_up(&mut self, name: &Vec<u8>, outcome: LookUp, path: &str) -> (r: Result<(), String>)
        ensures
            match outcome {
                LookUp::Resolved => r is Ok && final(self)@ == old(self)@,
                LookUp::Missing => r is Ok && final(self)@ == old(self)@.push(name@),
                LookUp::Failed(error) => r matches Err(message) && message@
                    == "could not resolve export directory "@ + path@ + ": "@ + error@,
            },
    {
        match outcome {
            LookUp::Resolved => Ok(()),
            LookUp::Missing => {
                self.add_missing(name);
                Ok(())
            },
            LookUp::Failed(error) => {
                let mut message = "could not resolve export directory ".to_string();
                message.append(path);
                message.append(": ");
                message.append(error.as_str());
                Err(message)
            },
        }
    }

    /// Takes whether what is resolved is a directory, before it is left for the one above it.
    pub fn left(&self, is_directory: bool, path: &str) -> (r: Result<(), String>)
        ensures
            match r {
                Ok(_) => is_directory,
                Err(message) => !is_directory && message@ == "could not resolve export directory "@
                    + path@ + ": parent component follows a non-directory"@,
            },
    {
        if is_directory {
            return Ok(());
        }
        let mut message = "could not resolve export directory ".to_string();
        message.append(path);
        message.append(": parent component follows a non-directory");
        Err(message)
    }

    /// The names that are to be appended to what is resolved.
    pub fn missing(&self) -> (r: &Vec<Vec<u8>>)
        ensures
            name_views(r@) == self@,
    {
        &self.missing
    }
}

/// Checks what the user enters as the export directory: it must not be empty.
pub fn resolve_export_directory(value: &str) -> (r: Result<&str, String>)
    ensures
        match r {
            Ok(path) => path@ == trim_spec(value@) && path@.len() > 0,
            Err(message) => trim_spec(value@).len() == 0 && message@ == "Enter an export directory"@,
        },
{
    let value = trim(value);
    if value.is_empty() {
        return Err("Enter an export directory".to_string());
    }
    Ok(value)
}

/// Checks what stands at the resolved path, if anything does: it must be a directory.
pub fn check_export_directory(path: &str, found: Option<EntryKind>) -> (r: Result<(), String>)
    ensures
        match r {
            Ok(_) => found is None || found == Some(EntryKind::Directory),
            Err(message) => found is Some && found != Some(EntryKind::Directory) && message@
                == "export path "@ + path@ + " exists and is not a directory"@,
        },
{
    match found {
        Some(EntryKind::Symlink) | Some(EntryKind::Other) => {
            let mut message = "export path ".to_string();
            message.append(path);
            message.append(" exists and is not a directory");
            Err(message)
        },
        _ => Ok(()),
    }
}

/// The path of a file in a directory, written with slashes.
pub open spec fn join_path_spec(directory: Seq<char>, name: Seq<char>) -> Seq<char> {
    if directory.len() == 0 || directory.last() == '/' {
        directory + name
    } else {
        directory + "/"@ + name
    }
}

/// The path of a file in a directory, written with slashes.
pub fn join_path(directory: &str, name: &str) -> (r: String)
    ensures
        r@ == join_path_spec(directory@, name@),
{
    let chars = chars_of(directory);
    let mut r = directory.to_string();
    if chars.len() > 0 && chars[chars.len() - 1] != '/' {
        r.append("/");
    }
    r.append(name);
    r
}

/// The name that a path with the given parts ends with, if it does: empty parts and single dots do
/// not count, and two dots are no name.
pub open spec fn last_name(parts: Seq<Seq<char>>) -> Option<Seq<char>>
    decreases parts.len(),
{
    if parts.len() == 0 {
        None
    } else if parts.last().len() == 0 || parts.last() == "."@ {
        last_name(parts.drop_last())
    } else if parts.last() == ".."@ {
        None
    } else {
        Some(parts.last())
    }
}

/// The name of the file that a path leads to, if it ends with one.
pub open spec fn file_name_spec(path: Seq<char>) -> Option<Seq<char>> {
    last_name(split_spec(path, '/'))
}

/// The name of the file that a path leads to, if it ends with one.
pub fn file_name(path: &str) -> (r: Option<&str>)
    ensures
        file_name_spec(path@) == (match r {
            Some(name) => Some(name@),
            None => None,
        }),
{
    let parts = split(path, '/');
    let ghost all = views(parts@);
    let mut n: usize = parts.len();
    assert(all.take(n as int) =~= all);
    while n > 0
        invariant
            all == views(parts@),
            all == split_spec(path@, '/'),
            n <= parts@.len(),
            last_name(all.take(n as int)) == last_name(all),
        decreases n,
    {
        let part = parts[n - 1];
        assert(all.take(n as int).last() == part@);
        assert(all.take(n as int).drop_last() =~= all.take(n - 1));
        if !part.is_empty() && !same_text(part, ".") {
            if same_text(part, "..") {
                return None;
            }
            return Some(part);
        }
        n = n - 1;
    }
    None
}

/// How the user sees the path of a written file, with slashes: as it was written where the directory
/// was given in full, and otherwise relative, as the directory was given.
pub open spec fn display_path_spec(input: Seq<char>, written: Seq<char>) -> Seq<char> {
    if input.len() > 0 && input[0] == '/' {
        written
    } else {
        match file_name_spec(written) {
            Some(name) => join_path_spec(input, name),
            None => input,
        }
    }
}

/// How the user sees the path of a written file, with slashes.
pub fn export_display_path(input: &str, written: &str) -> (r: String)
    ensures
        r@ == display_path_spec(input@, written@),
{
    let given = chars_of(input);
    if given.len() > 0 && given[0] == '/' {
        return written.to_string();
    }
    match file_name(written) {
        Some(name) => join_path(input, name),
        None => input.to_string(),
    }
}

/// The path of a written file.
#[derive(Debug)]
pub enum WrittenPath {
    /// On a system that writes paths with slashes.
    Slashes(String),
    /// On another system, with what the system says: whether the directory was given in full, and
    /// the file's name appended to the directory as it was given, if the path ends with a name.
    Native { path: String, in_full: bool, appended: Option<String> },
}

/// How the user sees the path of a written file: as it was written where the directory was given in
/// full, and otherwise relative, as the directory was given.
pub open spec fn shown_path_spec(input: Seq<char>, written: WrittenPath) -> Seq<char> {
    match written {
        WrittenPath::Slashes(path) => display_path_spec(input, path@),
        WrittenPath::Native { path, in_full, appended } => if in_full {
            path@
        } else {
            match appended {
                Some(shown) => shown@,
                None => input,
            }
        },
    }
}

/// How the user sees the path of a written file.
pub fn shown_path(input: &str, written: &WrittenPath) -> (r: String)
    ensures
        r@ == shown_path_spec(input@, *written),
{
    match written {
        WrittenPath::Slashes(path) => export_display_path(input, path.as_str()),
        WrittenPath::Native { path, in_full, appended } => if *in_full {
            path.clone()
        } else {
            match appended {
                Some(shown) => shown.clone(),
                None => input.to_string(),
            }
        },
    }
}

} // verus!
