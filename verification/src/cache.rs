//! How a stored inventory is replaced by a newer one without losing both.
use vstd::prelude::*;
use vstd::string::*;

verus! {

/// A step of the replacement. Three files take part: the cache, the new cache under a temporary
/// name, and the backup of the old one.
#[derive(Clone, Copy, Debug, PartialEq, Eq, Structural)]
pub enum SwapStep {
    /// Rename the temporary file to the cache.
    Install,
    /// Find out whether there is a cache file; no file is changed.
    Inspect,
    /// Rename the cache to the backup.
    Preserve,
    /// Rename the temporary file to the cache, which is now out of the way.
    Replace,
    /// Rename the backup to the cache.
    Restore,
    /// Remove the temporary file; the outcome does not matter.
    Discard,
    /// Remove the backup; the outcome does not matter.
    Forget,
    /// Nothing any more.
    Done,
}

/// A replacement in progress: the step that is due, and the errors so far.
#[derive(Debug)]
pub struct CacheSwap {
    step: SwapStep,
    path: String,
    backup: String,
    first_error: String,
    error: Option<String>,
}

/// A replacement in progress, as a mathematical value. The last field is the message of the
/// failure, once it is certain.
#[verifier::ext_equal]
pub struct SwapModel {
    pub step: SwapStep,
    pub path: Seq<char>,
    pub backup: Seq<char>,
    pub first_error: Seq<char>,
    pub error: Option<Seq<char>>,
}

impl View for CacheSwap {
    type V = SwapModel;

    closed spec fn view(&self) -> SwapModel {
        SwapModel {
            step: self.step,
            path: self.path@,
            backup: self.backup@,
            first_error: self.first_error@,
            error: match self.error {
                Some(error) => Some(error@),
                None => None,
            },
        }
    }
}

impl SwapModel {
    /// The replacement with another step due.
    pub open spec fn at(self, step: SwapStep) -> SwapModel {
        SwapModel { step, ..self }
    }

    /// The replacement that has failed: the temporary file is removed.
    pub open spec fn failed(self, message: Seq<char>) -> SwapModel {
        SwapModel { step: SwapStep::Discard, error: Some(message), ..self }
    }

    /// The replacement after the step that is due, which succeeded or failed with an error.
    pub open spec fn advance(self, outcome: Result<(), Seq<char>>) -> SwapModel {
        match (self.step, outcome) {
            (SwapStep::Install, Ok(_)) => self.at(SwapStep::Done),
            (SwapStep::Install, Err(error)) => SwapModel {
                step: SwapStep::Inspect,
                first_error: error,
                ..self
            },
            (SwapStep::Inspect, Ok(_)) => self.at(SwapStep::Preserve),
            (SwapStep::Inspect, Err(_)) => self.failed(
                "could not replace inventory cache "@ + self.path + ": "@ + self.first_error,
            ),
            (SwapStep::Preserve, Ok(_)) => self.at(SwapStep::Replace),
            (SwapStep::Preserve, Err(error)) => self.failed(
                "could not replace inventory cache "@ + self.path + ": "@ + self.first_error
                    + "; could not preserve the existing cache: "@ + error,
            ),
            (SwapStep::Replace, Ok(_)) => self.at(SwapStep::Forget),
            (SwapStep::Replace, Err(error)) => SwapModel {
                step: SwapStep::Restore,
                first_error: error,
                ..self
            },
            (SwapStep::Restore, Ok(_)) => self.failed(
                "could not install inventory cache "@ + self.path + ": "@ + self.first_error
                    + "; restored the previous cache"@,
            ),
            (SwapStep::Restore, Err(error)) => self.failed(
                "could not install inventory cache "@ + self.path + ": "@ + self.first_error
                    + "; the previous cache remains at "@ + self.backup
                    + " because restoration failed: "@ + error,
            ),
            (SwapStep::Discard, _) => self.at(SwapStep::Done),
            (SwapStep::Forget, _) => self.at(SwapStep::Done),
            (SwapStep::Done, _) => self,
        }
    }
}

impl CacheSwap {
    /// A replacement of the cache at `path`, with the name that the old one may get.
    pub fn new(path: &str, backup: &str) -> (r: CacheSwap)
        ensures
            r@ == (SwapModel {
                step: SwapStep::Install,
                path: path@,
                backup: backup@,
                first_error: Seq::empty(),
                error: None,
            }),
    {
        let swap = CacheSwap {
            step: SwapStep::Install,
            path: path.to_string(),
            backup: backup.to_string(),
            first_error: String::new(),
            error: None,
        };
        assert(swap@.first_error =~= Seq::empty());
        swap
    }

    /// The step that is due.
    pub fn step(&self) -> (r: SwapStep)
        ensures
            r == self@.step,
    {
        self.step
    }

    /// The result, once nothing is due.
    pub fn result(&self) -> (r: Result<(), String>)
        ensures
            match r {
                Ok(_) => self@.error is None,
                Err(message) => self@.error == Some(message@),
            },
    {
        match &self.error {
            Some(error) => Err(error.clone()),
            None => Ok(()),
        }
    }

    fn message(&self, text: &str) -> (r: String)
        ensures
            r@ == text@ + self@.path + ": "@ + self@.first_error,
    {
        let mut r = text.to_string();
        r.append(self.path.as_str());
        r.append(": ");
        r.append(self.first_error.as_str());
        r
    }

    fn fail(&mut self, message: String)
        ensures
            final(self)@ == old(self)@.failed(message@),
    {
        self.step = SwapStep::Discard;
        self.error = Some(message);
    }

    /// Takes the outcome of the step that is due.
    pub fn advance(&mut self, outcome: Result<(), String>)
        ensures
            final(self)@ == old(self)@.advance(
                match outcome {
                    Ok(_) => Ok(()),
                    Err(error) => Err(error@),
                },
            ),
    {
        match (self.step, outcome) {
            (SwapStep::Install, Ok(_)) => {
                self.step = SwapStep::Done;
            },
            (SwapStep::Install, Err(error)) => {
                self.first_error = error;
                self.step = SwapStep::Inspect;
            },
            (SwapStep::Inspect, Ok(_)) => {
                self.step = SwapStep::Preserve;
            },
            (SwapStep::Inspect, Err(_)) => {
                let message = self.message("could not replace inventory cache ");
                self.fail(message);
            },
            (SwapStep::Preserve, Ok(_)) => {
                self.step = SwapStep::Replace;
            },
            (SwapStep::Preserve, Err(error)) => {
                let mut message = self.message("could not replace inventory cache ");
                message.append("; could not preserve the existing cache: ");
                message.append(error.as_str());
                self.fail(message);
            },
            (SwapStep::Replace, Ok(_)) => {
                self.step = SwapStep::Forget;
            },
            (SwapStep::Replace, Err(error)) => {
                self.first_error = error;
                self.step = SwapStep::Restore;
            },
            (SwapStep::Restore, Ok(_)) => {
                let mut message = self.message("could not install inventory cache ");
                message.append("; restored the previous cache");
                self.fail(message);
            },
            (SwapStep::Restore, Err(error)) => {
                let mut message = self.message("could not install inventory cache ");
                message.append("; the previous cache remains at ");
                message.append(self.backup.as_str());
                message.append(" because restoration failed: ");
                message.append(error.as_str());
                self.fail(message);
            },
            (SwapStep::Discard, _) => {
                self.step = SwapStep::Done;
            },
            (SwapStep::Forget, _) => {
                self.step = SwapStep::Done;
            },
            (SwapStep::Done, _) => {},
        }
    }
}

/// What a file holds.
#[derive(PartialEq, Eq, Structural, Clone, Copy)]
pub enum Content {
    Missing,
    Previous,
    Newer,
}

/// What the three files hold.
#[verifier::ext_equal]
pub struct Files {
    pub cache: Content,
    pub temporary: Content,
    pub backup: Content,
}

/// What the files hold after a step. A rename that fails changes nothing; one that succeeds moves
/// the file. A removal may fail.
pub open spec fn after_step(files: Files, step: SwapStep, ok: bool) -> Files {
    if !ok {
        files
    } else {
        match step {
            SwapStep::Install | SwapStep::Replace => Files {
                cache: files.temporary,
                temporary: Content::Missing,
                ..files
            },
            SwapStep::Preserve => Files {
                cache: Content::Missing,
                backup: files.cache,
                ..files
            },
            SwapStep::Restore => Files {
                cache: files.backup,
                backup: Content::Missing,
                ..files
            },
            SwapStep::Discard => Files { temporary: Content::Missing, ..files },
            SwapStep::Forget => Files { backup: Content::Missing, ..files },
            _ => files,
        }
    }
}

/// Which files hold what while a replacement goes on, where there was a cache before.
pub open spec fn nothing_lost(swap: SwapModel, files: Files) -> bool {
    match swap.step {
        SwapStep::Install | SwapStep::Inspect | SwapStep::Preserve => files.cache
            == Content::Previous && files.temporary == Content::Newer && swap.error is None,
        SwapStep::Replace => files.cache == Content::Missing && files.backup == Content::Previous
            && files.temporary == Content::Newer && swap.error is None,
        SwapStep::Restore => files.cache == Content::Missing && files.backup == Content::Previous
            && swap.error is None,
        SwapStep::Forget => files.cache == Content::Newer && swap.error is None,
        SwapStep::Discard => (files.cache == Content::Previous || files.backup
            == Content::Previous) && swap.error is Some,
        SwapStep::Done => if swap.error is None {
            files.cache == Content::Newer
        } else {
            files.cache == Content::Previous || files.backup == Content::Previous
        },
    }
}

/// No step of a replacement loses the inventory: it ends with the newer cache in place, or with an
/// error and the previous one kept as the cache or as the backup.
pub proof fn replacement_loses_nothing(
    swap: SwapModel,
    files: Files,
    outcome: Result<(), Seq<char>>,
)
    requires
        nothing_lost(swap, files),
    ensures
        nothing_lost(swap.advance(outcome), after_step(files, swap.step, outcome is Ok)),
{
}

} // verus!
