//! The installation as a run of requests and replies.
//!
//! The library decides and the caller acts. A run starts with a request; the
//! caller does what the request asks for, tells the run how it went, and gets
//! the next request, until the request is to finish. The run never goes back:
//! it resolves the install directory, prepares the directories, deploys the
//! runtime, patches the two files and writes the signature script, in this
//! order, and stops at the first failure.

use crate::archive::{archive_bytes, download_ue4ss, is_archive, Archive};
use crate::document::malformed_index;
use crate::error::Error;
use crate::layout::{archive_address, archive_url, script_body, signature_script, Place, GAME_ID};
use crate::lines::lines;
use crate::modlist::{enable_logicmods, enabled};
use crate::settings::{console_enabled, enable_console, readable};
use vstd::prelude::*;

verus! {

/// What the user asks for.
#[derive(Debug)]
pub struct Installer {
    /// The install directory of the game; where there is none, the game
    /// library is asked.
    pub path: Option<String>,
    /// Whether the console of the runtime is switched on.
    pub enable_console: bool,
}

/// The stages of an installation, in their order.
#[derive(Clone, Copy, Debug, PartialEq, Eq, Structural)]
pub enum Stage {
    /// Finding the install directory.
    Resolve,
    /// Making the directories.
    Prepare,
    /// Fetching and unpacking the runtime.
    Deploy,
    /// Switching on the mod loader and the console.
    Patch,
    /// Writing the signature script.
    Finalize,
    /// Nothing is left to do.
    Done,
}

impl Stage {
    /// The place of the stage in the order of the stages.
    pub open spec fn order(self) -> nat {
        match self {
            Stage::Resolve => 0,
            Stage::Prepare => 1,
            Stage::Deploy => 2,
            Stage::Patch => 3,
            Stage::Finalize => 4,
            Stage::Done => 5,
        }
    }
}

/// What a run waits for.
#[derive(Clone, Copy, Debug, PartialEq, Eq, Structural)]
pub enum Step {
    /// Whether the directory that was given exists.
    CheckingPath,
    /// Where the game library has the game.
    Locating,
    /// The directory of the binaries.
    MakingBinaryDir,
    /// The directory for mods made of game content.
    MakingContentDir,
    /// The bytes of the runtime archive.
    Fetching,
    /// The archive to be unpacked.
    Extracting,
    /// The content of the registration file of the mod loader.
    ReadingModList,
    /// The registration file to be written.
    WritingModList,
    /// The content of the settings file.
    ReadingSettings,
    /// The settings file to be written.
    WritingSettings,
    /// The directory of the signature scripts.
    MakingSignatureDir,
    /// The signature script to be written.
    WritingScript,
    /// Nothing: the run has ended.
    Finished,
}

impl Step {
    /// How far the step is from the start.
    pub open spec fn rank(self) -> nat {
        match self {
            Step::CheckingPath => 0,
            Step::Locating => 0,
            Step::MakingBinaryDir => 1,
            Step::MakingContentDir => 2,
            Step::Fetching => 3,
            Step::Extracting => 4,
            Step::ReadingModList => 5,
            Step::WritingModList => 6,
            Step::ReadingSettings => 7,
            Step::WritingSettings => 8,
            Step::MakingSignatureDir => 9,
            Step::WritingScript => 10,
            Step::Finished => 11,
        }
    }

    /// The stage that the step belongs to.
    pub open spec fn stage_of(self) -> Stage {
        match self {
            Step::CheckingPath | Step::Locating => Stage::Resolve,
            Step::MakingBinaryDir | Step::MakingContentDir => Stage::Prepare,
            Step::Fetching | Step::Extracting => Stage::Deploy,
            Step::ReadingModList | Step::WritingModList | Step::ReadingSettings
            | Step::WritingSettings => Stage::Patch,
            Step::MakingSignatureDir | Step::WritingScript => Stage::Finalize,
            Step::Finished => Stage::Done,
        }
    }

    /// The stage that the step belongs to.
    pub fn stage(self) -> (stage: Stage)
        ensures
            stage == self.stage_of(),
    {
        match self {
            Step::CheckingPath | Step::Locating => Stage::Resolve,
            Step::MakingBinaryDir | Step::MakingContentDir => Stage::Prepare,
            Step::Fetching | Step::Extracting => Stage::Deploy,
            Step::ReadingModList | Step::WritingModList | Step::ReadingSettings
            | Step::WritingSettings => Stage::Patch,
            Step::MakingSignatureDir | Step::WritingScript => Stage::Finalize,
            Step::Finished => Stage::Done,
        }
    }
}

/// What the caller is asked to do. Places are meant under the install
/// directory of the run.
#[derive(Debug)]
pub enum Request {
    /// Say whether this directory exists.
    DirectoryExists { path: String },
    /// Ask the game library where the game of this number is installed.
    LocateGame { app_id: u32 },
    /// Make the directory, and those above it, unless they exist.
    CreateDirectories { place: Place },
    /// Fetch what is at the address, whole.
    Fetch { url: &'static str },
    /// Unpack every entry of the archive into the directory, over what is
    /// there.
    Extract { archive: Archive, into: Place },
    /// Read the file, whole.
    ReadFile { place: Place },
    /// Make the file hold exactly these bytes.
    WriteFile { place: Place, content: Vec<u8> },
    /// Stop; the installation went like this.
    Finish { outcome: Result<(), Error> },
}

impl Request {
    /// The request changes what is on disk.
    pub open spec fn writes(self) -> bool {
        self is CreateDirectories || self is Extract || self is WriteFile
    }

    /// The request goes to the network.
    pub open spec fn fetches(self) -> bool {
        self is Fetch
    }

    /// The request ends the run with this failure.
    pub open spec fn fails_with(self, error: Error) -> bool {
        self matches Request::Finish { outcome: Err(given) } && given.same_as(error)
    }
}

/// How it went.
#[derive(Debug)]
pub enum Reply {
    /// Whether the directory exists.
    Exists(bool),
    /// Where the game is installed, if the game library knows.
    Located(Option<String>),
    /// It is done.
    Done,
    /// What was read or fetched.
    Contents(Vec<u8>),
    /// It could not be done, for this reason.
    Failed(String),
}

/// An installation under way.
#[derive(Debug)]
pub struct Run {
    step: Step,
    console: bool,
    directory: Option<String>,
}

impl Run {
    /// A run that has not finished knows its directory, unless it still
    /// waits for the game library.
    #[verifier::type_invariant]
    spec fn directory_is_known(self) -> bool {
        self.step != Step::Locating && self.step != Step::Finished ==> self.directory is Some
    }

    /// What the run waits for.
    pub closed spec fn at(self) -> Step {
        self.step
    }

    /// Whether the console is to be switched on.
    pub closed spec fn wants_console(self) -> bool {
        self.console
    }

    /// The install directory: the one that was given, or the one that the
    /// game library named.
    pub closed spec fn install_directory(self) -> Option<Seq<char>> {
        match self.directory {
            Some(directory) => Some(directory@),
            None => None,
        }
    }

    /// The run starts for `installer` with this request.
    pub open spec fn starts(installer: Installer, run: Run, request: Request) -> bool {
        &&& run.wants_console() == installer.enable_console
        &&& match installer.path {
            Some(given) => {
                &&& run.at() == Step::CheckingPath
                &&& run.install_directory() == Some(given@)
                &&& request matches Request::DirectoryExists { path }
                &&& path@ == given@
            },
            None => {
                &&& run.at() == Step::Locating
                &&& run.install_directory() is None
                &&& request == (Request::LocateGame { app_id: GAME_ID })
            },
        }
    }

    /// The reply is one that the run waits for.
    pub open spec fn expects(self, reply: Reply) -> bool {
        match self.at() {
            Step::CheckingPath => reply is Exists,
            Step::Locating => reply is Located,
            Step::Fetching | Step::ReadingModList | Step::ReadingSettings => reply is Contents
                || reply is Failed,
            Step::Finished => false,
            _ => reply is Done || reply is Failed,
        }
    }

    /// `next` goes on at `step` for the same installation.
    pub open spec fn goes_on(self, next: Run, step: Step) -> bool {
        &&& next.at() == step
        &&& next.wants_console() == self.wants_console()
        &&& next.install_directory() == self.install_directory()
    }

    /// The failure that a reply of failure means at a step.
    pub open spec fn failure(step: Step, reason: String) -> Error {
        match step {
            Step::Fetching => Error::Reqwest(reason),
            Step::Extracting => Error::Zip(reason),
            _ => Error::Io(reason),
        }
    }

    /// After `reply` the run goes on as `next` with `request`.
    pub open spec fn answers(self, reply: Reply, next: Run, request: Request) -> bool {
        match reply {
            Reply::Exists(exists) => if exists {
                &&& self.goes_on(next, Step::MakingBinaryDir)
                &&& request == (Request::CreateDirectories { place: Place::BinaryDir })
            } else {
                next.at() == Step::Finished && request.fails_with(Error::MissingDirectory)
            },
            Reply::Located(found) => match found {
                Some(directory) => {
                    &&& next.at() == Step::MakingBinaryDir
                    &&& next.wants_console() == self.wants_console()
                    &&& next.install_directory() == Some(directory@)
                    &&& request == (Request::CreateDirectories { place: Place::BinaryDir })
                },
                None => next.at() == Step::Finished && request.fails_with(Error::GameNotFound),
            },
            Reply::Failed(reason) => {
                &&& next.at() == Step::Finished
                &&& request.fails_with(Self::failure(self.at(), reason))
            },
            Reply::Contents(content) => match self.at() {
                Step::Fetching => if is_archive(content@) {
                    &&& self.goes_on(next, Step::Extracting)
                    &&& request matches Request::Extract { archive, into }
                    &&& archive_bytes(archive) == content@
                    &&& into == Place::BinaryDir
                } else {
                    &&& next.at() == Step::Finished
                    &&& request matches Request::Finish { outcome: Err(error) }
                    &&& error is Zip
                },
                Step::ReadingModList => {
                    &&& self.goes_on(next, Step::WritingModList)
                    &&& request matches Request::WriteFile { place, content: patched }
                    &&& place == Place::ModList
                    &&& patched@ == enabled(content@)
                },
                Step::ReadingSettings => if readable(content@) {
                    &&& self.goes_on(next, Step::WritingSettings)
                    &&& request matches Request::WriteFile { place, content: patched }
                    &&& place == Place::Settings
                    &&& patched@ == console_enabled(content@)
                } else {
                    &&& next.at() == Step::Finished
                    &&& request matches Request::Finish { outcome: Err(Error::Ini(line)) }
                    &&& line == malformed_index(lines(content@), 0) + 1
                },
                _ => false,
            },
            Reply::Done => match self.at() {
                Step::MakingBinaryDir => {
                    &&& self.goes_on(next, Step::MakingContentDir)
                    &&& request == (Request::CreateDirectories { place: Place::ContentModsDir })
                },
                Step::MakingContentDir => {
                    &&& self.goes_on(next, Step::Fetching)
                    &&& request matches Request::Fetch { url }
                    &&& url@ == archive_address()
                },
                Step::Extracting => {
                    &&& self.goes_on(next, Step::ReadingModList)
                    &&& request == (Request::ReadFile { place: Place::ModList })
                },
                Step::WritingModList => if self.wants_console() {
                    &&& self.goes_on(next, Step::ReadingSettings)
                    &&& request == (Request::ReadFile { place: Place::Settings })
                } else {
                    &&& self.goes_on(next, Step::MakingSignatureDir)
                    &&& request == (Request::CreateDirectories { place: Place::SignatureDir })
                },
                Step::WritingSettings => {
                    &&& self.goes_on(next, Step::MakingSignatureDir)
                    &&& request == (Request::CreateDirectories { place: Place::SignatureDir })
                },
                Step::MakingSignatureDir => {
                    &&& self.goes_on(next, Step::WritingScript)
                    &&& request matches Request::WriteFile { place, content }
                    &&& place == Place::SignatureScript
                    &&& content@ == script_body()
                },
                Step::WritingScript => {
                    &&& next.at() == Step::Finished
                    &&& request matches Request::Finish { outcome: Ok(_) }
                },
                _ => false,
            },
        }
    }

    /// What the run waits for.
    pub fn step(&self) -> (step: Step)
        ensures
            step == self.at(),
    {
        self.step
    }

    /// The install directory, once it is known. It is known whenever a
    /// request names a place.
    pub fn directory(&self) -> (directory: Option<&String>)
        ensures
            match directory {
                Some(known) => self.install_directory() == Some(known@),
                None => self.install_directory() is None,
            },
            self.at() != Step::Locating && self.at() != Step::Finished ==> directory is Some,
    {
        proof {
            use_type_invariant(self);
        }
        self.directory.as_ref()
    }

    /// Whether the reply is one that the run waits for.
    pub fn accepts(&self, reply: &Reply) -> (fits: bool)
        ensures
            fits == self.expects(*reply),
    {
        match self.step {
            Step::CheckingPath => matches!(reply, Reply::Exists(_)),
            Step::Locating => matches!(reply, Reply::Located(_)),
            Step::Fetching | Step::ReadingModList | Step::ReadingSettings => matches!(
                reply,
                Reply::Contents(_) | Reply::Failed(_)
            ),
            Step::Finished => false,
            _ => matches!(reply, Reply::Done | Reply::Failed(_)),
        }
    }

    /// Goes on at `step`.
    fn to(self, step: Step) -> (next: Run)
        requires
            step != Step::Locating,
            step != Step::Finished,
            self.at() != Step::Locating,
            self.at() != Step::Finished,
        ensures
            self.goes_on(next, step),
    {
        proof {
            use_type_invariant(&self);
        }
        Run { step, console: self.console, directory: self.directory }
    }

    /// Ends the run.
    fn end(self, outcome: Result<(), Error>) -> (last: (Run, Request))
        ensures
            last.0.at() == Step::Finished,
            last.1 == (Request::Finish { outcome }),
    {
        (
            Run { step: Step::Finished, console: self.console, directory: self.directory },
            Request::Finish { outcome },
        )
    }

    /// Goes on after the archive was opened, or was not: an archive is to be
    /// unpacked into the directory of the binaries, and an error ends the run.
    pub fn unpack(self, opened: Result<Archive, Error>) -> (next: (Run, Request))
        requires
            self.at() == Step::Fetching,
        ensures
            match opened {
                Ok(archive) => {
                    &&& self.goes_on(next.0, Step::Extracting)
                    &&& next.1 == (Request::Extract { archive, into: Place::BinaryDir })
                },
                Err(error) => {
                    &&& next.0.at() == Step::Finished
                    &&& next.1 == (Request::Finish { outcome: Err(error) })
                },
            },
    {
        match opened {
            Ok(archive) => (
                self.to(Step::Extracting),
                Request::Extract { archive, into: Place::BinaryDir },
            ),
            Err(error) => self.end(Err(error)),
        }
    }

    /// Takes the reply to the last request and gives the next request.
    pub fn advance(self, reply: Reply) -> (next: (Run, Request))
        requires
            self.expects(reply),
        ensures
            self.answers(reply, next.0, next.1),
            next.0.at().rank() > self.at().rank(),
            next.0.at().stage_of().order() >= self.at().stage_of().order(),
            next.1 is Finish <==> next.0.at() == Step::Finished,
    {
        let step = self.step;
        match reply {
            Reply::Exists(exists) => {
                if exists {
                    (self.to(Step::MakingBinaryDir), Request::CreateDirectories {
                        place: Place::BinaryDir,
                    })
                } else {
                    self.end(Err(Error::MissingDirectory))
                }
            },
            Reply::Located(found) => match found {
                Some(directory) => (
                    Run {
                        step: Step::MakingBinaryDir,
                        console: self.console,
                        directory: Some(directory),
                    },
                    Request::CreateDirectories { place: Place::BinaryDir },
                ),
                None => self.end(Err(Error::GameNotFound)),
            },
            Reply::Failed(reason) => {
                let error = match step {
                    Step::Fetching => Error::Reqwest(reason),
                    Step::Extracting => Error::Zip(reason),
                    _ => Error::Io(reason),
                };
                self.end(Err(error))
            },
            Reply::Contents(content) => match step {
                Step::Fetching => {
                    let opened = download_ue4ss(content);
                    self.unpack(opened)
                },
                Step::ReadingModList => {
                    let patched = enable_logicmods(content.as_slice());
                    (self.to(Step::WritingModList), Request::WriteFile {
                        place: Place::ModList,
                        content: patched,
                    })
                },
                _ => match enable_console(content.as_slice()) {
                    Ok(patched) => (
                        self.to(Step::WritingSettings),
                        Request::WriteFile { place: Place::Settings, content: patched },
                    ),
                    Err(error) => self.end(Err(error)),
                },
            },
            Reply::Done => match step {
                Step::MakingBinaryDir => (
                    self.to(Step::MakingContentDir),
                    Request::CreateDirectories { place: Place::ContentModsDir },
                ),
                Step::MakingContentDir => (
                    self.to(Step::Fetching),
                    Request::Fetch { url: archive_url() },
                ),
                Step::Extracting => (
                    self.to(Step::ReadingModList),
                    Request::ReadFile { place: Place::ModList },
                ),
                Step::WritingModList => {
                    if self.console {
                        (self.to(Step::ReadingSettings), Request::ReadFile {
                            place: Place::Settings,
                        })
                    } else {
                        (self.to(Step::MakingSignatureDir), Request::CreateDirectories {
                            place: Place::SignatureDir,
                        })
                    }
                },
                Step::WritingSettings => (
                    self.to(Step::MakingSignatureDir),
                    Request::CreateDirectories { place: Place::SignatureDir },
                ),
                Step::MakingSignatureDir => (self.to(Step::WritingScript), write_lua()),
                _ => self.end(Ok(())),
            },
        }
    }
}

/// The request to ask the game library for the install directory.
pub fn locate_game() -> (request: Request)
    ensures
        request == (Request::LocateGame { app_id: GAME_ID }),
{
    Request::LocateGame { app_id: GAME_ID }
}

/// The request to write the signature script: always the same bytes to the
/// same file, whatever the file held.
pub fn write_lua() -> (request: Request)
    ensures
        request matches Request::WriteFile { place, content } && place == Place::SignatureScript
            && content@ == script_body(),
{
    Request::WriteFile { place: Place::SignatureScript, content: signature_script() }
}

/// Starts an installation: with a directory, the first request asks whether
/// it exists; without one, it asks the game library.
pub fn run(installer: Installer) -> (first: (Run, Request))
    ensures
        Run::starts(installer, first.0, first.1),
{
    match installer.path {
        Some(given) => {
            let path = given.clone();
            (
                Run {
                    step: Step::CheckingPath,
                    console: installer.enable_console,
                    directory: Some(given),
                },
                Request::DirectoryExists { path },
            )
        },
        None => (
            Run { step: Step::Locating, console: installer.enable_console, directory: None },
            locate_game(),
        ),
    }
}

/// The requests and the states of one installation: it starts for
/// `installer`, and each reply is one that the run waits for and leads to the
/// next state and request.
pub open spec fn is_run(
    installer: Installer,
    replies: Seq<Reply>,
    runs: Seq<Run>,
    requests: Seq<Request>,
) -> bool {
    &&& runs.len() == replies.len() + 1
    &&& requests.len() == replies.len() + 1
    &&& Run::starts(installer, runs[0], requests[0])
    &&& forall|i: int|
        0 <= i < replies.len() ==> {
            &&& runs[i].expects(#[trigger] replies[i])
            &&& runs[i].answers(replies[i], runs[i + 1], requests[i + 1])
        }
}

/// The request is the one that a run at `step` has made and waits for.
pub open spec fn asked_at(step: Step, request: Request) -> bool {
    match step {
        Step::CheckingPath => request is DirectoryExists,
        Step::Locating => request == (Request::LocateGame { app_id: GAME_ID }),
        Step::MakingBinaryDir => request == (Request::CreateDirectories {
            place: Place::BinaryDir,
        }),
        Step::MakingContentDir => request == (Request::CreateDirectories {
            place: Place::ContentModsDir,
        }),
        Step::Fetching => request matches Request::Fetch { url } && url@ == archive_address(),
        Step::Extracting => request matches Request::Extract { into, .. } && into
            == Place::BinaryDir,
        Step::ReadingModList => request == (Request::ReadFile { place: Place::ModList }),
        Step::WritingModList => request matches Request::WriteFile { place, .. } && place
            == Place::ModList,
        Step::ReadingSettings => request == (Request::ReadFile { place: Place::Settings }),
        Step::WritingSettings => request matches Request::WriteFile { place, .. } && place
            == Place::Settings,
        Step::MakingSignatureDir => request == (Request::CreateDirectories {
            place: Place::SignatureDir,
        }),
        Step::WritingScript => request matches Request::WriteFile { place, content } && place
            == Place::SignatureScript && content@ == script_body(),
        Step::Finished => request is Finish,
    }
}

/// The steps of an installation that succeeds, in their order.
pub open spec fn course(path_given: bool, console: bool) -> Seq<Step> {
    seq![
        if path_given {
            Step::CheckingPath
        } else {
            Step::Locating
        },
        Step::MakingBinaryDir,
        Step::MakingContentDir,
        Step::Fetching,
        Step::Extracting,
        Step::ReadingModList,
        Step::WritingModList,
    ] + if console {
        seq![Step::ReadingSettings, Step::WritingSettings]
    } else {
        Seq::empty()
    } + seq![Step::MakingSignatureDir, Step::WritingScript, Step::Finished]
}

/// Every state of a run waits for the request that was made with it, keeps
/// the choice of the console, and is where the course of a successful
/// installation is at that point, or is the end after a failure.
pub proof fn run_follows_course(
    installer: Installer,
    replies: Seq<Reply>,
    runs: Seq<Run>,
    requests: Seq<Request>,
    i: int,
)
    requires
        is_run(installer, replies, runs, requests),
        0 <= i < runs.len(),
    ensures
        asked_at(runs[i].at(), requests[i]),
        runs[i].wants_console() == installer.enable_console || runs[i].at() == Step::Finished,
        i < course(installer.path is Some, installer.enable_console).len(),
        runs[i].at() == course(installer.path is Some, installer.enable_console)[i] || (runs[i].at()
            == Step::Finished && requests[i] matches Request::Finish { outcome: Err(_) }),
        runs[i].at() == Step::Finished ==> i == replies.len(),
    decreases i,
{
    if i > 0 {
        run_follows_course(installer, replies, runs, requests, i - 1);
        let before = runs[i - 1];
        let reply = replies[i - 1];
        assert(before.expects(reply));
        assert(before.answers(reply, runs[i], requests[i]));
    }
    if runs[i].at() == Step::Finished && i < replies.len() {
        assert(runs[i].expects(replies[i]));
    }
}

/// Where the directory that was given does not exist, the installation
/// fails for that reason with its second request, and no request of the run
/// writes to disk or goes to the network.
pub proof fn missing_directory_changes_nothing(
    installer: Installer,
    replies: Seq<Reply>,
    runs: Seq<Run>,
    requests: Seq<Request>,
)
    requires
        is_run(installer, replies, runs, requests),
        installer.path is Some,
        replies.len() > 0,
        replies[0] == Reply::Exists(false),
    ensures
        replies.len() == 1,
        requests[0] matches Request::DirectoryExists { path } && path@ == installer.path->0@,
        requests[1].fails_with(Error::MissingDirectory),
        forall|i: int| 0 <= i < requests.len() ==> !requests[i].writes() && !requests[i].fetches(),
{
    assert(runs[0].expects(replies[0]));
    run_follows_course(installer, replies, runs, requests, 1);
}

/// Where no directory was given and the game library knows no installation,
/// the installation fails for that reason with its second request, and no
/// request of the run writes to disk or goes to the network.
pub proof fn unknown_game_changes_nothing(
    installer: Installer,
    replies: Seq<Reply>,
    runs: Seq<Run>,
    requests: Seq<Request>,
)
    requires
        is_run(installer, replies, runs, requests),
        installer.path is None,
        replies.len() > 0,
        replies[0] == Reply::Located(None),
    ensures
        replies.len() == 1,
        requests[0] == (Request::LocateGame { app_id: GAME_ID }),
        requests[1].fails_with(Error::GameNotFound),
        forall|i: int| 0 <= i < requests.len() ==> !requests[i].writes() && !requests[i].fetches(),
{
    assert(runs[0].expects(replies[0]));
    run_follows_course(installer, replies, runs, requests, 1);
}

/// Once a run is past its first reply and has not finished, its install
/// directory is the one that was given, which exists, or the one that the
/// game library named.
pub proof fn directory_is_resolved(
    installer: Installer,
    replies: Seq<Reply>,
    runs: Seq<Run>,
    requests: Seq<Request>,
    i: int,
)
    requires
        is_run(installer, replies, runs, requests),
        0 < i < runs.len(),
        runs[i].at() != Step::Finished,
    ensures
        match installer.path {
            Some(given) => replies[0] == Reply::Exists(true) && runs[i].install_directory()
                == Some(given@),
            None => replies[0] matches Reply::Located(Some(found)) && runs[i].install_directory()
                == Some(found@),
        },
    decreases i,
{
    assert(runs[i - 1].expects(replies[i - 1]));
    run_follows_course(installer, replies, runs, requests, i - 1);
    if i > 1 {
        directory_is_resolved(installer, replies, runs, requests, i - 1);
    }
}

/// Nothing is written or fetched before the install directory is known: the
/// first request only asks, and a request that writes or fetches is made by
/// a run whose directory is resolved.
pub proof fn nothing_happens_before_resolution(
    installer: Installer,
    replies: Seq<Reply>,
    runs: Seq<Run>,
    requests: Seq<Request>,
    i: int,
)
    requires
        is_run(installer, replies, runs, requests),
        0 <= i < requests.len(),
        requests[i].writes() || requests[i].fetches(),
    ensures
        i > 0,
        match installer.path {
            Some(given) => replies[0] == Reply::Exists(true) && runs[i].install_directory()
                == Some(given@),
            None => replies[0] matches Reply::Located(Some(found)) && runs[i].install_directory()
                == Some(found@),
        },
{
    run_follows_course(installer, replies, runs, requests, i);
    directory_is_resolved(installer, replies, runs, requests, i);
}

/// Whatever a run writes to the signature script is the fixed script,
/// whatever was on disk and whatever the replies were.
pub proof fn script_is_fixed(
    installer: Installer,
    replies: Seq<Reply>,
    runs: Seq<Run>,
    requests: Seq<Request>,
    i: int,
)
    requires
        is_run(installer, replies, runs, requests),
        0 <= i < requests.len(),
        requests[i] matches Request::WriteFile { place, .. } && place == Place::SignatureScript,
    ensures
        requests[i] matches Request::WriteFile { content, .. } && content@ == script_body(),
{
    run_follows_course(installer, replies, runs, requests, i);
}

/// Two installations write the same bytes to the signature script: after
/// the second the file is what it was after the first.
pub proof fn installing_twice_writes_the_same_script(
    first: Installer,
    first_replies: Seq<Reply>,
    first_runs: Seq<Run>,
    first_requests: Seq<Request>,
    i: int,
    second: Installer,
    second_replies: Seq<Reply>,
    second_runs: Seq<Run>,
    second_requests: Seq<Request>,
    j: int,
)
    requires
        is_run(first, first_replies, first_runs, first_requests),
        is_run(second, second_replies, second_runs, second_requests),
        0 <= i < first_requests.len(),
        0 <= j < second_requests.len(),
        first_requests[i] matches Request::WriteFile { place, .. } && place
            == Place::SignatureScript,
        second_requests[j] matches Request::WriteFile { place, .. } && place
            == Place::SignatureScript,
    ensures
        first_requests[i]->WriteFile_content@ == second_requests[j]->WriteFile_content@,
{
    script_is_fixed(first, first_replies, first_runs, first_requests, i);
    script_is_fixed(second, second_replies, second_runs, second_requests, j);
}

/// A run that ends well has gone the whole course: every step of it, in
/// order, and no other.
pub proof fn success_takes_the_whole_course(
    installer: Installer,
    replies: Seq<Reply>,
    runs: Seq<Run>,
    requests: Seq<Request>,
)
    requires
        is_run(installer, replies, runs, requests),
        requests.last() matches Request::Finish { outcome: Ok(_) },
    ensures
        runs.len() == course(installer.path is Some, installer.enable_console).len(),
        forall|i: int|
            0 <= i < runs.len() ==> #[trigger] runs[i].at() == course(
                installer.path is Some,
                installer.enable_console,
            )[i],
        forall|i: int| 0 <= i < runs.len() ==> asked_at(runs[i].at(), #[trigger] requests[i]),
{
    let steps = course(installer.path is Some, installer.enable_console);
    let last = replies.len() as int;
    run_follows_course(installer, replies, runs, requests, last);
    assert forall|i: int| 0 <= i < runs.len() implies #[trigger] runs[i].at() == steps[i]
        && asked_at(runs[i].at(), requests[i]) by {
        run_follows_course(installer, replies, runs, requests, i);
    }
    assert forall|i: int| 0 <= i < runs.len() implies asked_at(
        runs[i].at(),
        #[trigger] requests[i],
    ) by {
        run_follows_course(installer, replies, runs, requests, i);
    }
}

/// A run ends: it takes eleven replies at most, its request to finish is its
/// last, and a run that has not finished waits for a reply.
pub proof fn runs_end(
    installer: Installer,
    replies: Seq<Reply>,
    runs: Seq<Run>,
    requests: Seq<Request>,
)
    requires
        is_run(installer, replies, runs, requests),
    ensures
        replies.len() <= 11,
        forall|i: int| 0 <= i < replies.len() ==> !(#[trigger] requests[i] is Finish),
{
    run_follows_course(installer, replies, runs, requests, replies.len() as int);
    assert forall|i: int| 0 <= i < replies.len() implies !(#[trigger] requests[i] is Finish) by {
        run_follows_course(installer, replies, runs, requests, i);
        assert(runs[i].expects(replies[i]));
    }
}

} // verus!
