//! What an installation leaves on disk.
//!
//! The files that the installer reads and writes are modelled as a map from
//! place to content, and a caller that does what it is asked as a relation
//! between the files before a request, the reply, and the files after. Of an
//! unpacked archive nothing is assumed: it may leave any files. What is
//! proved is what the requests of a run make of the files, whatever the
//! archive held.

use crate::layout::{script_body, Place};
use crate::modlist::enabled;
use crate::pipeline::{
    course, is_run, missing_directory_changes_nothing, run_follows_course,
    success_takes_the_whole_course, unknown_game_changes_nothing, Installer, Reply, Request, Run,
};
use crate::settings::{console_enabled, readable};
use vstd::prelude::*;

verus! {

/// The content of each file that exists.
pub type Files = Map<Place, Seq<u8>>;

/// A caller that does what `request` asks for, with the files `before`, can
/// give `reply` and leave the files `after`.
///
/// Reading gives what the file holds and changes nothing. Writing makes the
/// file hold the bytes; where it fails, the file may hold anything, and the
/// other files are as they were. Unpacking may leave any files. Nothing else
/// touches a file.
pub open spec fn performs(request: Request, before: Files, reply: Reply, after: Files) -> bool {
    match request {
        Request::ReadFile { place } => {
            &&& after == before
            &&& match reply {
                Reply::Contents(content) => before.contains_key(place) && content@
                    == before[place],
                Reply::Failed(_) => true,
                _ => false,
            }
        },
        Request::WriteFile { place, content } => match reply {
            Reply::Done => after == before.insert(place, content@),
            Reply::Failed(_) => after.remove(place) == before.remove(place),
            _ => false,
        },
        Request::Extract { .. } => reply is Done || reply is Failed,
        Request::Finish { .. } => false,
        _ => after == before,
    }
}

/// A run whose caller does what it is asked: `files[i]` are the files when
/// the request `i` is made.
pub open spec fn is_performed(
    installer: Installer,
    replies: Seq<Reply>,
    runs: Seq<Run>,
    requests: Seq<Request>,
    files: Seq<Files>,
) -> bool {
    &&& is_run(installer, replies, runs, requests)
    &&& files.len() == requests.len()
    &&& forall|i: int|
        0 <= i < replies.len() ==> performs(
            requests[i],
            #[trigger] files[i],
            replies[i],
            files[i + 1],
        )
}

/// What a successful installation makes of the files that the archive left:
/// the mod loader is switched on in the registration file, the console is
/// switched on in the settings where it was asked for, and the signature
/// script is the fixed script. No other file is changed.
pub open spec fn installed(unpacked: Files, console: bool) -> Files {
    let with_mods = unpacked.insert(Place::ModList, enabled(unpacked[Place::ModList]));
    let with_console = if console {
        with_mods.insert(Place::Settings, console_enabled(unpacked[Place::Settings]))
    } else {
        with_mods
    };
    with_console.insert(Place::SignatureScript, script_body())
}

/// A run that ends well leaves the files that `installed` describes, made
/// from what the archive left when it was unpacked; the files to patch were
/// there, and the settings could be read as a document. The archive is
/// unpacked with the request of index 4, before which no file is touched, so
/// that `files[5]` are the files that unpacking left.
pub proof fn success_installs(
    installer: Installer,
    replies: Seq<Reply>,
    runs: Seq<Run>,
    requests: Seq<Request>,
    files: Seq<Files>,
)
    requires
        is_performed(installer, replies, runs, requests, files),
        requests.last() matches Request::Finish { outcome: Ok(_) },
    ensures
        requests[4] is Extract,
        files[4] == files[0],
        files[5].contains_key(Place::ModList),
        installer.enable_console ==> files[5].contains_key(Place::Settings) && readable(
            files[5][Place::Settings],
        ),
        files.last() == installed(files[5], installer.enable_console),
{
    let console = installer.enable_console;
    let steps = course(installer.path is Some, console);
    success_takes_the_whole_course(installer, replies, runs, requests);
    assert forall|i: int| 0 <= i < replies.len() implies runs[i].expects(replies[i])
        && runs[i].answers(replies[i], runs[i + 1], requests[i + 1]) && performs(
        requests[i],
        files[i],
        replies[i],
        files[i + 1],
    ) && runs[i].at() == steps[i] && (runs[i].wants_console() == console) by {
        run_follows_course(installer, replies, runs, requests, i);
        assert(performs(requests[i], #[trigger] files[i], replies[i], files[i + 1]));
    }
    assert(runs[0].at() == steps[0]);
    assert(runs[1].at() == steps[1]);
    assert(runs[2].at() == steps[2]);
    assert(runs[3].at() == steps[3]);
    assert(runs[4].at() == steps[4]);
    assert(runs[5].at() == steps[5]);
    assert(runs[6].at() == steps[6]);
    assert(runs[7].at() == steps[7]);
    assert(runs[8].at() == steps[8]);
    assert(runs[9].at() == steps[9]);
    assert(files[1] == files[0]);
    assert(files[2] == files[1]);
    assert(files[3] == files[2]);
    assert(files[4] == files[3]);
    assert(files[6] == files[5]);
    let with_mods = files[5].insert(Place::ModList, enabled(files[5][Place::ModList]));
    assert(files[7] == with_mods);
    if console {
        assert(runs[10].at() == steps[10]);
        assert(runs[11].at() == steps[11]);
        assert(files[8] == files[7]);
        assert(files[7][Place::Settings] == files[5][Place::Settings]);
        assert(files[9] == files[8].insert(
            Place::Settings,
            console_enabled(files[5][Place::Settings]),
        ));
        assert(files[10] == files[9]);
        assert(files[11] == files[10].insert(Place::SignatureScript, script_body()));
    } else {
        assert(files[8] == files[7]);
        assert(files[9] == files[8].insert(Place::SignatureScript, script_body()));
    }
}

/// After a second installation on top of a first, the signature script holds
/// byte for byte what it held after the first: the fixed script.
pub proof fn installing_twice_leaves_the_script(
    first: Installer,
    first_replies: Seq<Reply>,
    first_runs: Seq<Run>,
    first_requests: Seq<Request>,
    first_files: Seq<Files>,
    second: Installer,
    second_replies: Seq<Reply>,
    second_runs: Seq<Run>,
    second_requests: Seq<Request>,
    second_files: Seq<Files>,
)
    requires
        is_performed(first, first_replies, first_runs, first_requests, first_files),
        first_requests.last() matches Request::Finish { outcome: Ok(_) },
        is_performed(second, second_replies, second_runs, second_requests, second_files),
        second_requests.last() matches Request::Finish { outcome: Ok(_) },
        second_files[0] == first_files.last(),
    ensures
        first_files.last().contains_key(Place::SignatureScript),
        first_files.last()[Place::SignatureScript] == script_body(),
        second_files.last().contains_key(Place::SignatureScript),
        second_files.last()[Place::SignatureScript] == first_files.last()[Place::SignatureScript],
{
    success_installs(first, first_replies, first_runs, first_requests, first_files);
    success_installs(second, second_replies, second_runs, second_requests, second_files);
}

/// Where the directory that was given does not exist, or none was given and
/// the game library knows no installation, the run ends with every file as it
/// was.
pub proof fn failed_resolution_leaves_the_files(
    installer: Installer,
    replies: Seq<Reply>,
    runs: Seq<Run>,
    requests: Seq<Request>,
    files: Seq<Files>,
)
    requires
        is_performed(installer, replies, runs, requests, files),
        replies.len() > 0,
        match installer.path {
            Some(_) => replies[0] == Reply::Exists(false),
            None => replies[0] == Reply::Located(None),
        },
    ensures
        requests.last() is Finish,
        files.last() == files[0],
{
    if installer.path is Some {
        missing_directory_changes_nothing(installer, replies, runs, requests);
    } else {
        unknown_game_changes_nothing(installer, replies, runs, requests);
    }
    assert(performs(requests[0], files[0], replies[0], files[1]));
}

} // verus!
