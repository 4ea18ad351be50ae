//! Installing a model: what is done step by step, and what comes of each reply.
use crate::models;
use crate::models::config;
use crate::models::{ErrorView, ModelError, ModelProfile};
use crate::ocr::model;
use crate::path;
use crate::text;
use vstd::prelude::*;

verus! {

/// The greatest window that an archive may ask its decoder for, in bytes.
pub const MAX_MODEL_WINDOW_SIZE: u64 = 268_435_456;

/// The text of the error for a model that is installed already.
pub open spec fn already_installed_text(name: Seq<char>) -> Seq<char> {
    name + " is already installed"@
}

/// The text of the error for a destination that exists already.
pub open spec fn destination_exists_text(destination: Seq<char>) -> Seq<char> {
    "model destination already exists: "@ + destination
}

/// Where a model is put: at a path that is given, else below the default root.
pub open spec fn chosen_destination(
    given: Option<Seq<char>>,
    root: Seq<char>,
    name: Seq<char>,
) -> Seq<char> {
    match given {
        Some(place) => place,
        None => path::joined_path(root, name),
    }
}

/// Chooses where a model is put, unless it is installed already.
pub fn choose_destination(name: &str, installed: bool, given: Option<String>, root: &str) -> (place:
    Result<String, ModelError>)
    ensures
        installed ==> (place matches Err(ModelError::Operation(reason)) && reason@
            == already_installed_text(name@)),
        !installed ==> (place matches Ok(place) && place@ == chosen_destination(
            text::optional_view(given),
            root@,
            name@,
        )),
{
    if installed {
        return Err(ModelError::Operation(text::concat(name, " is already installed")));
    }
    match given {
        Some(place) => Ok(place),
        None => Ok(config::default_model_path(root, name)),
    }
}

/// The directory that a destination is in, or why nothing can be put there.
pub open spec fn destination_directory(
    destination: Seq<char>,
    exists_already: bool,
    parent: Option<Seq<char>>,
) -> Result<Seq<char>, Seq<char>> {
    if exists_already {
        Err(destination_exists_text(destination))
    } else {
        match parent {
            Some(directory) => Ok(directory),
            None => Err("invalid model path"@),
        }
    }
}

/// Checks a destination, given the directory that it is in.
pub fn check_destination(destination: &str, exists_already: bool, parent: Option<String>) -> (
    directory: Result<String, ModelError>)
    ensures
        match destination_directory(destination@, exists_already, text::optional_view(parent)) {
            Ok(place) => directory matches Ok(directory) && directory@ == place,
            Err(fault) => directory matches Err(ModelError::Operation(reason)) && reason@ == fault,
        },
{
    if exists_already {
        return Err(
            ModelError::Operation(
                text::concat("model destination already exists: ", destination),
            ),
        );
    }
    match parent {
        Some(directory) => Ok(directory),
        None => Err(ModelError::Operation("invalid model path".to_owned())),
    }
}

/// Finds the directory that a destination is in.
pub fn install_directory(destination: &str, exists_already: bool) -> (directory: Result<
    String,
    ModelError,
>)
    ensures
        match destination_directory(destination@, exists_already, path::parent_of(destination@)) {
            Ok(place) => directory matches Ok(directory) && directory@ == place,
            Err(fault) => directory matches Err(ModelError::Operation(reason)) && reason@ == fault,
        },
{
    check_destination(destination, exists_already, path::parent(destination))
}

/// The arguments that `curl` is started with.
pub open spec fn curl_arguments(archive: Seq<char>, url: Seq<char>) -> Seq<Seq<char>> {
    seq!["-fL"@, "--retry"@, "3"@, "--progress-bar"@, "--output"@, archive, url]
}

/// The arguments that `curl` is started with.
pub fn download_arguments(archive: &str, url: &str) -> (arguments: Vec<String>)
    ensures
        text::texts_view(arguments@) == curl_arguments(archive@, url@),
{
    let arguments: Vec<String> = vec![
        "-fL".to_owned(),
        "--retry".to_owned(),
        "3".to_owned(),
        "--progress-bar".to_owned(),
        "--output".to_owned(),
        archive.to_owned(),
        url.to_owned(),
    ];
    assert(text::texts_view(arguments@) =~= curl_arguments(archive@, url@));
    arguments
}

/// An entry of a directory.
#[derive(Debug)]
pub struct Entry {
    /// Its path.
    pub path: String,
    /// Whether it is a directory.
    pub is_directory: bool,
}

/// The only entry of an unpacked archive, which has to be a directory.
pub open spec fn only_directory(first: Option<(Seq<char>, bool)>, more: bool) -> Result<
    Seq<char>,
    Seq<char>,
> {
    match first {
        None => Err("archive is empty"@),
        Some((place, is_directory)) => if !is_directory || more {
            Err("archive must contain one top-level directory"@)
        } else {
            Ok(place)
        },
    }
}

/// The view of an optional directory entry.
pub open spec fn entry_view(entry: Option<Entry>) -> Option<(Seq<char>, bool)> {
    match entry {
        Some(entry) => Some((entry.path@, entry.is_directory)),
        None => None,
    }
}

/// Takes the only entry of an unpacked archive, told the first entry and whether more follow.
pub fn single_directory(first: Option<Entry>, more: bool) -> (package: Result<String, ModelError>)
    ensures
        match only_directory(entry_view(first), more) {
            Ok(place) => package matches Ok(package) && package@ == place,
            Err(fault) => package matches Err(ModelError::Operation(reason)) && reason@ == fault,
        },
{
    match first {
        None => Err(ModelError::Operation("archive is empty".to_owned())),
        Some(entry) => if !entry.is_directory || more {
            Err(ModelError::Operation("archive must contain one top-level directory".to_owned()))
        } else {
            Ok(entry.path)
        },
    }
}

/// What is to be done next.
#[derive(Debug)]
pub enum Task {
    /// Create the directory that the model will be in.
    MakeParent,
    /// Create a directory for the download.
    MakeTemporary,
    /// Look for `curl`.
    FindDownloader,
    /// Download the archive with the program at this path.
    Download(String),
    /// Read the archive.
    ReadArchive,
    /// Create a directory beside the destination to unpack into.
    MakeExtraction,
    /// Open the archive again.
    OpenArchive,
    /// Start decoding it.
    Decode,
    /// Unpack it.
    Unpack,
    /// List what was unpacked.
    Inspect,
    /// Look for the manifest in this directory.
    FindManifest(String),
    /// Move this directory to the destination.
    Place(String),
    /// Record the model in the configuration.
    Record,
    /// Take the model away again, because recording it failed for this reason.
    Discard(ModelError),
}

/// What came of a task.
#[derive(Debug)]
pub enum Reply {
    /// It was done.
    Done,
    /// It failed, for the reason given.
    Failed(String),
    /// A program was found at this path, or not.
    Program(Option<String>),
    /// A program ended: whether it succeeded, and its status as it is shown.
    Ended(bool, String),
    /// The content of a file.
    Content(Vec<u8>),
    /// The first entry of a directory, and whether there are more.
    Listing(Option<Entry>, bool),
    /// Whether a file is there.
    Present(bool),
    /// The configuration could not be written.
    Refused(ModelError),
}

/// How an installation goes on.
#[derive(Debug)]
pub enum Progress {
    /// This is done next.
    Go(Task),
    /// It is finished.
    Finished,
    /// It is given up.
    Stopped(ModelError),
}

/// Whether a reply is one that the task can have.
pub open spec fn answers(task: Task, reply: Reply) -> bool {
    match task {
        Task::MakeParent
        | Task::MakeTemporary
        | Task::MakeExtraction
        | Task::OpenArchive
        | Task::Decode
        | Task::Unpack
        | Task::Place(_)
        | Task::Discard(_) => reply is Done || reply is Failed,
        Task::FindDownloader => reply is Program,
        Task::Download(_) => reply is Ended || reply is Failed,
        Task::ReadArchive => reply is Content || reply is Failed,
        Task::Inspect => reply is Listing || reply is Failed,
        Task::FindManifest(_) => reply is Present,
        Task::Record => reply is Done || reply is Refused,
    }
}

/// What is said before the reason where a task fails.
pub open spec fn failure_context(task: Task) -> Seq<char> {
    match task {
        Task::MakeParent => "could not create model directory"@,
        Task::MakeTemporary => "could not create temporary directory"@,
        Task::Download(_) => "could not start curl"@,
        Task::ReadArchive => "could not read archive"@,
        Task::MakeExtraction => "could not create extraction directory"@,
        Task::OpenArchive => "could not open archive"@,
        Task::Decode => "could not decode archive"@,
        Task::Unpack => "could not extract archive"@,
        Task::Inspect => "could not inspect archive"@,
        Task::Place(_) => "could not install model profile"@,
        Task::Discard(error) => "could not save model configuration: "@ + error.text()
            + "; cleanup failed"@,
        _ => Seq::empty(),
    }
}

/// A view of how an installation goes on.
pub enum Stage {
    /// Create the directory that the model will be in.
    MakeParent,
    /// Create a directory for the download.
    MakeTemporary,
    /// Look for `curl`.
    FindDownloader,
    /// Download the archive.
    Download(Seq<char>),
    /// Read the archive.
    ReadArchive,
    /// Create a directory to unpack into.
    MakeExtraction,
    /// Open the archive again.
    OpenArchive,
    /// Start decoding it.
    Decode,
    /// Unpack it.
    Unpack,
    /// List what was unpacked.
    Inspect,
    /// Look for the manifest.
    FindManifest(Seq<char>),
    /// Move the package to the destination.
    Place(Seq<char>),
    /// Record the model.
    Record,
    /// Take the model away again.
    Discard(ModelError),
    /// The end, with success.
    Finished,
    /// The end, with an error.
    Stopped(ErrorView),
}

impl View for Progress {
    type V = Stage;

    open spec fn view(&self) -> Stage {
        match self {
            Progress::Go(task) => task@,
            Progress::Finished => Stage::Finished,
            Progress::Stopped(error) => Stage::Stopped(error@),
        }
    }
}

impl View for Task {
    type V = Stage;

    open spec fn view(&self) -> Stage {
        match self {
            Task::MakeParent => Stage::MakeParent,
            Task::MakeTemporary => Stage::MakeTemporary,
            Task::FindDownloader => Stage::FindDownloader,
            Task::Download(program) => Stage::Download(program@),
            Task::ReadArchive => Stage::ReadArchive,
            Task::MakeExtraction => Stage::MakeExtraction,
            Task::OpenArchive => Stage::OpenArchive,
            Task::Decode => Stage::Decode,
            Task::Unpack => Stage::Unpack,
            Task::Inspect => Stage::Inspect,
            Task::FindManifest(package) => Stage::FindManifest(package@),
            Task::Place(package) => Stage::Place(package@),
            Task::Record => Stage::Record,
            Task::Discard(error) => Stage::Discard(*error),
        }
    }
}

/// The text of the error for an archive whose checksum is not the expected one.
pub open spec fn archive_mismatch_text(expected: Seq<char>, actual: Seq<char>) -> Seq<char> {
    "SHA-256 mismatch: expected "@ + expected + ", got "@ + actual
}

/// What follows a reply to a task, where the archive has to have the checksum `expected`.
pub open spec fn following(task: Task, reply: Reply, expected: Seq<char>) -> Stage {
    match reply {
        Reply::Failed(reason) => Stage::Stopped(
            ErrorView::Operation(failure_context(task) + ": "@ + reason@),
        ),
        Reply::Program(None) => Stage::Stopped(ErrorView::Operation("curl not found in PATH"@)),
        Reply::Program(Some(program)) => Stage::Download(program@),
        Reply::Ended(success, status) => if success {
            Stage::ReadArchive
        } else {
            Stage::Stopped(ErrorView::Operation("download failed: "@ + status@))
        },
        Reply::Content(content) => if model::hex(model::sha256(content@)) == expected {
            Stage::MakeExtraction
        } else {
            Stage::Stopped(
                ErrorView::Operation(
                    archive_mismatch_text(expected, model::hex(model::sha256(content@))),
                ),
            )
        },
        Reply::Listing(first, more) => match only_directory(entry_view(first), more) {
            Ok(package) => Stage::FindManifest(package),
            Err(fault) => Stage::Stopped(ErrorView::Operation(fault)),
        },
        Reply::Present(found) => if found {
            Stage::Place(task->FindManifest_0@)
        } else {
            Stage::Stopped(ErrorView::Operation("archive does not contain a model manifest"@))
        },
        Reply::Refused(error) => Stage::Discard(error),
        Reply::Done => match task {
            Task::MakeParent => Stage::MakeTemporary,
            Task::MakeTemporary => Stage::FindDownloader,
            Task::MakeExtraction => Stage::OpenArchive,
            Task::OpenArchive => Stage::Decode,
            Task::Decode => Stage::Unpack,
            Task::Unpack => Stage::Inspect,
            Task::Place(_) => Stage::Record,
            Task::Discard(error) => Stage::Stopped(error@),
            _ => Stage::Finished,
        },
    }
}

/// The error for a task that failed.
fn failure(task: Task, reason: &str) -> (error: ModelError)
    requires
        answers(task, Reply::Done) && !(task is Record) || task is Download || task is ReadArchive
            || task is Inspect,
    ensures
        error.text() == failure_context(task) + ": "@ + reason@,
        error is Operation,
{
    let context: String = match task {
        Task::MakeParent => "could not create model directory".to_owned(),
        Task::MakeTemporary => "could not create temporary directory".to_owned(),
        Task::Download(_) => "could not start curl".to_owned(),
        Task::ReadArchive => "could not read archive".to_owned(),
        Task::MakeExtraction => "could not create extraction directory".to_owned(),
        Task::OpenArchive => "could not open archive".to_owned(),
        Task::Decode => "could not decode archive".to_owned(),
        Task::Unpack => "could not extract archive".to_owned(),
        Task::Inspect => "could not inspect archive".to_owned(),
        Task::Place(_) => "could not install model profile".to_owned(),
        Task::Discard(error) => text::concat3(
            "could not save model configuration: ",
            error.message().as_str(),
            "; cleanup failed",
        ),
        _ => String::new(),
    };
    models::operation(context.as_str(), reason)
}

/// Checks the content of a downloaded archive.
fn check_archive(content: &Vec<u8>, expected: &str) -> (progress: Progress)
    ensures
        progress@ == (if model::hex(model::sha256(content@)) == expected@ {
            Stage::MakeExtraction
        } else {
            Stage::Stopped(
                ErrorView::Operation(
                    archive_mismatch_text(expected@, model::hex(model::sha256(content@))),
                ),
            )
        }),
{
    let actual = model::hex_sha256(content.as_slice());
    if text::same_text(actual.as_str(), expected) {
        Progress::Go(Task::MakeExtraction)
    } else {
        Progress::Stopped(
            ModelError::Operation(
                text::concat(
                    text::concat3("SHA-256 mismatch: expected ", expected, ", got ").as_str(),
                    actual.as_str(),
                ),
            ),
        )
    }
}

/// Decides what follows a reply to a task of the installation of `profile`.
pub fn install_step(task: Task, reply: Reply, profile: &ModelProfile) -> (progress: Progress)
    requires
        answers(task, reply),
    ensures
        progress@ == following(task, reply, profile.sha256@),
        task is Discard && reply is Done ==> progress == Progress::Stopped(task->Discard_0),
{
    match reply {
        Reply::Failed(reason) => Progress::Stopped(failure(task, reason.as_str())),
        Reply::Program(None) => Progress::Stopped(
            ModelError::Operation("curl not found in PATH".to_owned()),
        ),
        Reply::Program(Some(program)) => Progress::Go(Task::Download(program)),
        Reply::Ended(success, status) => if success {
            Progress::Go(Task::ReadArchive)
        } else {
            Progress::Stopped(
                ModelError::Operation(text::concat("download failed: ", status.as_str())),
            )
        },
        Reply::Content(content) => check_archive(&content, profile.sha256.as_str()),
        Reply::Listing(first, more) => match single_directory(first, more) {
            Ok(package) => Progress::Go(Task::FindManifest(package)),
            Err(error) => Progress::Stopped(error),
        },
        Reply::Present(found) => match task {
            Task::FindManifest(package) if found => Progress::Go(Task::Place(package)),
            _ => Progress::Stopped(
                ModelError::Operation("archive does not contain a model manifest".to_owned()),
            ),
        },
        Reply::Refused(error) => Progress::Go(Task::Discard(error)),
        Reply::Done => match task {
            Task::MakeParent => Progress::Go(Task::MakeTemporary),
            Task::MakeTemporary => Progress::Go(Task::FindDownloader),
            Task::MakeExtraction => Progress::Go(Task::OpenArchive),
            Task::OpenArchive => Progress::Go(Task::Decode),
            Task::Decode => Progress::Go(Task::Unpack),
            Task::Unpack => Progress::Go(Task::Inspect),
            Task::Place(_) => Progress::Go(Task::Record),
            Task::Discard(error) => Progress::Stopped(error),
            _ => Progress::Finished,
        },
    }
}

/// Whether a run of tasks with their replies is one of an installation: it begins with the first
/// task, every reply answers its task, and every task is what follows the reply before it.
pub open spec fn is_run(run: Seq<(Task, Reply)>, expected: Seq<char>) -> bool {
    &&& run.len() > 0 ==> run[0].0@ == Stage::MakeParent
    &&& forall|i: int| 0 <= i < run.len() ==> answers((#[trigger] run[i]).0, run[i].1)
    &&& forall|i: int|
        0 <= i < run.len() - 1 ==> (#[trigger] run[i + 1]).0@ == following(
            run[i].0,
            run[i].1,
            expected,
        )
}

/// Whether the archive was read in a run, with the expected checksum.
pub open spec fn archive_checked(run: Seq<(Task, Reply)>, expected: Seq<char>) -> bool {
    exists|i: int|
        0 <= i < run.len() && ((#[trigger] run[i]).1 matches Reply::Content(content) && model::hex(
            model::sha256(content@),
        ) == expected)
}

/// Whether a package with one directory and a manifest in it was found in a run.
pub open spec fn package_checked(run: Seq<(Task, Reply)>, package: Seq<char>) -> bool {
    exists|i: int|
        0 <= i < run.len() && ((#[trigger] run[i]).1 matches Reply::Present(true)) && run[i].0@
            == Stage::FindManifest(package)
}

/// Whether a task only comes once the archive was checked.
spec fn comes_after_check(task: Task) -> bool {
    match task {
        Task::MakeParent
        | Task::MakeTemporary
        | Task::FindDownloader
        | Task::Download(_)
        | Task::ReadArchive => false,
        _ => true,
    }
}

proof fn lemma_checked_before(run: Seq<(Task, Reply)>, expected: Seq<char>, n: int)
    requires
        is_run(run, expected),
        0 <= n < run.len(),
        comes_after_check(run[n].0),
    ensures
        archive_checked(run.take(n), expected),
    decreases n,
{
    if n > 0 {
        let before = run[n - 1];
        assert(run[(n - 1) + 1].0@ == following(before.0, before.1, expected));
        assert(answers(before.0, before.1));
        if comes_after_check(before.0) {
            lemma_checked_before(run, expected, n - 1);
            let i = choose|i: int|
                0 <= i < run.take(n - 1).len() && ((#[trigger] run.take(n - 1)[i]).1 matches
                    Reply::Content(content) && model::hex(model::sha256(content@)) == expected);
            assert(run.take(n)[i] == run.take(n - 1)[i]);
        } else {
            assert(run.take(n)[n - 1] == before);
        }
    }
}

/// A package is only put in place once the archive was found to have the expected checksum and the
/// package to be its one directory, with a manifest.
pub proof fn law_only_checked_packages_are_placed(
    run: Seq<(Task, Reply)>,
    expected: Seq<char>,
    n: int,
)
    requires
        is_run(run, expected),
        0 <= n < run.len(),
        run[n].0 is Place,
    ensures
        archive_checked(run.take(n), expected),
        package_checked(run.take(n), run[n].0->Place_0@),
{
    lemma_checked_before(run, expected, n);
    let before = run[n - 1];
    assert(run[(n - 1) + 1].0@ == following(before.0, before.1, expected));
    assert(answers(before.0, before.1));
    assert(run.take(n)[n - 1] == before);
}

/// An installation that finishes has put its package in place and recorded it.
pub proof fn law_finished_is_placed_and_recorded(
    run: Seq<(Task, Reply)>,
    expected: Seq<char>,
)
    requires
        is_run(run, expected),
        run.len() > 0,
        following(run.last().0, run.last().1, expected) is Finished,
    ensures
        run.len() > 1,
        run.last().0 is Record,
        run.last().1 is Done,
        run[run.len() - 2].0 is Place,
        run[run.len() - 2].1 is Done,
{
    let n = run.len() - 1;
    assert(answers(run[n].0, run[n].1));
    assert(run[0].0@ == Stage::MakeParent);
    assert(run[n].0 is Record);
    assert(n > 0);
    assert(run[(n - 1) + 1].0@ == following(run[n - 1].0, run[n - 1].1, expected));
    assert(answers(run[n - 1].0, run[n - 1].1));
}

/// Where recording fails the model is taken away again, and whatever comes of that the
/// installation ends with an error.
pub proof fn law_failed_record_is_undone(error: ModelError, reply: Reply, expected: Seq<char>)
    requires
        answers(Task::Discard(error), reply),
    ensures
        following(Task::Record, Reply::Refused(error), expected) == Stage::Discard(error),
        following(Task::Discard(error), reply, expected) is Stopped,
        following(Task::Discard(error), Reply::Done, expected) == Stage::Stopped(error@),
{
}

/// What is said of an installed model.
pub fn installed_message(name: &str) -> (message: String)
    ensures
        message@ == "Installed "@ + name@,
{
    text::concat("Installed ", name)
}

/// Where an installed model is said to be.
pub fn path_message(shown: &str) -> (message: String)
    ensures
        message@ == "Path: "@ + shown@,
{
    text::concat("Path: ", shown)
}

/// A model is put where it is asked for, else into the directory of its name below the root; never
/// where something is already, and only where there is a directory to put it into.
pub proof fn law_nothing_is_overwritten(
    given: Option<Seq<char>>,
    root: Seq<char>,
    name: Seq<char>,
    destination: Seq<char>,
    parent: Option<Seq<char>>,
)
    ensures
        given matches Some(place) ==> chosen_destination(given, root, name) == place,
        given is None ==> chosen_destination(given, root, name) == path::joined_path(root, name),
        destination_directory(destination, true, parent) is Err,
        destination_directory(destination, false, parent) is Ok <==> parent is Some,
        parent matches Some(directory) ==> destination_directory(destination, false, parent) == Ok::<
            Seq<char>,
            Seq<char>,
        >(directory),
{
}

/// An archive is taken exactly if it holds one entry and this is a directory.
pub proof fn law_archive_holds_one_directory(place: Seq<char>, is_directory: bool, more: bool)
    ensures
        only_directory(None, more) is Err,
        only_directory(Some((place, is_directory)), more) is Ok <==> is_directory && !more,
        is_directory && !more ==> only_directory(Some((place, is_directory)), more) == Ok::<
            Seq<char>,
            Seq<char>,
        >(place),
{
}

/// A task that fails ends the installation, with an error that ends in the reason.
pub proof fn law_failure_ends_the_installation(task: Task, reason: String, expected: Seq<char>)
    requires
        answers(task, Reply::Failed(reason)),
    ensures
        following(task, Reply::Failed(reason), expected) matches Stage::Stopped(
            ErrorView::Operation(shown),
        ) && reason@.is_suffix_of(shown),
{
    let shown = failure_context(task) + ": "@ + reason@;
    assert(shown.subrange(shown.len() - reason@.len(), shown.len() as int) == reason@);
}

/// An archive is unpacked exactly if its checksum is the expected one; it is downloaded with the
/// program that was found, and read only where the program succeeded.
pub proof fn law_only_the_expected_archive_is_unpacked(
    content: Vec<u8>,
    program: String,
    success: bool,
    status: String,
    expected: Seq<char>,
)
    ensures
        following(Task::ReadArchive, Reply::Content(content), expected) is MakeExtraction <==>
            model::hex(model::sha256(content@)) == expected,
        following(Task::ReadArchive, Reply::Content(content), expected) is Stopped <==> model::hex(
            model::sha256(content@),
        ) != expected,
        following(Task::FindDownloader, Reply::Program(Some(program)), expected) == Stage::Download(
            program@,
        ),
        following(Task::FindDownloader, Reply::Program(None), expected) is Stopped,
        following(Task::Download(program), Reply::Ended(success, status), expected)
            is ReadArchive <==> success,
        following(Task::Download(program), Reply::Ended(success, status), expected)
            is Stopped <==> !success,
{
}

/// A package without a manifest is not put in place; one with a manifest is, under its own path.
pub proof fn law_package_needs_a_manifest(package: String, found: bool, expected: Seq<char>)
    ensures
        found ==> following(Task::FindManifest(package), Reply::Present(found), expected)
            == Stage::Place(package@),
        !found ==> following(Task::FindManifest(package), Reply::Present(found), expected)
            is Stopped,
{
}

proof fn lemma_run_step(run: Seq<(Task, Reply)>, expected: Seq<char>, i: int)
    requires
        is_run(run, expected),
        0 <= i < run.len(),
    ensures
        answers(run[i].0, run[i].1),
        i + 1 < run.len() ==> run[i + 1].0@ == following(run[i].0, run[i].1, expected),
{
}

/// An installation that finishes went through all of its steps, each once and in this order: the
/// directory and the temporary one were made, the downloader found and run, the archive read, a
/// directory to unpack into made, the archive opened, decoded, unpacked and looked into, the
/// manifest found, the package put in place and recorded.
pub proof fn law_finished_installation_took_every_step(run: Seq<(Task, Reply)>, expected: Seq<char>)
    requires
        is_run(run, expected),
        run.len() > 0,
        following(run.last().0, run.last().1, expected) is Finished,
    ensures
        run.len() == 13,
        run[0].0 is MakeParent && run[1].0 is MakeTemporary && run[2].0 is FindDownloader,
        run[3].0 is Download && run[4].0 is ReadArchive && run[5].0 is MakeExtraction,
        run[6].0 is OpenArchive && run[7].0 is Decode && run[8].0 is Unpack && run[9].0 is Inspect,
        run[10].0 is FindManifest && run[11].0 is Place && run[12].0 is Record,
{
    let n = run.len() as int;
    assert(run[n - 1] == run.last());
    lemma_run_step(run, expected, 0);
    if n > 1 {
        lemma_run_step(run, expected, 1);
    }
    if n > 2 {
        lemma_run_step(run, expected, 2);
    }
    if n > 3 {
        lemma_run_step(run, expected, 3);
    }
    if n > 4 {
        lemma_run_step(run, expected, 4);
    }
    if n > 5 {
        lemma_run_step(run, expected, 5);
    }
    if n > 6 {
        lemma_run_step(run, expected, 6);
    }
    if n > 7 {
        lemma_run_step(run, expected, 7);
    }
    if n > 8 {
        lemma_run_step(run, expected, 8);
    }
    if n > 9 {
        lemma_run_step(run, expected, 9);
    }
    if n > 10 {
        lemma_run_step(run, expected, 10);
    }
    if n > 11 {
        lemma_run_step(run, expected, 11);
    }
    if n > 12 {
        lemma_run_step(run, expected, 12);
    }
    if n > 13 {
        lemma_run_step(run, expected, 13);
    }
}

/// The downloader is told to write the archive to its place, which is the last but one argument,
/// and to get it from its address, which is the last.
pub proof fn law_download_names_place_and_address(archive: Seq<char>, url: Seq<char>)
    ensures
        ({
            let arguments = curl_arguments(archive, url);
            let n = arguments.len() as int;
            &&& n >= 3
            &&& arguments[n - 1] == url
            &&& arguments[n - 2] == archive
            &&& arguments[n - 3] == "--output"@
            &&& arguments.contains("-fL"@)
        }),
{
    assert(curl_arguments(archive, url)[0] == "-fL"@);
}

/// A task that fails is named by what it was about to do.
pub proof fn law_failure_names_its_task(text: String, error: ModelError)
    ensures
        failure_context(Task::MakeParent) == "could not create model directory"@,
        failure_context(Task::MakeTemporary) == "could not create temporary directory"@,
        failure_context(Task::Download(text)) == "could not start curl"@,
        failure_context(Task::ReadArchive) == "could not read archive"@,
        failure_context(Task::MakeExtraction) == "could not create extraction directory"@,
        failure_context(Task::OpenArchive) == "could not open archive"@,
        failure_context(Task::Decode) == "could not decode archive"@,
        failure_context(Task::Unpack) == "could not extract archive"@,
        failure_context(Task::Inspect) == "could not inspect archive"@,
        failure_context(Task::Place(text)) == "could not install model profile"@,
        failure_context(Task::Discard(error)) == ("could not save model configuration: "@
            + error.text()) + "; cleanup failed"@,
{
}

/// What is done next is the task of that name, with the path that it is about; the end is one with
/// success or with its error.
pub proof fn law_stage_is_its_task(progress: Progress)
    ensures
        progress@ is Finished <==> progress is Finished,
        progress@ is Stopped <==> progress is Stopped,
        progress matches Progress::Stopped(error) ==> progress@ == Stage::Stopped(error@),
        progress matches Progress::Go(task) ==> {
            &&& progress@ is MakeParent <==> task is MakeParent
            &&& progress@ is MakeTemporary <==> task is MakeTemporary
            &&& progress@ is FindDownloader <==> task is FindDownloader
            &&& progress@ is ReadArchive <==> task is ReadArchive
            &&& progress@ is MakeExtraction <==> task is MakeExtraction
            &&& progress@ is OpenArchive <==> task is OpenArchive
            &&& progress@ is Decode <==> task is Decode
            &&& progress@ is Unpack <==> task is Unpack
            &&& progress@ is Inspect <==> task is Inspect
            &&& progress@ is Record <==> task is Record
            &&& task matches Task::Download(program) ==> progress@ == Stage::Download(program@)
            &&& task matches Task::FindManifest(package) ==> progress@ == Stage::FindManifest(
                package@,
            )
            &&& task matches Task::Place(package) ==> progress@ == Stage::Place(package@)
            &&& task matches Task::Discard(error) ==> progress@ == Stage::Discard(error)
        },
{
}

} // verus!
