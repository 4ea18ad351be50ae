//! Capturing a region of the screen and copying the picture or its text.
use crate::cli;
use crate::cli::AppError;
use crate::path;
use crate::text;
use vstd::prelude::*;
use vstd::string::*;
use vstd::utf8::*;

verus! {

/// The arguments that Spectacle is started with, before the path of the picture.
pub fn spectacle_args() -> (arguments: [&'static str; 5])
    ensures
        arguments[0]@ == "--region"@,
        arguments[1]@ == "--background"@,
        arguments[2]@ == "--nonotify"@,
        arguments[3]@ == "--release-capture"@,
        arguments[4]@ == "--output"@,
{
    ["--region", "--background", "--nonotify", "--release-capture", "--output"]
}

/// The bytes that every PNG file begins with.
pub open spec fn png_signature() -> Seq<u8> {
    seq![0x89u8, 0x50u8, 0x4eu8, 0x47u8, 0x0du8, 0x0au8, 0x1au8, 0x0au8]
}

/// Why a captured file is no picture.
pub open spec fn png_fault(bytes: Seq<u8>) -> Option<Seq<char>> {
    if bytes.len() <= png_signature().len() {
        Some("captured PNG is empty or truncated"@)
    } else if !png_signature().is_prefix_of(bytes) {
        Some("captured file does not have a PNG signature"@)
    } else {
        None
    }
}

/// Checks that a captured file begins as a PNG file and goes on.
pub fn validate_png(bytes: &[u8]) -> (checked: Result<(), AppError>)
    ensures
        match png_fault(bytes@) {
            None => checked is Ok,
            Some(fault) => checked matches Err(AppError::InvalidInput(reason)) && reason@ == fault,
        },
{
    let signature: [u8; 8] = [0x89, 0x50, 0x4e, 0x47, 0x0d, 0x0a, 0x1a, 0x0a];
    assert(signature@ =~= png_signature());
    if bytes.len() <= 8 {
        return Err(AppError::InvalidInput("captured PNG is empty or truncated".to_owned()));
    }
    for i in 0..8usize
        invariant
            signature@ == png_signature(),
            bytes@.len() > 8,
            forall|j: int| 0 <= j < i ==> bytes@[j] == signature@[j],
    {
        if bytes[i] != signature[i] {
            assert(!png_signature().is_prefix_of(bytes@)) by {
                if png_signature().is_prefix_of(bytes@) {
                    assert(bytes@.subrange(0, 8)[i as int] == png_signature()[i as int]);
                }
            }
            return Err(
                AppError::InvalidInput("captured file does not have a PNG signature".to_owned()),
            );
        }
    }
    assert(bytes@.subrange(0, 8) =~= png_signature());
    Ok(())
}

/// What is put on the clipboard.
#[derive(Debug)]
pub struct Clip {
    /// The content.
    pub content: Vec<u8>,
    /// Its media type.
    pub mime: String,
}

/// A content and its media type.
pub struct ClipView {
    /// The content.
    pub content: Seq<u8>,
    /// Its media type.
    pub mime: Seq<char>,
}

impl View for Clip {
    type V = ClipView;

    open spec fn view(&self) -> ClipView {
        ClipView { content: self.content@, mime: self.mime@ }
    }
}

/// A picture as it is put on the clipboard.
pub open spec fn png_clip(png: Seq<u8>) -> ClipView {
    ClipView { content: png, mime: "image/png"@ }
}

/// A text as it is put on the clipboard.
pub open spec fn text_clip(shown: Seq<char>) -> ClipView {
    ClipView { content: encode_utf8(shown), mime: "text/plain;charset=utf-8"@ }
}

/// Puts a picture on the clipboard.
pub fn copy_png(png: Vec<u8>) -> (clip: Clip)
    ensures
        clip@ == png_clip(png@),
{
    Clip { content: png, mime: "image/png".to_owned() }
}

/// Puts a text on the clipboard.
pub fn copy_text(shown: &str) -> (clip: Clip)
    ensures
        clip@ == text_clip(shown@),
{
    Clip { content: shown.as_bytes_vec(), mime: "text/plain;charset=utf-8".to_owned() }
}

/// The arguments that `wl-copy` is started with.
pub fn clipboard_arguments(clip: &Clip) -> (arguments: Vec<String>)
    ensures
        text::texts_view(arguments@) == seq!["--type"@, clip@.mime],
{
    let arguments: Vec<String> = vec!["--type".to_owned(), clip.mime.clone()];
    assert(text::texts_view(arguments@) =~= seq!["--type"@, clip@.mime]);
    arguments
}

/// What comes of `wl-copy` when it ended with a status.
pub fn clipboard_outcome(success: bool, status: &str) -> (outcome: Result<(), AppError>)
    ensures
        outcome is Ok <==> success,
        outcome matches Err(error) ==> (error matches AppError::Output(reason) && reason@
            == "wl-copy exited with "@ + status@),
{
    if success {
        Ok(())
    } else {
        Err(AppError::Output(text::concat("wl-copy exited with ", status)))
    }
}

/// What the user asked for.
#[derive(Debug)]
pub struct Request {
    /// Where the picture is to be kept, if it is.
    pub output: Option<String>,
    /// Whether its text is to be recognized.
    pub recognize: bool,
}

/// What is to be done next.
#[derive(Debug)]
pub enum Task {
    /// Look for Spectacle.
    FindSpectacle,
    /// Create a temporary directory; Spectacle is at this path.
    MakeTemporary(String),
    /// Start the program at the first path to capture to the second one.
    Shoot(String, String),
    /// Read the picture at this path.
    ReadImage(String),
    /// Recognize the text of the picture at this path.
    Recognize(String),
    /// Copy this to the clipboard; the text, if one was recognized, is to be shown as well.
    Copy(Clip, Option<String>),
}

/// What came of a task.
#[derive(Debug)]
pub enum Reply {
    /// A program was found at this path, or not.
    Program(Option<String>),
    /// A directory was created at this path.
    Directory(String),
    /// It could not be done, for the reason given.
    Failed(String),
    /// The program ended: whether there is a picture, whether it succeeded, and its status.
    Shot(bool, bool, String),
    /// The content of a file.
    Content(Vec<u8>),
    /// A recognized text.
    Text(String),
    /// It was done.
    Done,
    /// It ended with an error.
    Refused(AppError),
}

/// How a capture goes on.
#[derive(Debug)]
pub enum Progress {
    /// This is done next.
    Go(Task),
    /// It is finished, and these lines are to be shown.
    Finished(Vec<String>),
    /// It is given up.
    Stopped(AppError),
}

/// A view of how a capture goes on.
pub enum Stage {
    /// Look for Spectacle.
    FindSpectacle,
    /// Create a temporary directory.
    MakeTemporary(Seq<char>),
    /// Capture to a path.
    Shoot(Seq<char>, Seq<char>),
    /// Read the picture.
    ReadImage(Seq<char>),
    /// Recognize its text.
    Recognize(Seq<char>),
    /// Copy to the clipboard.
    Copy(ClipView, Option<Seq<char>>),
    /// The end, with the lines to show.
    Finished(Seq<Seq<char>>),
    /// The end, with a cancelled capture.
    Cancelled,
    /// The end, for want of a program.
    Missing(Seq<char>),
    /// The end, with an input that cannot be used.
    Invalid(Seq<char>),
    /// The end, with a result that could not be delivered.
    Undelivered(Seq<char>),
    /// The end, with an error of another part.
    Refused(AppError),
}

impl View for Task {
    type V = Stage;

    open spec fn view(&self) -> Stage {
        match self {
            Task::FindSpectacle => Stage::FindSpectacle,
            Task::MakeTemporary(program) => Stage::MakeTemporary(program@),
            Task::Shoot(program, place) => Stage::Shoot(program@, place@),
            Task::ReadImage(place) => Stage::ReadImage(place@),
            Task::Recognize(place) => Stage::Recognize(place@),
            Task::Copy(clip, shown) => Stage::Copy(clip@, text::optional_view(*shown)),
        }
    }
}

/// Whether `progress` is what a stage says.
pub open spec fn reaches(progress: Progress, stage: Stage) -> bool {
    match stage {
        Stage::Finished(lines) => progress matches Progress::Finished(shown) && text::texts_view(
            shown@,
        ) == lines,
        Stage::Cancelled => progress == Progress::Stopped(AppError::Cancelled),
        Stage::Missing(reason) => progress matches Progress::Stopped(
            AppError::MissingDependency(shown),
        ) && shown@ == reason,
        Stage::Invalid(reason) => progress matches Progress::Stopped(AppError::InvalidInput(shown))
            && shown@ == reason,
        Stage::Undelivered(reason) => progress matches Progress::Stopped(AppError::Output(shown))
            && shown@ == reason,
        Stage::Refused(error) => progress == Progress::Stopped(error),
        _ => progress matches Progress::Go(task) && task@ == stage,
    }
}

/// Whether a reply is one that the task can have.
pub open spec fn answers(task: Task, reply: Reply) -> bool {
    match task {
        Task::FindSpectacle => reply is Program,
        Task::MakeTemporary(_) => reply is Directory || reply is Failed,
        Task::Shoot(_, _) => reply is Shot || reply is Failed,
        Task::ReadImage(_) => reply is Content || reply is Failed,
        Task::Recognize(_) => reply is Text || reply is Refused,
        Task::Copy(_, _) => reply is Done || reply is Refused,
    }
}

/// Where the picture goes: to the place asked for, else into the temporary directory.
pub open spec fn picture_place(output: Option<Seq<char>>, directory: Seq<char>) -> Seq<char> {
    match output {
        Some(place) => place,
        None => path::joined_path(directory, "capture.png"@),
    }
}

/// What follows once Spectacle ended.
pub open spec fn after_shot(
    place: Seq<char>,
    has_picture: bool,
    success: bool,
    status: Seq<char>,
) -> Stage {
    if !has_picture && success {
        Stage::Cancelled
    } else if !has_picture {
        Stage::Undelivered(
            "Spectacle exited with "@ + status + " and produced no screenshot"@,
        )
    } else if !success {
        Stage::Undelivered("Spectacle exited with "@ + status)
    } else {
        Stage::ReadImage(place)
    }
}

/// What follows once the picture was read.
pub open spec fn after_content(place: Seq<char>, content: Seq<u8>, recognize: bool) -> Stage {
    match png_fault(content) {
        Some(fault) => Stage::Invalid(fault),
        None => if recognize {
            Stage::Recognize(place)
        } else {
            Stage::Copy(png_clip(content), None)
        },
    }
}

/// The lines to show in the end: the text, if one was recognized, and the place of the picture, if
/// one was asked for.
pub open spec fn final_lines(shown: Option<Seq<char>>, output: Option<Seq<char>>) -> Seq<Seq<char>> {
    let first = match shown {
        Some(shown) => seq![shown],
        None => Seq::empty(),
    };
    match output {
        Some(place) => first.push(place),
        None => first,
    }
}

/// The place that a task is about.
pub open spec fn task_place(task: Task) -> Seq<char> {
    match task {
        Task::Shoot(_, place) => place@,
        Task::ReadImage(place) => place@,
        _ => Seq::empty(),
    }
}

/// What follows a reply to a task.
pub open spec fn following(request: Request, task: Task, reply: Reply) -> Stage {
    let output = text::optional_view(request.output);
    match reply {
        Reply::Program(None) => Stage::Missing("spectacle"@ + " not found in PATH"@),
        Reply::Program(Some(program)) => Stage::MakeTemporary(program@),
        Reply::Directory(directory) => Stage::Shoot(
            task->MakeTemporary_0@,
            picture_place(output, directory@),
        ),
        Reply::Failed(reason) => match task {
            Task::MakeTemporary(_) => Stage::Undelivered(
                "could not create temporary directory"@ + ": "@ + reason@,
            ),
            Task::Shoot(_, _) => Stage::Undelivered(
                "could not start Spectacle"@ + ": "@ + reason@,
            ),
            _ => Stage::Invalid("could not read "@ + task_place(task) + ": "@ + reason@),
        },
        Reply::Shot(has_picture, success, status) => after_shot(
            task_place(task),
            has_picture,
            success,
            status@,
        ),
        Reply::Content(content) => after_content(task_place(task), content@, request.recognize),
        Reply::Text(shown) => Stage::Copy(text_clip(shown@), Some(shown@)),
        Reply::Done => Stage::Finished(final_lines(text::optional_view(task->Copy_1), output)),
        Reply::Refused(error) => Stage::Refused(error),
    }
}

/// Chooses where the picture goes.
fn choose_place(output: &Option<String>, directory: &str) -> (place: String)
    ensures
        place@ == picture_place(text::optional_view(*output), directory@),
{
    match output {
        Some(place) => place.clone(),
        None => path::join(directory, "capture.png"),
    }
}

/// Decides what follows once Spectacle ended.
fn judge_shot(place: String, has_picture: bool, success: bool, status: &str) -> (progress: Progress)
    ensures
        reaches(progress, after_shot(place@, has_picture, success, status@)),
{
    if !has_picture {
        if success {
            return Progress::Stopped(AppError::Cancelled);
        }
        return Progress::Stopped(
            AppError::Output(
                text::concat3(
                    "Spectacle exited with ",
                    status,
                    " and produced no screenshot",
                ),
            ),
        );
    }
    if !success {
        return Progress::Stopped(AppError::Output(text::concat("Spectacle exited with ", status)));
    }
    Progress::Go(Task::ReadImage(place))
}

/// Decides what follows once the picture was read.
fn judge_content(place: String, content: Vec<u8>, recognize: bool) -> (progress: Progress)
    ensures
        reaches(progress, after_content(place@, content@, recognize)),
{
    match validate_png(content.as_slice()) {
        Err(error) => Progress::Stopped(error),
        Ok(()) => if recognize {
            Progress::Go(Task::Recognize(place))
        } else {
            Progress::Go(Task::Copy(copy_png(content), None))
        },
    }
}

/// Lists what is shown in the end.
fn list_final(shown: Option<String>, output: &Option<String>) -> (lines: Vec<String>)
    ensures
        text::texts_view(lines@) == final_lines(
            text::optional_view(shown),
            text::optional_view(*output),
        ),
{
    let mut lines: Vec<String> = Vec::new();
    let ghost first = match text::optional_view(shown) {
        Some(shown) => seq![shown],
        None => Seq::<Seq<char>>::empty(),
    };
    if let Some(shown) = shown {
        lines.push(shown);
    }
    assert(text::texts_view(lines@) =~= first);
    if let Some(place) = output {
        let ghost before = lines@;
        let copy = place.clone();
        lines.push(copy);
        assert(text::texts_view(lines@) =~= text::texts_view(before).push(copy@));
    }
    lines
}

/// Decides what follows a reply to a task of a capture.
pub fn capture_step(request: &Request, task: Task, reply: Reply) -> (progress: Progress)
    requires
        answers(task, reply),
    ensures
        reaches(progress, following(*request, task, reply)),
{
    match (task, reply) {
        (_, Reply::Program(found)) => match cli::require_command("spectacle", found) {
            Ok(program) => Progress::Go(Task::MakeTemporary(program)),
            Err(error) => Progress::Stopped(error),
        },
        (Task::MakeTemporary(program), Reply::Directory(directory)) => Progress::Go(
            Task::Shoot(program, choose_place(&request.output, directory.as_str())),
        ),
        (Task::MakeTemporary(_), Reply::Failed(reason)) => Progress::Stopped(
            cli::output_error("could not create temporary directory", reason.as_str()),
        ),
        (Task::Shoot(_, _), Reply::Failed(reason)) => Progress::Stopped(
            cli::output_error("could not start Spectacle", reason.as_str()),
        ),
        (Task::ReadImage(place), Reply::Failed(reason)) => {
            let mut shown = text::concat3("could not read ", place.as_str(), ": ");
            text::push_text(&mut shown, reason.as_str());
            Progress::Stopped(AppError::InvalidInput(shown))
        },
        (Task::Shoot(_, place), Reply::Shot(has_picture, success, status)) => judge_shot(
            place,
            has_picture,
            success,
            status.as_str(),
        ),
        (Task::ReadImage(place), Reply::Content(content)) => judge_content(
            place,
            content,
            request.recognize,
        ),
        (_, Reply::Text(shown)) => {
            let clip = copy_text(shown.as_str());
            Progress::Go(Task::Copy(clip, Some(shown)))
        },
        (Task::Copy(_, shown), Reply::Done) => Progress::Finished(
            list_final(shown, &request.output),
        ),
        (_, Reply::Refused(error)) => Progress::Stopped(error),
        _ => Progress::Stopped(AppError::Cancelled),
    }
}

/// Whether a run of tasks with their replies is one of a capture.
pub open spec fn is_run(request: Request, run: Seq<(Task, Reply)>) -> bool {
    &&& run.len() > 0 ==> run[0].0@ == Stage::FindSpectacle
    &&& forall|i: int| 0 <= i < run.len() ==> answers((#[trigger] run[i]).0, run[i].1)
    &&& forall|i: int|
        0 <= i < run.len() - 1 ==> (#[trigger] run[i + 1]).0@ == following(
            request,
            run[i].0,
            run[i].1,
        )
}

/// Only what begins as a PNG file is copied as a picture, and only where no text is asked for;
/// where it is, what is copied is the recognized text.
pub proof fn law_only_valid_results_are_copied(request: Request, run: Seq<(Task, Reply)>, n: int)
    requires
        is_run(request, run),
        0 <= n < run.len(),
        run[n].0 is Copy,
    ensures
        n > 0,
        request.recognize ==> (run[n - 1].1 matches Reply::Text(shown) && run[n].0->Copy_0@
            == text_clip(shown@)),
        !request.recognize ==> (run[n - 1].1 matches Reply::Content(png) && png_fault(png@) is None
            && run[n].0->Copy_0@ == png_clip(png@)),
{
    assert(n > 0);
    let before = run[n - 1];
    assert(run[(n - 1) + 1].0@ == following(request, before.0, before.1));
    assert(answers(before.0, before.1));
    if before.1 is Text {
        assert(before.0 is Recognize);
        assert(n - 1 > 0);
        let earlier = run[n - 2];
        assert(run[(n - 2) + 1].0@ == following(request, earlier.0, earlier.1));
    }
}

/// A capture only finishes once something was copied.
pub proof fn law_finished_capture_copied(request: Request, run: Seq<(Task, Reply)>)
    requires
        is_run(request, run),
        run.len() > 0,
        following(request, run.last().0, run.last().1) is Finished,
    ensures
        run.last().0 is Copy,
        run.last().1 is Done,
{
    assert(answers(run[run.len() - 1].0, run[run.len() - 1].1));
}

/// A file is taken for a picture exactly if it begins with the eight bytes of a PNG file (a byte that
/// is not ASCII, the letters `PNG`, a carriage return, a line feed, an end-of-file mark and another
/// line feed) and goes on behind them.
pub proof fn law_picture_begins_as_png(bytes: Seq<u8>)
    ensures
        png_fault(bytes) is None <==> {
            &&& bytes.len() > 8
            &&& bytes[0] == 137 && bytes[1] == 'P' as u8 && bytes[2] == 'N' as u8 && bytes[3]
                == 'G' as u8
            &&& bytes[4] == 13 && bytes[5] == 10 && bytes[6] == 26 && bytes[7] == 10
        },
{
    let signature = png_signature();
    if bytes.len() > 8 {
        if signature.is_prefix_of(bytes) {
            let start = bytes.subrange(0, 8);
            assert(start == signature);
            assert(bytes[0] == start[0] && bytes[1] == start[1] && bytes[2] == start[2] && bytes[3]
                == start[3] && bytes[4] == start[4] && bytes[5] == start[5] && bytes[6] == start[6]
                && bytes[7] == start[7]);
        }
        if bytes[0] == 137 && bytes[1] == 'P' as u8 && bytes[2] == 'N' as u8 && bytes[3]
            == 'G' as u8 && bytes[4] == 13 && bytes[5] == 10 && bytes[6] == 26 && bytes[7] == 10 {
            assert(bytes.subrange(0, 8) =~= signature);
        }
    }
}

/// A picture is copied byte for byte and a text as UTF-8, each with its own media type.
pub proof fn law_clips_hold_what_is_copied(png: Seq<u8>, shown: Seq<char>)
    ensures
        png_clip(png).content == png && png_clip(png).mime == "image/png"@,
        text_clip(shown).content == encode_utf8(shown) && text_clip(shown).mime
            == "text/plain;charset=utf-8"@,
{
}

/// What is shown in the end is the text, if one was recognized, and then the place of the picture,
/// if one was asked for.
pub proof fn law_text_is_shown_before_the_place(shown: Seq<char>, place: Seq<char>)
    ensures
        final_lines(None, None).len() == 0,
        final_lines(Some(shown), None) == seq![shown],
        final_lines(None, Some(place)) == seq![place],
        final_lines(Some(shown), Some(place)) == seq![shown, place],
{
    assert(Seq::<Seq<char>>::empty().push(place) == seq![place]);
    assert(seq![shown].push(place) == seq![shown, place]);
}

/// A capture goes on exactly if there is a picture and Spectacle succeeded; without a picture it was
/// cancelled where Spectacle succeeded, and failed where it did not.
pub proof fn law_capture_needs_a_picture(
    place: Seq<char>,
    has_picture: bool,
    success: bool,
    status: Seq<char>,
)
    ensures
        has_picture && success ==> after_shot(place, has_picture, success, status)
            == Stage::ReadImage(place),
        !has_picture && success <==> after_shot(place, has_picture, success, status) is Cancelled,
        !success <==> after_shot(place, has_picture, success, status) is Undelivered,
{
}

/// The picture goes where it is asked to, else into the temporary directory.
pub proof fn law_picture_goes_where_it_is_asked_to(place: Seq<char>, directory: Seq<char>)
    ensures
        picture_place(Some(place), directory) == place,
        picture_place(None, directory) == path::joined_path(directory, "capture.png"@),
{
}

/// A picture that was read is recognized where its text is asked for and copied where it is not,
/// unless it is no picture.
pub proof fn law_picture_is_recognized_or_copied(
    place: Seq<char>,
    content: Seq<u8>,
    recognize: bool,
)
    ensures
        png_fault(content) is None && recognize ==> after_content(place, content, recognize)
            == Stage::Recognize(place),
        png_fault(content) is None && !recognize ==> after_content(place, content, recognize)
            == Stage::Copy(png_clip(content), None),
        png_fault(content) is Some <==> after_content(place, content, recognize) is Invalid,
{
}

proof fn lemma_run_step(request: Request, run: Seq<(Task, Reply)>, i: int)
    requires
        is_run(request, run),
        0 <= i < run.len(),
    ensures
        answers(run[i].0, run[i].1),
        i + 1 < run.len() ==> run[i + 1].0@ == following(request, run[i].0, run[i].1),
{
}

/// A capture that finishes went through all of its steps, each once and in this order: Spectacle was
/// found, a temporary directory made, the picture taken and read, its text recognized where that was
/// asked for, and the result copied. The picture was read, and recognized, where it was taken to.
pub proof fn law_finished_capture_took_every_step(request: Request, run: Seq<(Task, Reply)>)
    requires
        is_run(request, run),
        run.len() > 0,
        following(request, run.last().0, run.last().1) is Finished,
    ensures
        run.len() == (if request.recognize {
            6int
        } else {
            5
        }),
        run[0].0 is FindSpectacle && run[1].0 is MakeTemporary && run[2].0 is Shoot
            && run[3].0 is ReadImage,
        request.recognize ==> run[4].0 is Recognize && run[5].0 is Copy,
        !request.recognize ==> run[4].0 is Copy,
        run[3].0->ReadImage_0@ == run[2].0->Shoot_1@,
        request.recognize ==> run[4].0->Recognize_0@ == run[2].0->Shoot_1@,
        run[1].1 is Directory,
        run[2].0->Shoot_1@ == picture_place(
            text::optional_view(request.output),
            run[1].1->Directory_0@,
        ),
{
    let n = run.len() as int;
    assert(run[n - 1] == run.last());
    lemma_run_step(request, run, 0);
    if n > 1 {
        lemma_run_step(request, run, 1);
    }
    if n > 2 {
        lemma_run_step(request, run, 2);
    }
    if n > 3 {
        lemma_run_step(request, run, 3);
    }
    if n > 4 {
        lemma_run_step(request, run, 4);
    }
    if n > 5 {
        lemma_run_step(request, run, 5);
    }
    if n > 6 {
        lemma_run_step(request, run, 6);
    }
}

/// What is shown once a capture finished is the recognized text, exactly if one was asked for, and
/// the place of the picture, exactly if that was.
pub proof fn law_finished_capture_shows_its_results(request: Request, run: Seq<(Task, Reply)>)
    requires
        is_run(request, run),
        run.len() > 0,
        following(request, run.last().0, run.last().1) is Finished,
    ensures
        ({
            let lines = following(request, run.last().0, run.last().1)->Finished_0;
            let output = text::optional_view(request.output);
            &&& request.recognize ==> run[4].1 is Text && lines.len() > 0 && lines[0]
                == run[4].1->Text_0@
            &&& output matches Some(place) ==> lines.len() > 0 && lines[lines.len() - 1] == place
            &&& lines.len() == (if request.recognize {
                1int
            } else {
                0
            }) + (if output is Some {
                1int
            } else {
                0
            })
        }),
{
    law_finished_capture_took_every_step(request, run);
    lemma_run_step(request, run, 3);
    lemma_run_step(request, run, 4);
    if request.recognize {
        lemma_run_step(request, run, 5);
    }
}

/// A stage is reached by the progress of its kind: an end with success by the lines to show, an end
/// with an error by that error, and any other by the task of that name.
pub proof fn law_stage_is_reached_by_its_progress(progress: Progress, stage: Stage)
    requires
        reaches(progress, stage),
    ensures
        progress is Finished <==> stage is Finished,
        progress is Go ==> stage == progress->Go_0@,
        progress is Stopped <==> stage is Cancelled || stage is Missing || stage is Invalid
            || stage is Undelivered || stage is Refused,
        stage matches Stage::Finished(lines) ==> text::texts_view(progress->Finished_0@) == lines,
        stage is Cancelled ==> progress->Stopped_0 is Cancelled,
        stage matches Stage::Missing(reason) ==> (progress->Stopped_0 matches
            AppError::MissingDependency(shown) && shown@ == reason),
        stage matches Stage::Invalid(reason) ==> (progress->Stopped_0 matches AppError::InvalidInput(
            shown,
        ) && shown@ == reason),
        stage matches Stage::Undelivered(reason) ==> (progress->Stopped_0 matches AppError::Output(
            shown,
        ) && shown@ == reason),
        stage matches Stage::Refused(error) ==> progress->Stopped_0 == error,
{
}

/// A task is viewed with the program, the place, the content and the text that it is about.
pub proof fn law_view_keeps_tasks(program: String, place: String, clip: Clip, shown: String)
    ensures
        Task::FindSpectacle@ is FindSpectacle,
        Task::MakeTemporary(program)@ == Stage::MakeTemporary(program@),
        Task::Shoot(program, place)@ == Stage::Shoot(program@, place@),
        Task::ReadImage(place)@ == Stage::ReadImage(place@),
        Task::Recognize(place)@ == Stage::Recognize(place@),
        Task::Copy(clip, Some(shown))@ == Stage::Copy(clip@, Some(shown@)),
        Task::Copy(clip, None)@ == Stage::Copy(clip@, None),
        clip@.content == clip.content@ && clip@.mime == clip.mime@,
{
}

/// Whatever fails ends a capture: a program that is missing, a directory that cannot be made, a
/// program that cannot be started, a picture that cannot be read, and an error of another part.
pub proof fn law_failure_ends_the_capture(request: Request, task: Task, reply: Reply)
    requires
        answers(task, reply),
    ensures
        reply == Reply::Program(None) ==> following(request, task, reply) is Missing,
        reply is Failed && (task is MakeTemporary || task is Shoot) ==> following(
            request,
            task,
            reply,
        ) is Undelivered,
        reply is Failed && task is ReadImage ==> following(request, task, reply) is Invalid,
        reply matches Reply::Refused(error) ==> following(request, task, reply) == Stage::Refused(
            error,
        ),
        reply matches Reply::Text(shown) ==> following(request, task, reply) == Stage::Copy(
            text_clip(shown@),
            Some(shown@),
        ),
        reply matches Reply::Program(Some(program)) ==> following(request, task, reply)
            == Stage::MakeTemporary(program@),
        reply matches Reply::Directory(directory) ==> following(request, task, reply)
            == Stage::Shoot(
            task->MakeTemporary_0@,
            picture_place(text::optional_view(request.output), directory@),
        ),
{
}

} // verus!
