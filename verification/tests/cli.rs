use kdeocr::cli::capture::{
    capture_step, clipboard_arguments, clipboard_outcome, copy_png, copy_text, spectacle_args,
    validate_png, Progress, Reply, Request, Task,
};
use kdeocr::cli::doctor::{
    command_check, contains_bytes, examine, model_dir_check, runtime_check, show_check,
};
use kdeocr::cli::{
    error_code, output_error, red, report, require_command, AppError, EXIT_CANCELLED,
    EXIT_INVALID_INPUT, EXIT_MISSING_DEPENDENCY, EXIT_OCR, EXIT_OUTPUT,
};
use kdeocr::keyboard::KeyboardError;
use kdeocr::models::ModelError;
use kdeocr::ocr::OcrError;

#[test]
fn accepts_png() {
    assert!(validate_png(b"\x89PNG\r\n\x1a\npayload").is_ok());
}

#[test]
fn rejects_short_png() {
    assert!(validate_png(b"\x89PNG\r\n\x1a\n").is_err());
}

#[test]
fn uses_release_capture() {
    assert!(spectacle_args().contains(&"--release-capture"));
}

#[test]
fn png_errors() {
    assert_eq!(
        validate_png(b"").unwrap_err().message(),
        "Invalid input: captured PNG is empty or truncated"
    );
    assert_eq!(
        validate_png(b"\x89PNG\r\n\x1a\rpayload").unwrap_err().message(),
        "Invalid input: captured file does not have a PNG signature"
    );
    assert_eq!(
        spectacle_args(),
        ["--region", "--background", "--nonotify", "--release-capture", "--output"]
    );
}

fn errors() -> Vec<(AppError, &'static str, u8)> {
    let model = || ModelError::Operation("m".to_owned());
    vec![
        (AppError::Cancelled, "Capture cancelled", EXIT_CANCELLED),
        (
            AppError::MissingDependency("d".to_owned()),
            "Missing dependency: d",
            EXIT_MISSING_DEPENDENCY,
        ),
        (
            AppError::InvalidInput("i".to_owned()),
            "Invalid input: i",
            EXIT_INVALID_INPUT,
        ),
        (AppError::Model(model()), "Model failed: m", EXIT_INVALID_INPUT),
        (
            AppError::Model(ModelError::Index("x".to_owned())),
            "Model failed: x",
            EXIT_INVALID_INPUT,
        ),
        (AppError::Config(model()), "Config failed: m", EXIT_OUTPUT),
        (
            AppError::Ocr(OcrError::Runtime("r".to_owned())),
            "OCR failed: ONNX Runtime error: r",
            EXIT_OCR,
        ),
        (
            AppError::Keyboard(KeyboardError::Operation("k".to_owned())),
            "Keyboard failed: k",
            EXIT_OUTPUT,
        ),
        (AppError::Output("o".to_owned()), "Output failed: o", EXIT_OUTPUT),
    ]
}

#[test]
fn errors_have_texts_and_codes() {
    for (error, text, code) in errors() {
        assert_eq!(error.message(), text);
        assert_eq!(error_code(&error), code);
        assert_ne!(code, 0);
    }
}

#[test]
fn errors_are_reported() {
    for (error, text, _) in errors() {
        let expected = match &error {
            AppError::Cancelled => None,
            AppError::Model(_)
            | AppError::Config(_)
            | AppError::Ocr(_)
            | AppError::Keyboard(_) => Some(format!("\u{1b}[31m{text}\u{1b}[0m")),
            _ => Some(format!("kocr: {text}")),
        };
        assert_eq!(report(&error), expected);
    }
    assert_eq!(red("x"), "\u{1b}[31mx\u{1b}[0m");
    assert_eq!(output_error("a", "b").message(), "Output failed: a: b");
}

#[test]
fn commands_are_required() {
    assert_eq!(
        require_command("curl", Some("/bin/curl".to_owned())).unwrap(),
        "/bin/curl"
    );
    assert_eq!(
        require_command("curl", None).unwrap_err().message(),
        "Missing dependency: curl not found in PATH"
    );
}

#[test]
fn clips_have_media_types() {
    let clip = copy_png(vec![1, 2]);
    assert_eq!(clip.content, vec![1, 2]);
    assert_eq!(clipboard_arguments(&clip), vec!["--type", "image/png"]);
    let clip = copy_text("né");
    assert_eq!(clip.content, "né".as_bytes());
    assert_eq!(
        clipboard_arguments(&clip),
        vec!["--type", "text/plain;charset=utf-8"]
    );
    assert!(clipboard_outcome(true, "exit status: 0").is_ok());
    assert_eq!(
        clipboard_outcome(false, "exit status: 1").unwrap_err().message(),
        "Output failed: wl-copy exited with exit status: 1"
    );
}

const PNG: &[u8] = b"\x89PNG\r\n\x1a\npayload";

fn request(output: Option<&str>, recognize: bool) -> Request {
    Request {
        output: output.map(str::to_owned),
        recognize,
    }
}

fn go(request: &Request, task: Task, reply: Reply) -> Task {
    match capture_step(request, task, reply) {
        Progress::Go(task) => task,
        other => panic!("{other:?}"),
    }
}

fn stop(request: &Request, task: Task, reply: Reply) -> AppError {
    match capture_step(request, task, reply) {
        Progress::Stopped(error) => error,
        other => panic!("{other:?}"),
    }
}

fn shot(request: &Request) -> Task {
    let task = go(
        request,
        Task::FindSpectacle,
        Reply::Program(Some("/bin/spectacle".to_owned())),
    );
    go(request, task, Reply::Directory("/tmp/x".to_owned()))
}

#[test]
fn capture_copies_picture() {
    let request = request(None, false);
    let task = shot(&request);
    assert!(matches!(&task, Task::Shoot(program, place)
        if program == "/bin/spectacle" && place == "/tmp/x/capture.png"));
    let task = go(&request, task, Reply::Shot(true, true, String::new()));
    let task = go(&request, task, Reply::Content(PNG.to_vec()));
    assert!(matches!(&task, Task::Copy(clip, None)
        if clip.content == PNG && clip.mime == "image/png"));
    let Progress::Finished(lines) = capture_step(&request, task, Reply::Done) else {
        panic!("expected the end");
    };
    assert!(lines.is_empty());
}

#[test]
fn capture_copies_text() {
    let request = request(Some("/home/user/shot.png"), true);
    let task = shot(&request);
    let task = go(&request, task, Reply::Shot(true, true, String::new()));
    assert!(matches!(&task, Task::ReadImage(place) if place == "/home/user/shot.png"));
    let task = go(&request, task, Reply::Content(PNG.to_vec()));
    assert!(matches!(&task, Task::Recognize(place) if place == "/home/user/shot.png"));
    let task = go(&request, task, Reply::Text("words".to_owned()));
    assert!(matches!(&task, Task::Copy(clip, Some(text))
        if clip.content == b"words" && text == "words"));
    let Progress::Finished(lines) = capture_step(&request, task, Reply::Done) else {
        panic!("expected the end");
    };
    assert_eq!(lines, vec!["words", "/home/user/shot.png"]);
}

#[test]
fn capture_stops_on_failure() {
    let request = request(None, true);
    let status = || "exit status: 1".to_owned();
    assert_eq!(
        stop(&request, Task::FindSpectacle, Reply::Program(None)).message(),
        "Missing dependency: spectacle not found in PATH"
    );
    assert_eq!(
        stop(
            &request,
            Task::MakeTemporary("s".to_owned()),
            Reply::Failed("full".to_owned())
        )
        .message(),
        "Output failed: could not create temporary directory: full"
    );
    let shoot = || Task::Shoot("s".to_owned(), "/p.png".to_owned());
    assert_eq!(
        stop(&request, shoot(), Reply::Failed("gone".to_owned())).message(),
        "Output failed: could not start Spectacle: gone"
    );
    assert!(matches!(
        stop(&request, shoot(), Reply::Shot(false, true, status())),
        AppError::Cancelled
    ));
    assert_eq!(
        stop(&request, shoot(), Reply::Shot(false, false, status())).message(),
        "Output failed: Spectacle exited with exit status: 1 and produced no screenshot"
    );
    assert_eq!(
        stop(&request, shoot(), Reply::Shot(true, false, status())).message(),
        "Output failed: Spectacle exited with exit status: 1"
    );
    let read = || Task::ReadImage("/p.png".to_owned());
    assert_eq!(
        stop(&request, read(), Reply::Failed("gone".to_owned())).message(),
        "Invalid input: could not read /p.png: gone"
    );
    assert_eq!(
        stop(&request, read(), Reply::Content(vec![])).message(),
        "Invalid input: captured PNG is empty or truncated"
    );
    let refused = AppError::Ocr(OcrError::Image("bad".to_owned()));
    assert_eq!(
        stop(
            &request,
            Task::Recognize("/p.png".to_owned()),
            Reply::Refused(refused)
        )
        .message(),
        "OCR failed: input image is invalid: bad"
    );
    assert_eq!(
        stop(
            &request,
            Task::Copy(copy_text("x"), None),
            Reply::Refused(AppError::Output("o".to_owned()))
        )
        .message(),
        "Output failed: o"
    );
}

#[test]
fn checks_are_made() {
    let check = command_check("curl", Some("/bin/curl".to_owned()));
    assert!(check.ok);
    assert_eq!(show_check(&check), "[ok] curl         /bin/curl");
    let check = command_check("notify-send", None);
    assert_eq!(
        show_check(&check),
        "[missing] notify-send  not found in PATH"
    );
    let printed = b"\tlibonnxruntime.so.1 (libc6,x86-64) => /usr/lib\xff\n".to_vec();
    let check = runtime_check(Some(printed));
    assert_eq!(
        show_check(&check),
        "[ok] onnxruntime  libonnxruntime.so is registered with ldconfig"
    );
    assert!(!runtime_check(None).ok);
    assert_eq!(
        runtime_check(Some(b"libonnx".to_vec())).detail,
        "libonnxruntime.so was not found in the system library cache"
    );
    assert_eq!(model_dir_check("/m", true).detail, "/m");
    assert_eq!(
        model_dir_check("/m", false).detail,
        "/m (created by model setup)"
    );
    let long = command_check("a-very-long-name", None);
    assert_eq!(
        show_check(&long),
        "[missing] a-very-long-name not found in PATH"
    );
}

#[test]
fn bytes_are_found() {
    assert!(contains_bytes(b"abcabd", b"abd"));
    assert!(contains_bytes(b"abc", b""));
    assert!(contains_bytes(b"", b""));
    assert!(!contains_bytes(b"ab", b"abc"));
    assert!(!contains_bytes(b"aabbcc", b"abc"));
}

#[test]
fn environment_is_examined() {
    let (lines, outcome) = examine(&vec![model_dir_check("/m", true)]);
    assert!(outcome.is_ok());
    assert_eq!(
        lines,
        vec!["[ok] model-dir    /m", "Environment check passed."]
    );
    let (lines, outcome) = examine(&vec![
        command_check("curl", None),
        model_dir_check("/m", true),
    ]);
    assert_eq!(lines.len(), 2);
    assert_eq!(
        outcome.unwrap_err().message(),
        "Missing dependency: Environment check failed; install the missing dependencies and retry"
    );
}
