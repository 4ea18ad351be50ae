//! The command line program: its errors, its exit codes and what it says.
pub mod capture;
pub mod doctor;

use crate::keyboard::KeyboardError;
use crate::models::ModelError;
use crate::ocr::OcrError;
use crate::text;
use vstd::prelude::*;

verus! {

/// Exit code of success.
pub const EXIT_OK: u8 = 0;

/// Exit code of a capture that was cancelled.
pub const EXIT_CANCELLED: u8 = 2;

/// Exit code where a program or library is missing.
pub const EXIT_MISSING_DEPENDENCY: u8 = 3;

/// Exit code where an input or a model cannot be used.
pub const EXIT_INVALID_INPUT: u8 = 4;

/// Exit code of a failed recognition.
pub const EXIT_OCR: u8 = 5;

/// Exit code where a result cannot be delivered.
pub const EXIT_OUTPUT: u8 = 6;

/// What can go wrong in the program.
#[derive(Debug)]
pub enum AppError {
    /// The capture was cancelled.
    Cancelled,
    /// A program or library is missing.
    MissingDependency(String),
    /// An input cannot be used.
    InvalidInput(String),
    /// A command on models failed.
    Model(ModelError),
    /// The configuration could not be edited.
    Config(ModelError),
    /// Recognition failed.
    Ocr(OcrError),
    /// The shortcut daemon failed.
    Keyboard(KeyboardError),
    /// A result could not be delivered.
    Output(String),
}

impl AppError {
    /// The error as it is shown.
    pub open spec fn text(self) -> Seq<char> {
        match self {
            AppError::Cancelled => "Capture cancelled"@,
            AppError::MissingDependency(reason) => "Missing dependency: "@ + reason@,
            AppError::InvalidInput(reason) => "Invalid input: "@ + reason@,
            AppError::Model(error) => "Model failed: "@ + error.text(),
            AppError::Config(error) => "Config failed: "@ + error.text(),
            AppError::Ocr(error) => "OCR failed: "@ + error.text(),
            AppError::Keyboard(error) => "Keyboard failed: "@ + error.text(),
            AppError::Output(reason) => "Output failed: "@ + reason@,
        }
    }

    /// The error as it is shown.
    pub fn message(&self) -> (message: String)
        ensures
            message@ == self.text(),
    {
        match self {
            AppError::Cancelled => "Capture cancelled".to_owned(),
            AppError::MissingDependency(reason) => text::concat(
                "Missing dependency: ",
                reason.as_str(),
            ),
            AppError::InvalidInput(reason) => text::concat("Invalid input: ", reason.as_str()),
            AppError::Model(error) => text::concat("Model failed: ", error.message().as_str()),
            AppError::Config(error) => text::concat("Config failed: ", error.message().as_str()),
            AppError::Ocr(error) => text::concat("OCR failed: ", error.message().as_str()),
            AppError::Keyboard(error) => text::concat(
                "Keyboard failed: ",
                error.message().as_str(),
            ),
            AppError::Output(reason) => text::concat("Output failed: ", reason.as_str()),
        }
    }
}

/// The exit code for an error.
pub open spec fn exit_code(error: AppError) -> u8 {
    match error {
        AppError::Cancelled => EXIT_CANCELLED,
        AppError::MissingDependency(_) => EXIT_MISSING_DEPENDENCY,
        AppError::InvalidInput(_) | AppError::Model(_) => EXIT_INVALID_INPUT,
        AppError::Config(_) => EXIT_OUTPUT,
        AppError::Ocr(_) => EXIT_OCR,
        AppError::Keyboard(_) | AppError::Output(_) => EXIT_OUTPUT,
    }
}

/// The exit code for an error.
pub fn error_code(error: &AppError) -> (code: u8)
    ensures
        code == exit_code(*error),
{
    match error {
        AppError::Cancelled => EXIT_CANCELLED,
        AppError::MissingDependency(_) => EXIT_MISSING_DEPENDENCY,
        AppError::InvalidInput(_) | AppError::Model(_) => EXIT_INVALID_INPUT,
        AppError::Config(_) => EXIT_OUTPUT,
        AppError::Ocr(_) => EXIT_OCR,
        AppError::Keyboard(_) | AppError::Output(_) => EXIT_OUTPUT,
    }
}

/// A text between the terminal codes for red and for no color.
pub open spec fn in_red(shown: Seq<char>) -> Seq<char> {
    "\x1b[31m"@ + shown + "\x1b[0m"@
}

/// Makes a text red.
pub fn red(shown: &str) -> (colored: String)
    ensures
        colored@ == in_red(shown@),
{
    text::concat3("\x1b[31m", shown, "\x1b[0m")
}

/// What is said of an error: nothing of a cancelled capture, the errors of models, recognition and
/// shortcuts in red, others behind the program's name.
pub open spec fn error_report(error: AppError) -> Option<Seq<char>> {
    match error {
        AppError::Cancelled => None,
        AppError::Model(_)
        | AppError::Config(_)
        | AppError::Ocr(_)
        | AppError::Keyboard(_) => Some(in_red(error.text())),
        _ => Some("kocr: "@ + error.text()),
    }
}

/// What is said of an error.
pub fn report(error: &AppError) -> (shown: Option<String>)
    ensures
        text::optional_view(shown) == error_report(*error),
{
    match error {
        AppError::Cancelled => None,
        AppError::Model(_)
        | AppError::Config(_)
        | AppError::Ocr(_)
        | AppError::Keyboard(_) => Some(red(error.message().as_str())),
        _ => Some(text::concat("kocr: ", error.message().as_str())),
    }
}

/// Every error ends the program with an exit code other than that of success, and a cancelled
/// capture is the only one of which nothing is said.
pub proof fn law_errors_do_not_exit_with_success(error: AppError)
    ensures
        exit_code(error) != EXIT_OK,
        error_report(error) is None <==> error is Cancelled,
        exit_code(error) == EXIT_CANCELLED <==> error is Cancelled,
{
}

/// The error for a result that could not be delivered: what was tried, then why it failed.
pub fn output_error(context: &str, error: &str) -> (failure: AppError)
    ensures
        failure matches AppError::Output(reason) && reason@ == context@ + ": "@ + error@,
{
    AppError::Output(text::concat3(context, ": ", error))
}

/// Takes the place where a program was found, or the error for a program that was not.
pub fn require_command(name: &str, found: Option<String>) -> (place: Result<String, AppError>)
    ensures
        match found {
            Some(path) => place == Ok::<String, AppError>(path),
            None => place matches Err(AppError::MissingDependency(reason)) && reason@ == name@
                + " not found in PATH"@,
        },
{
    match found {
        Some(path) => Ok(path),
        None => Err(AppError::MissingDependency(text::concat(name, " not found in PATH"))),
    }
}

/// A script can tell from the exit code what went wrong: 2 for a cancelled capture, 3 for something
/// that is missing, 4 for an input or a model that cannot be used, 5 for a failed recognition, and 6
/// for everything that could not be delivered or set up.
pub proof fn law_exit_codes(error: AppError)
    ensures
        exit_code(error) == 2 <==> error is Cancelled,
        exit_code(error) == 3 <==> error is MissingDependency,
        exit_code(error) == 4 <==> error is InvalidInput || error is Model,
        exit_code(error) == 5 <==> error is Ocr,
        exit_code(error) == 6 <==> error is Config || error is Keyboard || error is Output,
        EXIT_OK == 0,
{
}

/// What is said of an error names it, in red where a model, the configuration, recognition or the
/// shortcuts are at fault, and behind the name of the program in all other cases.
pub proof fn law_report_names_the_error(error: AppError)
    ensures
        error is Model || error is Config || error is Ocr || error is Keyboard ==> error_report(error)
            == Some("\x1b[31m"@ + error.text() + "\x1b[0m"@),
        error is MissingDependency || error is InvalidInput || error is Output ==> error_report(error)
            == Some("kocr: "@ + error.text()),
        error is Cancelled ==> error_report(error) is None,
{
}

/// The text of an error says of what kind it is, and then its reason.
pub proof fn law_error_text_names_kind_and_reason(error: AppError)
    ensures
        error is Cancelled ==> error.text() == "Capture cancelled"@,
        error matches AppError::MissingDependency(reason) ==> error.text() == "Missing dependency: "@
            + reason@,
        error matches AppError::InvalidInput(reason) ==> error.text() == "Invalid input: "@ + reason@,
        error matches AppError::Output(reason) ==> error.text() == "Output failed: "@ + reason@,
        error matches AppError::Model(inner) ==> error.text() == "Model failed: "@ + inner.text(),
        error matches AppError::Config(inner) ==> error.text() == "Config failed: "@ + inner.text(),
        error matches AppError::Ocr(inner) ==> error.text() == "OCR failed: "@ + inner.text(),
        error matches AppError::Keyboard(inner) ==> error.text() == "Keyboard failed: "@
            + inner.text(),
{
}

} // verus!
