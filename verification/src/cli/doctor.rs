//! Checking that everything the program needs is there.
use crate::cli::AppError;
use crate::models::list;
use crate::text;
use vstd::prelude::*;
use vstd::string::*;
use vstd::utf8::*;

verus! {

/// A check and what came of it.
#[derive(Debug)]
pub struct Check {
    /// What was checked.
    pub name: String,
    /// Whether it is there.
    pub ok: bool,
    /// Where it is, or what is missing.
    pub detail: String,
}

/// A check and what came of it.
pub struct CheckView {
    /// What was checked.
    pub name: Seq<char>,
    /// Whether it is there.
    pub ok: bool,
    /// Where it is, or what is missing.
    pub detail: Seq<char>,
}

impl View for Check {
    type V = CheckView;

    open spec fn view(&self) -> CheckView {
        CheckView { name: self.name@, ok: self.ok, detail: self.detail@ }
    }
}

/// Checks a program, told where it was found.
pub fn command_check(name: &str, found: Option<String>) -> (check: Check)
    ensures
        check@ == (CheckView {
            name: name@,
            ok: found is Some,
            detail: match text::optional_view(found) {
                Some(place) => place,
                None => "not found in PATH"@,
            },
        }),
{
    match found {
        Some(place) => Check { name: name.to_owned(), ok: true, detail: place },
        None => Check { name: name.to_owned(), ok: false, detail: "not found in PATH".to_owned() },
    }
}

/// Whether some bytes hold others, one after the other.
pub open spec fn holds_bytes(bytes: Seq<u8>, wanted: Seq<u8>) -> bool {
    exists|i: int| #[trigger] holds_at(bytes, wanted, i)
}

/// Whether some bytes hold others at a place.
pub open spec fn holds_at(bytes: Seq<u8>, wanted: Seq<u8>, at: int) -> bool {
    0 <= at <= bytes.len() - wanted.len() && bytes.subrange(at, at + wanted.len()) == wanted
}

/// Whether some bytes hold others at a place.
fn found_at(bytes: &[u8], wanted: &[u8], at: usize) -> (found: bool)
    requires
        at + wanted@.len() <= bytes@.len(),
    ensures
        found == holds_at(bytes@, wanted@, at as int),
{
    let size: usize = bytes.len();
    for k in 0..wanted.len()
        invariant
            size == bytes@.len(),
            at + wanted@.len() <= size,
            forall|j: int| 0 <= j < k ==> bytes@[at + j] == wanted@[j],
    {
        if bytes[at + k] != wanted[k] {
            assert(bytes@.subrange(at as int, at + wanted@.len())[k as int] != wanted@[k as int]);
            return false;
        }
    }
    assert(bytes@.subrange(at as int, at + wanted@.len()) =~= wanted@);
    true
}

/// Whether some bytes hold others.
pub fn contains_bytes(bytes: &[u8], wanted: &[u8]) -> (found: bool)
    ensures
        found == holds_bytes(bytes@, wanted@),
{
    if wanted.len() > bytes.len() {
        assert(!holds_bytes(bytes@, wanted@));
        return false;
    }
    let places: usize = bytes.len() - wanted.len();
    let mut at: usize = 0;
    while at <= places
        invariant
            places == bytes@.len() - wanted@.len(),
            at <= places + 1,
            forall|i: int| 0 <= i < at ==> !#[trigger] holds_at(bytes@, wanted@, i),
        decreases places + 1 - at,
    {
        if found_at(bytes, wanted, at) {
            return true;
        }
        if at == places {
            assert(!holds_bytes(bytes@, wanted@));
            return false;
        }
        at += 1;
    }
    false
}

/// Checks the inference runtime, given what `ldconfig` printed, if it ran.
pub fn runtime_check(printed: Option<Vec<u8>>) -> (check: Check)
    ensures
        ({
            let found = printed matches Some(bytes) && holds_bytes(
                bytes@,
                encode_utf8("libonnxruntime.so"@),
            );
            check@ == (CheckView {
                name: "onnxruntime"@,
                ok: found,
                detail: if found {
                    "libonnxruntime.so is registered with ldconfig"@
                } else {
                    "libonnxruntime.so was not found in the system library cache"@
                },
            })
        }),
{
    let found = match printed {
        Some(bytes) => contains_bytes(bytes.as_slice(), "libonnxruntime.so".as_bytes()),
        None => false,
    };
    let detail = if found {
        "libonnxruntime.so is registered with ldconfig".to_owned()
    } else {
        "libonnxruntime.so was not found in the system library cache".to_owned()
    };
    Check { name: "onnxruntime".to_owned(), ok: found, detail }
}

/// Checks the directory of the models.
pub fn model_dir_check(directory: &str, is_directory: bool) -> (check: Check)
    ensures
        check@ == (CheckView {
            name: "model-dir"@,
            ok: is_directory,
            detail: if is_directory {
                directory@
            } else {
                directory@ + " (created by model setup)"@
            },
        }),
{
    let detail = if is_directory {
        directory.to_owned()
    } else {
        text::concat(directory, " (created by model setup)")
    };
    Check { name: "model-dir".to_owned(), ok: is_directory, detail }
}

/// A text at the left end of a field that is at least `width` characters wide.
pub open spec fn left_aligned(s: Seq<char>, width: int) -> Seq<char> {
    s + list::spaces(width - s.len())
}

/// A check as it is shown.
pub open spec fn check_line(check: CheckView) -> Seq<char> {
    "["@ + (if check.ok {
        "ok"@
    } else {
        "missing"@
    }) + "] "@ + left_aligned(check.name, 12) + " "@ + check.detail
}

/// Shows a check.
pub fn show_check(check: &Check) -> (line: String)
    ensures
        line@ == check_line(check@),
{
    let state = if check.ok {
        "ok"
    } else {
        "missing"
    };
    let mut line = text::concat3("[", state, "] ");
    text::push_text(&mut line, check.name.as_str());
    let length: usize = text::to_chars(check.name.as_str()).len();
    let ghost start = line@;
    let ghost room = list::spaces(12 - length);
    let mut k: usize = length;
    while k < 12
        invariant
            length <= k,
            k <= 12 || k == length,
            room == list::spaces(12 - length),
            line@ == start + room.take(k - length),
        decreases 12 - k,
    {
        line.push(' ');
        k += 1;
        assert(line@ =~= start + room.take(k - length));
    }
    assert(room.take(k - length) =~= room);
    text::push_text(&mut line, " ");
    text::push_text(&mut line, check.detail.as_str());
    assert(line@ =~= check_line(check@));
    line
}

/// The views of some checks.
pub open spec fn checks_view(checks: Seq<Check>) -> Seq<CheckView> {
    checks.map_values(|check: Check| check@)
}

/// Whether everything is there.
pub open spec fn all_there(checks: Seq<CheckView>) -> bool {
    forall|i: int| 0 <= i < checks.len() ==> (#[trigger] checks[i]).ok
}

/// What is shown of some checks: a line for each, and one more if everything is there.
pub open spec fn doctor_lines(checks: Seq<CheckView>) -> Seq<Seq<char>> {
    let lines = checks.map_values(|check: CheckView| check_line(check));
    if all_there(checks) {
        lines.push("Environment check passed."@)
    } else {
        lines
    }
}

/// Shows some checks, and tells whether anything is missing.
pub fn examine(checks: &Vec<Check>) -> (examined: (Vec<String>, Result<(), AppError>))
    ensures
        text::texts_view(examined.0@) == doctor_lines(checks_view(checks@)),
        examined.1 is Ok <==> all_there(checks_view(checks@)),
        examined.1 matches Err(error) ==> (error matches AppError::MissingDependency(reason)
            && reason@
            == "Environment check failed; install the missing dependencies and retry"@),
{
    let mut lines: Vec<String> = Vec::new();
    let mut complete = true;
    let ghost views = checks_view(checks@);
    let ghost whole = views.map_values(|check: CheckView| check_line(check));
    for i in 0..checks.len()
        invariant
            views == checks_view(checks@),
            whole == views.map_values(|check: CheckView| check_line(check)),
            text::texts_view(lines@) == whole.take(i as int),
            complete ==> forall|j: int| 0 <= j < i ==> (#[trigger] views[j]).ok,
            !complete ==> !all_there(views),
    {
        assert(views[i as int] == checks@[i as int]@);
        let line = show_check(&checks[i]);
        let ghost before = lines@;
        lines.push(line);
        assert(text::texts_view(lines@) =~= text::texts_view(before).push(line@));
        assert(whole.take(i + 1) =~= whole.take(i as int).push(line@));
        if !checks[i].ok {
            assert(!views[i as int].ok);
            complete = false;
        }
    }
    assert(whole.take(checks@.len() as int) == whole);
    if complete {
        let ghost before = lines@;
        let last = "Environment check passed.".to_owned();
        lines.push(last);
        assert(text::texts_view(lines@) =~= text::texts_view(before).push(last@));
        (lines, Ok(()))
    } else {
        (
            lines,
            Err(
                AppError::MissingDependency(
                    "Environment check failed; install the missing dependencies and retry".to_owned(
                    ),
                ),
            ),
        )
    }
}

/// Bytes hold others exactly if from some place on they are the same, byte by byte.
pub proof fn law_held_bytes_stand_in_a_row(bytes: Seq<u8>, wanted: Seq<u8>)
    ensures
        holds_bytes(bytes, wanted) <==> exists|at: int|
            0 <= at && at + wanted.len() <= bytes.len() && #[trigger] bytes.subrange(
                at,
                at + wanted.len(),
            ) == wanted,
{
    if holds_bytes(bytes, wanted) {
        let at = choose|at: int| #[trigger] holds_at(bytes, wanted, at);
        assert(bytes.subrange(at, at + wanted.len()) == wanted);
    }
    if exists|at: int|
        0 <= at && at + wanted.len() <= bytes.len() && #[trigger] bytes.subrange(
            at,
            at + wanted.len(),
        ) == wanted {
        let at = choose|at: int|
            0 <= at && at + wanted.len() <= bytes.len() && #[trigger] bytes.subrange(
                at,
                at + wanted.len(),
            ) == wanted;
        assert(holds_at(bytes, wanted, at));
    }
}

/// Every check has a line, in the order of the checks, and one more line comes exactly if all of them
/// passed.
pub proof fn law_every_check_has_a_line(checks: Seq<CheckView>, i: int)
    requires
        0 <= i < checks.len(),
    ensures
        doctor_lines(checks)[i] == check_line(checks[i]),
        all_there(checks) ==> doctor_lines(checks).len() == checks.len() + 1,
        !all_there(checks) ==> doctor_lines(checks).len() == checks.len(),
        !checks[i].ok ==> !all_there(checks),
        (forall|k: int| 0 <= k < checks.len() ==> (#[trigger] checks[k]).ok) ==> all_there(checks),
{
}

/// The line of a check says in brackets whether it passed, then what was checked, in a field of
/// twelve characters, and what came of it at the end.
pub proof fn law_line_tells_of_its_check(check: CheckView)
    requires
        check.name.len() <= 12,
    ensures
        ({
            let line = check_line(check);
            let state = if check.ok {
                "[ok] "@
            } else {
                "[missing] "@
            };
            let size = state.len() as int;
            &&& state.is_prefix_of(line)
            &&& line.subrange(size, size + check.name.len()) == check.name
            &&& forall|k: int|
                size + check.name.len() <= k <= size + 12 ==> #[trigger] line[k] == ' '
            &&& line.len() == size + 13 + check.detail.len()
            &&& check.detail.is_suffix_of(line)
        }),
{
    reveal_strlit("[");
    reveal_strlit("ok");
    reveal_strlit("missing");
    reveal_strlit("] ");
    reveal_strlit("[ok] ");
    reveal_strlit("[missing] ");
    reveal_strlit(" ");
    let line = check_line(check);
    let state = if check.ok {
        "[ok] "@
    } else {
        "[missing] "@
    };
    let size = state.len() as int;
    assert("["@ + "ok"@ + "] "@ =~= "[ok] "@);
    assert("["@ + "missing"@ + "] "@ =~= "[missing] "@);
    assert(line == state + left_aligned(check.name, 12) + " "@ + check.detail);
    assert(left_aligned(check.name, 12).len() == 12);
    assert(line.subrange(0, size) =~= state);
    assert(line.subrange(size, size + check.name.len()) =~= check.name);
    assert(line.subrange(line.len() - check.detail.len(), line.len() as int) =~= check.detail);
}

/// The views of checks have the name, the outcome and the detail of each check in its place.
pub proof fn law_views_keep_checks(checks: Seq<Check>, i: int)
    requires
        0 <= i < checks.len(),
    ensures
        checks_view(checks).len() == checks.len(),
        checks_view(checks)[i].name == checks[i].name@,
        checks_view(checks)[i].ok == checks[i].ok,
        checks_view(checks)[i].detail == checks[i].detail@,
{
}

} // verus!
