//! Recognizing the text in an image.
pub mod contours;
pub mod detection;
pub mod model;
pub mod picture;
pub mod reading;
pub mod recognition;

use crate::arith;
use crate::models::ModelError;
use crate::text;
use vstd::prelude::*;
use vstd::slice::slice_subrange;

verus! {

/// What can go wrong while text is recognized.
#[derive(Debug)]
pub enum OcrError {
    /// The image cannot be used.
    Image(String),
    /// The model directory, given by its path, does not exist.
    ModelNotInstalled(String),
    /// The model's manifest cannot be used.
    Manifest(String),
    /// No model could be chosen.
    ModelSelection(String),
    /// A file of the model cannot be used.
    ModelFile(String),
    /// The inference runtime, or what it was given or returned, is at fault.
    Runtime(String),
}

impl OcrError {
    /// The error as it is shown.
    pub open spec fn text(self) -> Seq<char> {
        match self {
            OcrError::Image(reason) => "input image is invalid: "@ + reason@,
            OcrError::ModelNotInstalled(path) => "model is not installed: "@ + path@,
            OcrError::Manifest(reason) => "model manifest is invalid: "@ + reason@,
            OcrError::ModelSelection(reason) => "model selection failed: "@ + reason@,
            OcrError::ModelFile(reason) => "model file is invalid: "@ + reason@,
            OcrError::Runtime(reason) => "ONNX Runtime error: "@ + reason@,
        }
    }

    /// The error as it is shown.
    pub fn message(&self) -> (message: String)
        ensures
            message@ == self.text(),
    {
        match self {
            OcrError::Image(reason) => text::concat("input image is invalid: ", reason.as_str()),
            OcrError::ModelNotInstalled(path) => text::concat(
                "model is not installed: ",
                path.as_str(),
            ),
            OcrError::Manifest(reason) => text::concat(
                "model manifest is invalid: ",
                reason.as_str(),
            ),
            OcrError::ModelSelection(reason) => text::concat(
                "model selection failed: ",
                reason.as_str(),
            ),
            OcrError::ModelFile(reason) => text::concat("model file is invalid: ", reason.as_str()),
            OcrError::Runtime(reason) => text::concat("ONNX Runtime error: ", reason.as_str()),
        }
    }
}

/// An ASCII letter in lower case; any other character as it is.
pub open spec fn lower_case(c: char) -> char {
    if 'A' <= c <= 'Z' {
        (c as u32 + 0x20) as char
    } else {
        c
    }
}

/// Whether two characters are equal, ASCII letters in either case.
pub open spec fn same_letter(a: char, b: char) -> bool {
    a == b || lower_case(a) == lower_case(b)
}

/// Whether the last `count` characters of `left` are the first of `right`, letter for letter.
pub open spec fn overlaps(left: Seq<char>, right: Seq<char>, count: int) -> bool {
    forall|i: int|
        0 <= i < count ==> same_letter(#[trigger] left[left.len() - count + i], right[i])
}

/// The greatest overlap of at most `count` characters.
pub open spec fn overlap_up_to(left: Seq<char>, right: Seq<char>, count: int) -> int
    decreases count,
{
    if count <= 0 {
        0
    } else if overlaps(left, right, count) {
        count
    } else {
        overlap_up_to(left, right, count - 1)
    }
}

/// The greatest number of characters at the end of `left` that `right` begins with.
pub open spec fn overlap(left: Seq<char>, right: Seq<char>) -> int {
    overlap_up_to(left, right, arith::lesser(left.len() as int, right.len() as int))
}

/// An ASCII letter in lower case; any other character as it is.
fn to_lower(c: char) -> (lower: char)
    ensures
        lower == lower_case(c),
{
    if 'A' <= c && c <= 'Z' {
        (c as u8 + 0x20) as char
    } else {
        c
    }
}

/// Counts the characters at the end of `left` that `right` begins with, in either case.
pub fn text_overlap(left: &str, right: &str) -> (count: usize)
    ensures
        count == overlap(left@, right@),
        count <= left@.len(),
        count <= right@.len(),
{
    let ends = text::to_chars(left);
    let begins = text::to_chars(right);
    let mut count: usize = if ends.len() < begins.len() {
        ends.len()
    } else {
        begins.len()
    };
    while count > 0
        invariant
            ends@ == left@,
            begins@ == right@,
            count <= left@.len(),
            count <= right@.len(),
            overlap(left@, right@) == overlap_up_to(left@, right@, count as int),
        decreases count,
    {
        let mut same = true;
        let mut i: usize = 0;
        while i < count && same
            invariant
                ends@ == left@,
                begins@ == right@,
                i <= count <= left@.len(),
                count <= right@.len(),
                same ==> forall|j: int|
                    0 <= j < i ==> same_letter(
                        #[trigger] left@[left@.len() - count + j],
                        right@[j],
                    ),
                !same ==> !overlaps(left@, right@, count as int),
            decreases count - i,
        {
            let a: char = ends[ends.len() - count + i];
            let b: char = begins[i];
            if a != b && to_lower(a) != to_lower(b) {
                assert(!same_letter(left@[left@.len() - count + i], right@[i as int]));
                same = false;
            }
            i += 1;
        }
        if same {
            return count;
        }
        count -= 1;
    }
    0
}

/// `text` followed by what `chunk` adds to it.
pub open spec fn merged(text: Seq<char>, chunk: Seq<char>) -> Seq<char> {
    text + chunk.skip(overlap(text, chunk))
}

/// The chunks of a line put together from left to right.
pub open spec fn merged_all(chunks: Seq<Seq<char>>) -> Seq<char>
    decreases chunks.len(),
{
    if chunks.len() == 0 {
        Seq::empty()
    } else {
        merged(merged_all(chunks.drop_last()), chunks.last())
    }
}

/// Appends what `chunk` adds to `line`.
pub fn append_chunk(line: &mut String, chunk: &str)
    ensures
        final(line)@ == merged(old(line)@, chunk@),
{
    let count: usize = text_overlap(line.as_str(), chunk);
    let chars = text::to_chars(chunk);
    let rest = text::from_chars(slice_subrange(chars.as_slice(), count, chars.len()));
    assert(rest@ == chunk@.skip(count as int));
    text::push_text(line, rest.as_str());
}

/// Puts the texts read from the overlapping chunks of a line together.
pub fn recognize_crop(chunks: &Vec<String>) -> (line: String)
    ensures
        line@ == merged_all(text::texts_view(chunks@)),
{
    let mut line = String::new();
    let ghost parts = text::texts_view(chunks@);
    assert(parts.take(0) == Seq::<Seq<char>>::empty());
    for i in 0..chunks.len()
        invariant
            parts == text::texts_view(chunks@),
            line@ == merged_all(parts.take(i as int)),
    {
        assert(parts.take(i + 1).drop_last() == parts.take(i as int));
        append_chunk(&mut line, chunks[i].as_str());
    }
    assert(parts.take(chunks@.len() as int) == parts);
    line
}

/// The overlap that is found is one, and there is no greater one.
pub proof fn law_overlap_is_greatest(left: Seq<char>, right: Seq<char>, count: int)
    requires
        0 <= count <= left.len(),
        count <= right.len(),
        overlaps(left, right, count),
    ensures
        overlaps(left, right, overlap(left, right)),
        count <= overlap(left, right) <= left.len(),
        overlap(left, right) <= right.len(),
{
    lemma_overlap_up_to(left, right, arith::lesser(left.len() as int, right.len() as int));
    assert(overlaps(left, right, count));
}

proof fn lemma_overlap_up_to(left: Seq<char>, right: Seq<char>, most: int)
    requires
        0 <= most <= left.len(),
        most <= right.len(),
    ensures
        0 <= overlap_up_to(left, right, most) <= most,
        overlaps(left, right, overlap_up_to(left, right, most)),
        forall|count: int|
            0 <= count <= most && #[trigger] overlaps(left, right, count) ==> count
                <= overlap_up_to(left, right, most),
    decreases most,
{
    if most > 0 && !overlaps(left, right, most) {
        lemma_overlap_up_to(left, right, most - 1);
    }
}

/// A chunk whose text already stands at the end of a line adds nothing to it.
pub proof fn law_repeated_chunk_adds_nothing(line: Seq<char>, chunk: Seq<char>)
    requires
        chunk.is_suffix_of(line),
    ensures
        merged(line, chunk) == line,
{
    let count = chunk.len() as int;
    assert forall|i: int| 0 <= i < count implies same_letter(
        #[trigger] line[line.len() - count + i],
        chunk[i],
    ) by {
        assert(line.subrange(line.len() - count, line.len() as int)[i] == chunk[i]);
    }
    law_overlap_is_greatest(line, chunk, count);
    assert(chunk.skip(count) == Seq::<char>::empty());
    assert(line + Seq::<char>::empty() == line);
}

/// Putting a chunk in keeps the line so far, and ends with the chunk, letter for letter.
pub proof fn law_merge_keeps_both(line: Seq<char>, chunk: Seq<char>)
    ensures
        line.is_prefix_of(merged(line, chunk)),
        overlaps(merged(line, chunk), chunk, chunk.len() as int),
{
    lemma_overlap_up_to(line, chunk, arith::lesser(line.len() as int, chunk.len() as int));
    let count = overlap(line, chunk);
    let whole = merged(line, chunk);
    assert(whole.subrange(0, line.len() as int) == line);
    assert forall|i: int| 0 <= i < chunk.len() implies same_letter(
        #[trigger] whole[whole.len() - chunk.len() + i],
        chunk[i],
    ) by {
        if i < count {
            assert(same_letter(line[line.len() - count + i], chunk[i]));
        }
    }
}

/// Whether a character is a letter or a number, by its Unicode properties.
pub uninterp spec fn is_alphanumeric(c: char) -> bool;

/// `char::is_alphanumeric` tells letters and numbers by Unicode's property tables.
#[verifier::external_body]
fn alphanumeric(c: char) -> (found: bool)
    ensures
        found == is_alphanumeric(c),
{
    c.is_alphanumeric()
}

/// Whether nothing needs to part what comes before from `rest`.
pub open spec fn parted(rest: Seq<char>) -> bool {
    rest.len() == 0 || text::is_white_space(rest[0])
}

/// `line` with a space behind the text of a prefix that stands apart: behind `prefix` where the
/// line begins with it, else behind a first character that is no letter or number.
pub open spec fn with_gap(line: Seq<char>, prefix: Seq<char>, first_alphanumeric: bool) -> Seq<
    char,
> {
    if prefix.is_prefix_of(line) {
        let rest = line.skip(prefix.len() as int);
        if parted(rest) {
            line
        } else {
            prefix + " "@ + rest
        }
    } else if line.len() == 0 || first_alphanumeric || parted(line.skip(1)) {
        line
    } else {
        seq![line[0]] + " "@ + line.skip(1)
    }
}

/// Puts the gap behind a separated prefix back, told whether the line begins with a letter or
/// number.
pub fn preserve_gap_given(line: String, prefix: &str, first_alphanumeric: bool) -> (spaced: String)
    ensures
        spaced@ == with_gap(line@, prefix@, first_alphanumeric),
{
    let chars = text::to_chars(line.as_str());
    let prefix_chars = text::to_chars(prefix);
    let cut: usize = if text::starts_with(chars.as_slice(), prefix_chars.as_slice()) {
        prefix_chars.len()
    } else if chars.len() == 0 || first_alphanumeric {
        return line;
    } else {
        1
    };
    let rest = slice_subrange(chars.as_slice(), cut, chars.len());
    assert(rest@ == line@.skip(cut as int));
    if rest.len() == 0 || text::white_space(rest[0]) {
        return line;
    }
    let head = text::from_chars(slice_subrange(chars.as_slice(), 0, cut));
    let tail = text::from_chars(rest);
    proof {
        if prefix@.is_prefix_of(line@) {
            assert(head@ == prefix@);
        } else {
            assert(head@ == seq![line@[0]]);
        }
    }
    text::concat3(head.as_str(), " ", tail.as_str())
}

/// `line` with a space behind the text of a prefix that stands apart.
pub open spec fn gapped(line: Seq<char>, prefix: Seq<char>) -> Seq<char> {
    with_gap(line, prefix, line.len() > 0 && is_alphanumeric(line[0]))
}

/// Puts the gap behind a separated prefix back.
pub fn preserve_gap(line: String, prefix: &str) -> (spaced: String)
    ensures
        spaced@ == gapped(line@, prefix@),
{
    let chars = text::to_chars(line.as_str());
    let first_alphanumeric = chars.len() > 0 && alphanumeric(chars[0]);
    preserve_gap_given(line, prefix, first_alphanumeric)
}

/// Putting a gap back changes nothing but for one space that is put in.
pub proof fn law_gap_is_one_space(line: Seq<char>, prefix: Seq<char>, first_alphanumeric: bool)
    ensures
        with_gap(line, prefix, first_alphanumeric) == line || exists|at: int|
            0 <= at < line.len() && with_gap(line, prefix, first_alphanumeric)
                == #[trigger] line.insert(at, ' '),
{
    reveal_strlit(" ");
    let spaced = with_gap(line, prefix, first_alphanumeric);
    if spaced != line {
        let at = if prefix.is_prefix_of(line) {
            prefix.len() as int
        } else {
            1
        };
        assert(spaced == line.insert(at, ' '));
    }
}

/// A gap that was put back is not put in again, where the prefix has no space or the line begins
/// with it.
pub proof fn law_gap_put_back_once(line: Seq<char>, prefix: Seq<char>)
    requires
        !prefix.contains(' ') || prefix.is_prefix_of(line),
    ensures
        gapped(gapped(line, prefix), prefix) == gapped(line, prefix),
{
    reveal_strlit(" ");
    let spaced = gapped(line, prefix);
    if prefix.is_prefix_of(line) {
        let rest = line.skip(prefix.len() as int);
        if !parted(rest) {
            assert(spaced.skip(prefix.len() as int) == " "@ + rest);
            assert(spaced.take(prefix.len() as int) == prefix);
            assert((" "@ + rest)[0] == ' ');
        }
    } else if spaced != line {
        assert(spaced[0] == line[0]);
        assert(spaced[1] == ' ');
        assert(spaced.skip(1)[0] == ' ');
        if prefix.is_prefix_of(spaced) {
            assert(prefix == spaced.take(prefix.len() as int));
            if prefix.len() >= 2 {
                assert(prefix[1] == ' ');
            } else {
                assert(prefix =~= line.take(prefix.len() as int));
            }
        }
    }
}

/// The library that the inference runtime is loaded from: the configured one, or the default.
pub fn runtime_library_from(configured: Option<String>) -> (library: String)
    ensures
        library@ == (match configured {
            Some(path) => path@,
            None => "libonnxruntime.so"@,
        }),
{
    match configured {
        Some(path) => path,
        None => "libonnxruntime.so".to_owned(),
    }
}

/// The error for a step with the inference runtime that failed: what was tried, then why.
pub fn runtime_error(context: &str, error: &str) -> (failure: OcrError)
    ensures
        failure matches OcrError::Runtime(reason) && reason@ == context@ + ": "@ + error@,
{
    OcrError::Runtime(text::concat3(context, ": ", error))
}

/// The error for a file that the inference runtime cannot load.
pub fn load_error(file: &str, error: &str) -> (failure: OcrError)
    ensures
        failure matches OcrError::Runtime(reason) && reason@ == "could not load "@ + file@ + ": "@
            + error@,
{
    runtime_error(text::concat("could not load ", file).as_str(), error)
}

/// The error where no model could be chosen.
pub fn selection_error(error: &ModelError) -> (failure: OcrError)
    ensures
        failure matches OcrError::ModelSelection(reason) && reason@ == error.text(),
{
    OcrError::ModelSelection(error.message())
}

/// Checks that the directory of a model is there.
pub fn check_model_directory(directory: String, is_directory: bool) -> (checked: Result<
    String,
    OcrError,
>)
    ensures
        checked == (if is_directory {
            Ok::<String, OcrError>(directory)
        } else {
            Err(OcrError::ModelNotInstalled(directory))
        }),
{
    if is_directory {
        Ok(directory)
    } else {
        Err(OcrError::ModelNotInstalled(directory))
    }
}

/// A whole number in decimal, behind a minus sign where it is negative.
pub open spec fn signed_decimal(n: i64) -> Seq<char> {
    if n < 0 {
        "-"@ + text::decimal((-n) as nat)
    } else {
        text::decimal(n as nat)
    }
}

/// Writes a whole number in decimal.
pub fn signed_text(n: i64) -> (shown: String)
    ensures
        shown@ == signed_decimal(n),
{
    if n < 0 {
        let magnitude: u64 = (-(n as i128)) as u64;
        text::concat("-", text::decimal_text(magnitude).as_str())
    } else {
        text::decimal_text(n as u64)
    }
}

/// A shape as it is shown: its numbers in square brackets, parted by commas.
pub open spec fn shown_shape(shape: Seq<i64>) -> Seq<char> {
    "["@ + text::joined(shape.map_values(|n: i64| signed_decimal(n)), ", "@) + "]"@
}

/// Shows a shape.
pub fn shape_text(shape: &Vec<i64>) -> (shown: String)
    ensures
        shown@ == shown_shape(shape@),
{
    let mut parts: Vec<String> = Vec::new();
    let ghost whole = shape@.map_values(|n: i64| signed_decimal(n));
    for i in 0..shape.len()
        invariant
            whole == shape@.map_values(|n: i64| signed_decimal(n)),
            text::texts_view(parts@) == whole.take(i as int),
    {
        let ghost before = parts@;
        let part = signed_text(shape[i]);
        parts.push(part);
        assert(text::texts_view(parts@) =~= text::texts_view(before).push(part@));
        assert(whole.take(i + 1) =~= whole.take(i as int).push(part@));
    }
    assert(whole.take(shape@.len() as int) == whole);
    text::concat3("[", text::join(&parts, ", ").as_str(), "]")
}

/// Whether a number is a size that the machine can have.
pub open spec fn is_size(n: i64) -> bool {
    0 <= n <= usize::MAX
}

/// The width and the height of the detection network's output of `count` numbers, or what is wrong
/// with it.
pub open spec fn detection_output(shape: Seq<i64>, count: int) -> Result<(int, int), Seq<char>> {
    if shape.len() != 4 || shape[0] != 1 || shape[1] != 1 {
        Err("unsupported detection output shape "@ + shown_shape(shape))
    } else if !is_size(shape[2]) {
        Err("invalid detection height "@ + signed_decimal(shape[2]))
    } else if !is_size(shape[3]) {
        Err("invalid detection width "@ + signed_decimal(shape[3]))
    } else if shape[2] == 0 || shape[3] == 0 {
        Err("detection output has an empty dimension"@)
    } else if count != arith::lesser(shape[2] * shape[3], usize::MAX as int) {
        Err("detection output size does not match shape"@)
    } else {
        Ok((shape[3] as int, shape[2] as int))
    }
}

/// A number as a size, if the machine can have it.
fn to_size(n: i64) -> (size: Option<usize>)
    ensures
        size is Some <==> is_size(n),
        size matches Some(size) ==> size == n,
{
    if n < 0 || n as u64 > usize::MAX as u64 {
        None
    } else {
        Some(n as usize)
    }
}

/// Checks the shape of the detection network's output, and gives its width and height.
pub fn check_detection_output(shape: &Vec<i64>, count: usize) -> (size: Result<
    (usize, usize),
    OcrError,
>)
    ensures
        match detection_output(shape@, count as int) {
            Ok((width, height)) => size matches Ok(size) && size.0 == width && size.1 == height,
            Err(fault) => size matches Err(OcrError::Runtime(reason)) && reason@ == fault,
        },
{
    if shape.len() != 4 || shape[0] != 1 || shape[1] != 1 {
        return Err(
            OcrError::Runtime(
                text::concat(
                    "unsupported detection output shape ",
                    shape_text(shape).as_str(),
                ),
            ),
        );
    }
    let height: usize = match to_size(shape[2]) {
        Some(height) => height,
        None => {
            return Err(
                OcrError::Runtime(
                    text::concat("invalid detection height ", signed_text(shape[2]).as_str()),
                ),
            );
        },
    };
    let width: usize = match to_size(shape[3]) {
        Some(width) => width,
        None => {
            return Err(
                OcrError::Runtime(
                    text::concat("invalid detection width ", signed_text(shape[3]).as_str()),
                ),
            );
        },
    };
    if width == 0 || height == 0 {
        return Err(OcrError::Runtime("detection output has an empty dimension".to_owned()));
    }
    let product: usize = match height.checked_mul(width) {
        Some(product) => product,
        None => usize::MAX,
    };
    if count != product {
        return Err(OcrError::Runtime("detection output size does not match shape".to_owned()));
    }
    Ok((width, height))
}

/// Two characters are the same letter exactly if they are equal, or if one is an ASCII letter in
/// lower case and the other the same letter in upper case, 32 places before it.
pub proof fn law_same_letter_in_either_case(a: char, b: char)
    ensures
        same_letter(a, b) <==> {
            ||| a == b
            ||| 'a' <= a <= 'z' && a as int - b as int == 32
            ||| 'a' <= b <= 'z' && b as int - a as int == 32
        },
{
    if 'A' <= a <= 'Z' {
        assert(lower_case(a) as int == a as int + 32);
    }
    if 'A' <= b <= 'Z' {
        assert(lower_case(b) as int == b as int + 32);
    }
}

/// The overlap of two texts is the greatest number of characters for which the end of the first and
/// the beginning of the second are the same, letter for letter: so many are the same, and for every
/// greater number that both texts have room for some letter differs.
pub proof fn law_overlap_is_the_longest_common_run(left: Seq<char>, right: Seq<char>, more: int)
    ensures
        ({
            let count = overlap(left, right);
            &&& 0 <= count <= left.len()
            &&& count <= right.len()
            &&& forall|i: int|
                0 <= i < count ==> same_letter(#[trigger] right[i], left[left.len() - count + i])
        }),
        overlap(left, right) < more <= left.len() && more <= right.len() ==> exists|i: int|
            0 <= i < more && !same_letter(left[left.len() - more + i], #[trigger] right[i]),
{
    lemma_overlap_up_to(left, right, arith::lesser(left.len() as int, right.len() as int));
    let count = overlap(left, right);
    assert forall|i: int| 0 <= i < count implies same_letter(
        #[trigger] right[i],
        left[left.len() - count + i],
    ) by {
        assert(same_letter(left[left.len() - count + i], right[i]));
    }
    if overlap(left, right) < more <= left.len() && more <= right.len() {
        assert(!overlaps(left, right, more));
        let i = choose|i: int|
            0 <= i < more && !same_letter(#[trigger] left[left.len() - more + i], right[i]);
        assert(!same_letter(left[left.len() - more + i], right[i]));
    }
}

/// Putting a chunk in appends the characters of the chunk behind the overlap, as they are, and none
/// of the others.
pub proof fn law_merge_appends_what_is_new(line: Seq<char>, chunk: Seq<char>, i: int)
    ensures
        merged(line, chunk).len() + overlap(line, chunk) == line.len() + chunk.len(),
        0 <= i < line.len() ==> merged(line, chunk)[i] == line[i],
        overlap(line, chunk) <= i < chunk.len() ==> merged(line, chunk)[line.len() - overlap(
            line,
            chunk,
        ) + i] == chunk[i],
{
    lemma_overlap_up_to(line, chunk, arith::lesser(line.len() as int, chunk.len() as int));
}

/// The chunks of a line are put together from the first to the last: no chunk gives no text, a single
/// one its own text, and a further one is put in behind all before it.
pub proof fn law_chunks_are_put_together_in_order(chunks: Seq<Seq<char>>, last: Seq<char>)
    ensures
        merged_all(Seq::empty()) == Seq::<char>::empty(),
        merged_all(seq![last]) == last,
        merged_all(chunks.push(last)) == merged(merged_all(chunks), last),
        merged_all(chunks).is_prefix_of(merged_all(chunks.push(last))),
{
    let none = Seq::<Seq<char>>::empty();
    assert(chunks.push(last).drop_last() == chunks);
    assert(seq![last].drop_last() == none);
    assert(merged_all(none) == Seq::<char>::empty());
    assert(overlap(Seq::empty(), last) == 0);
    assert(Seq::<char>::empty() + last.skip(0) == last);
    law_merge_keeps_both(merged_all(chunks), last);
}

/// The gap behind a prefix is put back as one space: right behind the prefix where the line begins
/// with it, else behind the first character where that is no letter or number; and only where text
/// other than white space follows directly.
pub proof fn law_space_stands_behind_the_prefix(
    line: Seq<char>,
    prefix: Seq<char>,
    first_alphanumeric: bool,
)
    ensures
        ({
            let spaced = with_gap(line, prefix, first_alphanumeric);
            let size = prefix.len() as int;
            let begins = size <= line.len() && line.take(size) == prefix;
            &&& begins && size < line.len() && !text::is_white_space(line[size]) ==> spaced
                == line.insert(size, ' ')
            &&& begins && (size == line.len() || text::is_white_space(line[size])) ==> spaced == line
            &&& !begins && line.len() > 1 && !first_alphanumeric && !text::is_white_space(line[1])
                ==> spaced == line.insert(1, ' ')
            &&& !begins && (line.len() <= 1 || first_alphanumeric || text::is_white_space(line[1]))
                ==> spaced == line
        }),
{
    reveal_strlit(" ");
    let size = prefix.len() as int;
    let spaced = with_gap(line, prefix, first_alphanumeric);
    assert(prefix.is_prefix_of(line) <==> size <= line.len() && line.take(size) == prefix);
    if prefix.is_prefix_of(line) && size < line.len() && !text::is_white_space(line[size]) {
        assert(line.skip(size)[0] == line[size]);
        assert(spaced =~= line.insert(size, ' '));
    }
    if !prefix.is_prefix_of(line) && line.len() > 1 {
        assert(line.skip(1)[0] == line[1]);
        if !first_alphanumeric && !text::is_white_space(line[1]) {
            assert(spaced =~= line.insert(1, ' '));
        }
    }
}

/// Whether a line begins with a letter or a number is told by its first character.
pub proof fn law_gap_looks_at_the_first_character(line: Seq<char>, prefix: Seq<char>)
    ensures
        line.len() > 0 ==> gapped(line, prefix) == with_gap(line, prefix, is_alphanumeric(line[0])),
        line.len() == 0 ==> gapped(line, prefix) == line,
{
    if line.len() == 0 {
        law_space_stands_behind_the_prefix(line, prefix, false);
        if prefix.is_prefix_of(line) {
            assert(prefix =~= line);
        }
    }
}

/// A whole number is shown by its digits, behind a minus sign exactly if it is negative.
pub proof fn law_signed_number_reads_back(n: i64)
    ensures
        n >= 0 ==> text::unsigned(signed_decimal(n)) == Some(n as nat),
        n < 0 ==> signed_decimal(n).len() > 1 && signed_decimal(n)[0] == '-' && text::unsigned(
            signed_decimal(n).skip(1),
        ) == Some((-n) as nat),
{
    reveal_strlit("-");
    if n >= 0 {
        text::law_decimal_reads_back(n as nat);
    } else {
        let digits = text::decimal((-n) as nat);
        text::law_decimal_reads_back((-n) as nat);
        text::lemma_decimal_digits((-n) as nat);
        assert(signed_decimal(n).skip(1) == digits);
    }
}

/// The output of the detection network is taken exactly if it is one picture with one channel, has
/// at least one row and one column, and as many numbers as pixels; its width is the last number of
/// the shape and its height the one before.
pub proof fn law_detection_output_is_one_picture(shape: Seq<i64>, count: int)
    requires
        0 <= count < usize::MAX,
    ensures
        detection_output(shape, count) is Ok <==> {
            &&& shape.len() == 4
            &&& shape[0] == 1 && shape[1] == 1
            &&& 0 < shape[2] <= usize::MAX && 0 < shape[3] <= usize::MAX
            &&& shape[3] * shape[2] == count
        },
        detection_output(shape, count) matches Ok(size) ==> size.0 == shape[3] && size.1 == shape[2]
            && size.0 * size.1 == count,
{
    if shape.len() == 4 {
        assert(shape[2] * shape[3] == shape[3] * shape[2]) by (nonlinear_arith);
    }
}

/// The text of an error says of what kind it is, and then its reason.
pub proof fn law_error_text_names_kind_and_reason(error: OcrError)
    ensures
        error matches OcrError::Image(reason) ==> error.text() == "input image is invalid: "@
            + reason@,
        error matches OcrError::ModelNotInstalled(path) ==> error.text()
            == "model is not installed: "@ + path@,
        error matches OcrError::Manifest(reason) ==> error.text() == "model manifest is invalid: "@
            + reason@,
        error matches OcrError::ModelSelection(reason) ==> error.text()
            == "model selection failed: "@ + reason@,
        error matches OcrError::ModelFile(reason) ==> error.text() == "model file is invalid: "@
            + reason@,
        error matches OcrError::Runtime(reason) ==> error.text() == "ONNX Runtime error: "@
            + reason@,
{
}

/// A shape is shown as its numbers, in their order, with a comma and a space between neighbours and
/// square brackets round the whole.
pub proof fn law_shape_is_shown_in_brackets(shape: Seq<i64>)
    ensures
        shown_shape(shape).len() >= 2,
        shown_shape(shape)[0] == '[' && shown_shape(shape)[shown_shape(shape).len() - 1] == ']',
        shown_shape(shape).subrange(1, shown_shape(shape).len() - 1) == text::joined(
            Seq::new(shape.len(), |i: int| signed_decimal(shape[i])),
            seq![',', ' '],
        ),
{
    reveal_strlit("[");
    reveal_strlit("]");
    reveal_strlit(", ");
    assert(", "@ =~= seq![',', ' ']);
    assert(shape.map_values(|n: i64| signed_decimal(n)) =~= Seq::new(
        shape.len(),
        |i: int| signed_decimal(shape[i]),
    ));
    let inner = text::joined(shape.map_values(|n: i64| signed_decimal(n)), ", "@);
    assert(shown_shape(shape).subrange(1, shown_shape(shape).len() - 1) =~= inner);
}

} // verus!
