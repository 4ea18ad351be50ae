//! Model packages: the manifest, the character set and the checksums.
use crate::ocr::OcrError;
use crate::path;
use crate::text;
use sha2::Digest;
use vstd::prelude::*;
use vstd::string::*;
use vstd::utf8::*;

verus! {

/// What a model package holds.
#[derive(Debug)]
pub struct Manifest {
    /// The name of the model.
    pub profile: String,
    /// The file with the character set.
    pub charset: String,
    /// The checksum of that file.
    pub charset_sha256: String,
    /// The number of characters.
    pub charset_count: usize,
    /// The class for "no character".
    pub blank_index: usize,
    /// The class for a space.
    pub space_index: usize,
    /// The detection network.
    pub det: TensorManifest,
    /// The recognition network.
    pub rec: TensorManifest,
}

/// What a model package says of one network.
#[derive(Debug)]
pub struct TensorManifest {
    /// The file with the network.
    pub model: String,
    /// The checksum of that file.
    pub sha256: String,
    /// The name of the input.
    pub input_name: String,
    /// The name of the output.
    pub output_name: String,
    /// The shape of the input, -1 where it varies.
    pub input_shape: Vec<i64>,
    /// The shape of the output, -1 where it varies.
    pub output_shape: Vec<i64>,
}

/// The shape that the recognition output has to have.
pub open spec fn recognition_output(charset_count: usize) -> Seq<i64> {
    seq![-1i64, -1i64, ((charset_count + 2) as usize) as i64]
}

/// What is wrong with a manifest; the first fault counts.
pub open spec fn manifest_fault(manifest: Manifest) -> Option<Seq<char>> {
    if manifest.profile@.len() == 0 {
        Some("unsupported profile "@)
    } else if manifest.det.input_name@.len() == 0 || manifest.det.output_name@.len() == 0 {
        Some("detection tensor names cannot be empty"@)
    } else if manifest.det.input_shape@ != seq![-1i64, 3i64, -1i64, -1i64]
        || manifest.det.output_shape@ != seq![-1i64, 1i64, -1i64, -1i64] {
        Some("detection tensor contract is unsupported"@)
    } else if manifest.rec.input_name@.len() == 0 || manifest.rec.output_name@.len() == 0 {
        Some("recognition tensor names cannot be empty"@)
    } else if manifest.rec.input_shape@ != seq![-1i64, 3i64, 48i64, -1i64]
        || manifest.rec.output_shape@ != recognition_output(manifest.charset_count) {
        Some("recognition tensor contract is unsupported"@)
    } else {
        None
    }
}

/// Whether two shapes are equal.
fn same_shape(shape: &Vec<i64>, expected: &Vec<i64>) -> (same: bool)
    ensures
        same == (shape@ == expected@),
{
    if shape.len() != expected.len() {
        return false;
    }
    for i in 0..shape.len()
        invariant
            shape@.len() == expected@.len(),
            forall|j: int| 0 <= j < i ==> shape@[j] == expected@[j],
    {
        if shape[i] != expected[i] {
            return false;
        }
    }
    assert(shape@ =~= expected@);
    true
}

/// Checks that a manifest describes a model of the supported form.
pub fn validate_manifest(manifest: &Manifest) -> (checked: Result<(), OcrError>)
    requires
        manifest.charset_count + 2 <= usize::MAX,
    ensures
        checked is Ok <==> manifest_fault(*manifest) is None,
        checked matches Err(error) ==> (error matches OcrError::Manifest(reason) && reason@
            == manifest_fault(*manifest)->0),
{
    if manifest.profile.as_str().is_empty() {
        let reason = text::concat("unsupported profile ", manifest.profile.as_str());
        assert(reason@ == "unsupported profile "@);
        return Err(OcrError::Manifest(reason));
    }
    if manifest.det.input_name.as_str().is_empty() || manifest.det.output_name.as_str().is_empty() {
        return Err(OcrError::Manifest("detection tensor names cannot be empty".to_owned()));
    }
    let det_input: Vec<i64> = vec![-1, 3, -1, -1];
    let det_output: Vec<i64> = vec![-1, 1, -1, -1];
    assert(det_input@ == seq![-1i64, 3i64, -1i64, -1i64]);
    assert(det_output@ == seq![-1i64, 1i64, -1i64, -1i64]);
    if !same_shape(&manifest.det.input_shape, &det_input) || !same_shape(
        &manifest.det.output_shape,
        &det_output,
    ) {
        return Err(OcrError::Manifest("detection tensor contract is unsupported".to_owned()));
    }
    if manifest.rec.input_name.as_str().is_empty() || manifest.rec.output_name.as_str().is_empty() {
        return Err(OcrError::Manifest("recognition tensor names cannot be empty".to_owned()));
    }
    let classes: usize = manifest.charset_count + 2;
    let rec_input: Vec<i64> = vec![-1, 3, 48, -1];
    let rec_output: Vec<i64> = vec![-1, -1, classes as i64];
    assert(rec_input@ == seq![-1i64, 3i64, 48i64, -1i64]);
    assert(rec_output@ == recognition_output(manifest.charset_count));
    if !same_shape(&manifest.rec.input_shape, &rec_input) || !same_shape(
        &manifest.rec.output_shape,
        &rec_output,
    ) {
        return Err(OcrError::Manifest("recognition tensor contract is unsupported".to_owned()));
    }
    Ok(())
}

/// The text of the error for a path that leaves the model directory.
pub open spec fn unsafe_path_text(value: Seq<char>) -> Seq<char> {
    "unsafe model path: "@ + value
}

/// Takes a path of a manifest relative to the model directory, unless it could leave it.
pub fn checked_relative_path(model_dir: &str, value: &str) -> (checked: Result<String, OcrError>)
    ensures
        path::is_absolute(value@) || path::climbs(value@) ==> (checked matches Err(
            OcrError::Manifest(reason),
        ) && reason@ == unsafe_path_text(value@)),
        !path::is_absolute(value@) && !path::climbs(value@) ==> (checked matches Ok(full) && full@
            == path::joined_path(model_dir@, value@)),
{
    if path::absolute(value) || path::has_parent_component(value) {
        return Err(OcrError::Manifest(text::concat("unsafe model path: ", value)));
    }
    Ok(path::join(model_dir, value))
}

/// The SHA-256 digest of some bytes.
pub uninterp spec fn sha256(bytes: Seq<u8>) -> Seq<u8>;

/// `Sha256::digest` of the `sha2` crate gives the digest, 32 bytes.
#[verifier::external_body]
fn sha256_digest(bytes: &[u8]) -> (digest: Vec<u8>)
    ensures
        digest@ == sha256(bytes@),
        digest@.len() == 32,
{
    sha2::Sha256::digest(bytes).to_vec()
}

/// The hexadecimal digit for `d`, in lower case.
pub open spec fn hex_digit(d: int) -> char {
    if d < 10 {
        (0x30 + d) as char
    } else {
        (0x61 + d - 10) as char
    }
}

/// Bytes written in hexadecimal, two digits each.
pub open spec fn hex(bytes: Seq<u8>) -> Seq<char>
    decreases bytes.len(),
{
    if bytes.len() == 0 {
        Seq::empty()
    } else {
        hex(bytes.drop_last()).push(hex_digit(bytes.last() as int / 16)).push(
            hex_digit(bytes.last() as int % 16),
        )
    }
}

/// The hexadecimal digit for `d`, in lower case.
fn to_hex_digit(d: u8) -> (digit: char)
    requires
        d < 16,
    ensures
        digit == hex_digit(d as int),
{
    if d < 10 {
        (0x30 + d) as char
    } else {
        (0x61 + (d - 10)) as char
    }
}

/// The SHA-256 digest of some bytes, in hexadecimal.
pub fn hex_sha256(bytes: &[u8]) -> (text: String)
    ensures
        text@ == hex(sha256(bytes@)),
{
    let digest = sha256_digest(bytes);
    let mut text = String::new();
    assert(digest@.take(0) == Seq::<u8>::empty());
    for i in 0..digest.len()
        invariant
            text@ == hex(digest@.take(i as int)),
    {
        assert(digest@.take(i + 1).drop_last() == digest@.take(i as int));
        text.push(to_hex_digit(digest[i] / 16));
        text.push(to_hex_digit(digest[i] % 16));
    }
    assert(digest@.take(digest@.len() as int) == digest@);
    text
}

/// Two byte sequences with the same hexadecimal form are equal, so that comparing checksums in
/// hexadecimal is comparing the checksums.
pub proof fn law_hex_distinguishes(left: Seq<u8>, right: Seq<u8>)
    requires
        hex(left) == hex(right),
    ensures
        left == right,
    decreases left.len(),
{
    lemma_hex_length(left);
    lemma_hex_length(right);
    if left.len() > 0 {
        let n = hex(left).len();
        let a = left.last() as int;
        let b = right.last() as int;
        assert(hex(left)[n - 1] == hex_digit(a % 16) && hex(left)[n - 2] == hex_digit(a / 16));
        assert(hex(right)[n - 1] == hex_digit(b % 16) && hex(right)[n - 2] == hex_digit(b / 16));
        lemma_hex_digit(a % 16, b % 16);
        lemma_hex_digit(a / 16, b / 16);
        assert(hex(left.drop_last()) == hex(left).take(n - 2));
        assert(hex(right.drop_last()) == hex(right).take(n - 2));
        law_hex_distinguishes(left.drop_last(), right.drop_last());
        assert(left == left.drop_last().push(left.last()));
        assert(right == right.drop_last().push(right.last()));
    }
}

proof fn lemma_hex_length(bytes: Seq<u8>)
    ensures
        hex(bytes).len() == 2 * bytes.len(),
    decreases bytes.len(),
{
    if bytes.len() > 0 {
        lemma_hex_length(bytes.drop_last());
    }
}

proof fn lemma_hex_digit(a: int, b: int)
    requires
        0 <= a < 16,
        0 <= b < 16,
        hex_digit(a) == hex_digit(b),
    ensures
        a == b,
{
    assert(hex_digit(a) as int == if a < 10 {
        0x30 + a
    } else {
        0x61 + a - 10
    });
    assert(hex_digit(b) as int == if b < 10 {
        0x30 + b
    } else {
        0x61 + b - 10
    });
}

/// The text of the error for a file whose checksum is not the expected one.
pub open spec fn mismatch_text(path: Seq<char>, expected: Seq<char>, actual: Seq<char>) -> Seq<
    char,
> {
    "SHA-256 mismatch for "@ + path + ": expected "@ + expected + ", got "@ + actual
}

/// Checks the content of a file against the expected checksum.
pub fn verify_file(path: &str, content: &[u8], expected: &str) -> (checked: Result<(), OcrError>)
    ensures
        checked is Ok <==> hex(sha256(content@)) == expected@,
        checked matches Err(error) ==> (error matches OcrError::ModelFile(reason) && reason@
            == mismatch_text(path@, expected@, hex(sha256(content@)))),
{
    let actual = hex_sha256(content);
    if !text::same_text(actual.as_str(), expected) {
        let mut reason = text::concat3("SHA-256 mismatch for ", path, ": expected ");
        text::push_text(&mut reason, expected);
        text::push_text(&mut reason, ", got ");
        text::push_text(&mut reason, actual.as_str());
        return Err(OcrError::ModelFile(reason));
    }
    Ok(())
}

/// How `str`'s `Debug` shows a text: quoted, with escapes.
pub uninterp spec fn debug_form(text: Seq<char>) -> Seq<char>;

/// `str`'s `Debug` shows a text quoted, with escapes.
#[verifier::external_body]
fn debug_text(text: &str) -> (shown: String)
    ensures
        shown@ == debug_form(text@),
{
    format!("{:?}", text)
}

/// The reason `String::from_utf8` gives for refusing bytes.
pub uninterp spec fn utf8_fault(bytes: Seq<u8>) -> Seq<char>;

/// `String::from_utf8` takes exactly the bytes that are valid UTF-8, and gives the text they
/// encode; for other bytes it gives a reason.
#[verifier::external_body]
fn decode_text(bytes: Vec<u8>) -> (decoded: Result<String, String>)
    ensures
        decoded is Ok <==> valid_utf8(bytes@),
        decoded matches Ok(text) ==> text@ == decode_utf8(bytes@),
        decoded matches Err(reason) ==> reason@ == utf8_fault(bytes@),
{
    String::from_utf8(bytes).map_err(|error| error.to_string())
}

/// `line` without a carriage return at its end.
pub open spec fn without_return(line: Seq<char>) -> Seq<char> {
    if line.len() > 0 && line.last() == '\r' {
        line.drop_last()
    } else {
        line
    }
}

/// The lines of a text: each ends with a line feed, with or without a carriage return before it;
/// the last one may lack that end.
pub open spec fn text_lines(s: Seq<char>) -> Seq<Seq<char>> {
    let parts = text::pieces(s, '\n');
    let ended = parts.drop_last().map_values(|line: Seq<char>| without_return(line));
    if parts.last().len() == 0 {
        ended
    } else {
        ended.push(parts.last())
    }
}

/// The characters listed one per line, or what is wrong with the first line that is not one
/// character.
pub open spec fn listed(lines: Seq<Seq<char>>) -> Result<Seq<char>, Seq<char>>
    decreases lines.len(),
{
    if lines.len() == 0 {
        Ok(Seq::empty())
    } else {
        match listed(lines.drop_last()) {
            Err(fault) => Err(fault),
            Ok(before) => if lines.last().len() == 0 {
                Err("charset contains an empty line"@)
            } else if lines.last().len() > 1 {
                Err("charset entry is not one character: "@ + debug_form(lines.last()))
            } else {
                Ok(before.push(lines.last()[0]))
            },
        }
    }
}

/// The character set of a text with one character per line, of which there have to be `count`.
pub open spec fn charset_of(s: Seq<char>, count: nat) -> Result<Seq<char>, Seq<char>> {
    match listed(text_lines(s)) {
        Err(fault) => Err(fault),
        Ok(charset) => if charset.len() != count {
            Err(
                "charset count mismatch: expected "@ + text::decimal(count) + ", got "@
                    + text::decimal(charset.len()),
            )
        } else {
            Ok(charset)
        },
    }
}

/// What the character set file of a model holds.
pub open spec fn charset_file(
    content: Seq<u8>,
    expected: Seq<char>,
    count: nat,
) -> Result<Seq<char>, Seq<char>> {
    if hex(sha256(content)) != expected {
        Err(
            "charset SHA-256 mismatch: expected "@ + expected + ", got "@ + hex(sha256(content)),
        )
    } else if !valid_utf8(content) {
        Err("charset is not UTF-8: "@ + utf8_fault(content))
    } else {
        charset_of(decode_utf8(content), count)
    }
}

/// The lines of a text.
fn split_lines(s: &str) -> (lines: Vec<Vec<char>>)
    ensures
        text::chars_view(lines@) == text_lines(s@),
{
    let chars = text::to_chars(s);
    let mut parts = text::split(chars.as_slice(), '\n');
    let ghost pieces = text::pieces(s@, '\n');
    let ghost ended = pieces.drop_last().map_values(|line: Seq<char>| without_return(line));
    let ghost whole = parts@;
    assert(text::chars_view(whole) == pieces);
    let last: usize = parts.len() - 1;
    let mut lines: Vec<Vec<char>> = Vec::new();
    for i in 0..last
        invariant
            last == whole.len() - 1,
            parts@ == whole,
            text::chars_view(whole) == pieces,
            ended == pieces.drop_last().map_values(|line: Seq<char>| without_return(line)),
            text::chars_view(lines@) == ended.take(i as int),
    {
        assert(pieces[i as int] == whole[i as int]@);
        let mut line: Vec<char> = Vec::new();
        let part = &parts[i];
        let keep: usize = if part.len() > 0 && part[part.len() - 1] == '\r' {
            part.len() - 1
        } else {
            part.len()
        };
        for j in 0..keep
            invariant
                keep <= part@.len(),
                line@ == part@.take(j as int),
        {
            line.push(part[j]);
        }
        assert(line@ == without_return(part@));
        let ghost before = lines@;
        let ghost added = line@;
        lines.push(line);
        assert(text::chars_view(lines@) == text::chars_view(before).push(added));
        assert(ended.take(i + 1) == ended.take(i as int).push(added));
    }
    assert(ended.take(last as int) == ended);
    assert(pieces.last() == whole[last as int]@);
    if let Some(part) = parts.pop() {
        if part.len() > 0 {
            let ghost before = lines@;
            let ghost added = part@;
            lines.push(part);
            assert(text::chars_view(lines@) == text::chars_view(before).push(added));
        }
    }
    lines
}

/// A line that is not one character spoils the list for good.
proof fn lemma_fault_stays(lines: Seq<Seq<char>>, n: int)
    requires
        0 <= n <= lines.len(),
        listed(lines.take(n)) is Err,
    ensures
        listed(lines) == listed(lines.take(n)),
    decreases lines.len() - n,
{
    if n == lines.len() {
        assert(lines.take(n) == lines);
    } else {
        assert(lines.take(n + 1).drop_last() == lines.take(n));
        lemma_fault_stays(lines, n + 1);
    }
}

/// Reads a character set: one character per line, `count` lines.
pub fn parse_charset(s: &str, count: usize) -> (charset: Result<Vec<char>, String>)
    ensures
        charset matches Ok(charset) ==> charset_of(s@, count as nat) == Ok::<Seq<char>, Seq<char>>(
            charset@,
        ),
        charset matches Err(fault) ==> charset_of(s@, count as nat) == Err::<Seq<char>, Seq<char>>(
            fault@,
        ),
{
    let parts = split_lines(s);
    let ghost lines = text_lines(s@);
    let mut charset: Vec<char> = Vec::new();
    assert(lines.take(0) == Seq::<Seq<char>>::empty());
    for i in 0..parts.len()
        invariant
            lines == text_lines(s@),
            text::chars_view(parts@) == lines,
            listed(lines.take(i as int)) == Ok::<Seq<char>, Seq<char>>(charset@),
    {
        assert(lines[i as int] == parts@[i as int]@);
        assert(lines.take(i + 1).drop_last() == lines.take(i as int));
        let line = &parts[i];
        if line.len() == 0 {
            proof {
                lemma_fault_stays(lines, i + 1);
            }
            return Err("charset contains an empty line".to_owned());
        }
        if line.len() > 1 {
            proof {
                lemma_fault_stays(lines, i + 1);
            }
            let entry = text::from_chars(line.as_slice());
            return Err(
                text::concat(
                    "charset entry is not one character: ",
                    debug_text(entry.as_str()).as_str(),
                ),
            );
        }
        charset.push(line[0]);
    }
    assert(lines.take(parts@.len() as int) == lines);
    if charset.len() != count {
        let mut fault = text::concat3(
            "charset count mismatch: expected ",
            text::decimal_text(count as u64).as_str(),
            ", got ",
        );
        text::push_text(&mut fault, text::decimal_text(charset.len() as u64).as_str());
        return Err(fault);
    }
    Ok(charset)
}

/// Reads the content of a model's character set file.
pub fn read_charset(content: Vec<u8>, manifest: &Manifest) -> (charset: Result<
    Vec<char>,
    OcrError,
>)
    ensures
        match charset_file(content@, manifest.charset_sha256@, manifest.charset_count as nat) {
            Ok(chars) => charset matches Ok(charset) && charset@ == chars,
            Err(fault) => charset matches Err(OcrError::ModelFile(reason)) && reason@ == fault,
        },
{
    let actual = hex_sha256(content.as_slice());
    if !text::same_text(actual.as_str(), manifest.charset_sha256.as_str()) {
        let mut reason = text::concat3(
            "charset SHA-256 mismatch: expected ",
            manifest.charset_sha256.as_str(),
            ", got ",
        );
        text::push_text(&mut reason, actual.as_str());
        return Err(OcrError::ModelFile(reason));
    }
    match decode_text(content) {
        Err(fault) => Err(
            OcrError::ModelFile(text::concat("charset is not UTF-8: ", fault.as_str())),
        ),
        Ok(decoded) => match parse_charset(decoded.as_str(), manifest.charset_count) {
            Err(fault) => Err(OcrError::ModelFile(fault)),
            Ok(charset) => Ok(charset),
        },
    }
}

/// The content of a file, or why it could not be read.
pub type Content = Result<Vec<u8>, String>;

/// The files that a manifest names.
#[derive(Debug)]
pub struct ModelFiles {
    /// The character set.
    pub charset: Content,
    /// The detection network.
    pub det: Content,
    /// The recognition network.
    pub rec: Content,
}

/// Why a model cannot be loaded.
pub enum LoadFault {
    /// The manifest is at fault.
    Manifest(Seq<char>),
    /// A file is at fault.
    ModelFile(Seq<char>),
}

/// The text of the error for a file that cannot be read.
pub open spec fn unreadable_text(path: Seq<char>, reason: Seq<char>) -> Seq<char> {
    "could not read "@ + path + ": "@ + reason
}

/// What is wrong with a path in a manifest.
pub open spec fn path_fault(value: Seq<char>) -> Option<LoadFault> {
    if path::is_absolute(value) || path::climbs(value) {
        Some(LoadFault::Manifest(unsafe_path_text(value)))
    } else {
        None
    }
}

/// What is wrong with the file of a network.
pub open spec fn network_fault(path: Seq<char>, content: Content, expected: Seq<char>) -> Option<
    LoadFault,
> {
    match content {
        Err(reason) => Some(LoadFault::ModelFile(unreadable_text(path, reason@))),
        Ok(bytes) => if hex(sha256(bytes@)) != expected {
            Some(
                LoadFault::ModelFile(mismatch_text(path, expected, hex(sha256(bytes@)))),
            )
        } else {
            None
        },
    }
}

/// The character set of a model whose manifest and paths are in order.
pub open spec fn loaded_charset(model_dir: Seq<char>, manifest: Manifest, content: Content) -> Result<
    Seq<char>,
    LoadFault,
> {
    match content {
        Err(reason) => Err(
            LoadFault::ModelFile(
                unreadable_text(path::joined_path(model_dir, manifest.charset@), reason@),
            ),
        ),
        Ok(bytes) => match charset_file(
            bytes@,
            manifest.charset_sha256@,
            manifest.charset_count as nat,
        ) {
            Ok(charset) => Ok(charset),
            Err(fault) => Err(LoadFault::ModelFile(fault)),
        },
    }
}

/// The character set of a model, or what is wrong with the model; the first fault counts.
pub open spec fn loaded(model_dir: Seq<char>, manifest: Manifest, files: ModelFiles) -> Result<
    Seq<char>,
    LoadFault,
> {
    let det_path = path::joined_path(model_dir, manifest.det.model@);
    let rec_path = path::joined_path(model_dir, manifest.rec.model@);
    if manifest_fault(manifest) is Some {
        Err(LoadFault::Manifest(manifest_fault(manifest)->0))
    } else if path_fault(manifest.charset@) is Some {
        Err(path_fault(manifest.charset@)->0)
    } else {
        match loaded_charset(model_dir, manifest, files.charset) {
            Err(fault) => Err(fault),
            Ok(charset) => if path_fault(manifest.det.model@) is Some {
                Err(path_fault(manifest.det.model@)->0)
            } else if path_fault(manifest.rec.model@) is Some {
                Err(path_fault(manifest.rec.model@)->0)
            } else if network_fault(det_path, files.det, manifest.det.sha256@) is Some {
                Err(network_fault(det_path, files.det, manifest.det.sha256@)->0)
            } else if network_fault(rec_path, files.rec, manifest.rec.sha256@) is Some {
                Err(network_fault(rec_path, files.rec, manifest.rec.sha256@)->0)
            } else {
                Ok(charset)
            },
        }
    }
}

/// Whether an error is the one for a fault.
pub open spec fn tells(error: OcrError, fault: LoadFault) -> bool {
    match fault {
        LoadFault::Manifest(text) => error matches OcrError::Manifest(reason) && reason@ == text,
        LoadFault::ModelFile(text) => error matches OcrError::ModelFile(reason) && reason@ == text,
    }
}

/// Takes the content of a file, or the error for one that cannot be read.
fn take_content(path: &str, content: Content) -> (taken: Result<Vec<u8>, OcrError>)
    ensures
        match content {
            Ok(bytes) => taken == Ok::<Vec<u8>, OcrError>(bytes),
            Err(reason) => taken matches Err(error) && tells(
                error,
                LoadFault::ModelFile(unreadable_text(path@, reason@)),
            ),
        },
{
    match content {
        Ok(bytes) => Ok(bytes),
        Err(reason) => {
            let mut shown = text::concat3("could not read ", path, ": ");
            text::push_text(&mut shown, reason.as_str());
            Err(OcrError::ModelFile(shown))
        },
    }
}

/// Checks the file of a network.
fn check_network(path: &str, content: Content, expected: &str) -> (checked: Result<(), OcrError>)
    ensures
        match network_fault(path@, content, expected@) {
            None => checked is Ok,
            Some(fault) => checked matches Err(error) && tells(error, fault),
        },
{
    match take_content(path, content) {
        Ok(bytes) => verify_file(path, bytes.as_slice(), expected),
        Err(error) => Err(error),
    }
}

/// Loads a model: checks the manifest and the files that it names, and reads the character set.
pub fn load(model_dir: &str, manifest: &Manifest, files: ModelFiles) -> (charset: Result<
    Vec<char>,
    OcrError,
>)
    requires
        manifest.charset_count + 2 <= usize::MAX,
    ensures
        match loaded(model_dir@, *manifest, files) {
            Ok(chars) => charset matches Ok(charset) && charset@ == chars,
            Err(fault) => charset matches Err(error) && tells(error, fault),
        },
{
    if let Err(error) = validate_manifest(manifest) {
        return Err(error);
    }
    let charset_path = match checked_relative_path(model_dir, manifest.charset.as_str()) {
        Ok(path) => path,
        Err(error) => {
            return Err(error);
        },
    };
    let content = match take_content(charset_path.as_str(), files.charset) {
        Ok(content) => content,
        Err(error) => {
            return Err(error);
        },
    };
    let charset = match read_charset(content, manifest) {
        Ok(charset) => charset,
        Err(error) => {
            return Err(error);
        },
    };
    let det_path = match checked_relative_path(model_dir, manifest.det.model.as_str()) {
        Ok(path) => path,
        Err(error) => {
            return Err(error);
        },
    };
    let rec_path = match checked_relative_path(model_dir, manifest.rec.model.as_str()) {
        Ok(path) => path,
        Err(error) => {
            return Err(error);
        },
    };
    if let Err(error) = check_network(
        det_path.as_str(),
        files.det,
        manifest.det.sha256.as_str(),
    ) {
        return Err(error);
    }
    if let Err(error) = check_network(
        rec_path.as_str(),
        files.rec,
        manifest.rec.sha256.as_str(),
    ) {
        return Err(error);
    }
    Ok(charset)
}

/// Whether a path in a manifest stays in the model's directory: taken relative to it, it begins
/// with the directory, and it does not climb.
pub open spec fn stays_in(model_dir: Seq<char>, value: Seq<char>) -> bool {
    model_dir.is_prefix_of(path::joined_path(model_dir, value)) && !path::climbs(value)
}

/// A model that loads has a manifest of the supported form, as many characters as the manifest
/// says, and networks with the checksums of the manifest, in files below its directory.
pub proof fn law_loaded_model_is_checked(
    model_dir: Seq<char>,
    manifest: Manifest,
    files: ModelFiles,
)
    requires
        loaded(model_dir, manifest, files) is Ok,
    ensures
        manifest_fault(manifest) is None,
        loaded(model_dir, manifest, files)->Ok_0.len() == manifest.charset_count,
        files.det matches Ok(bytes) && hex(sha256(bytes@)) == manifest.det.sha256@,
        files.rec matches Ok(bytes) && hex(sha256(bytes@)) == manifest.rec.sha256@,
        stays_in(model_dir, manifest.charset@),
        stays_in(model_dir, manifest.det.model@),
        stays_in(model_dir, manifest.rec.model@),
{
    path::law_relative_path_begins_with_directory(model_dir, manifest.charset@);
    path::law_relative_path_begins_with_directory(model_dir, manifest.det.model@);
    path::law_relative_path_begins_with_directory(model_dir, manifest.rec.model@);
}

/// A character set written one character per line.
pub open spec fn listing(charset: Seq<char>) -> Seq<char>
    decreases charset.len(),
{
    if charset.len() == 0 {
        Seq::empty()
    } else {
        listing(charset.drop_last()).push(charset.last()).push('\n')
    }
}

/// A character set written one character per line is read back as it was.
pub proof fn law_charset_reads_back(charset: Seq<char>)
    requires
        forall|i: int|
            0 <= i < charset.len() ==> #[trigger] charset[i] != '\n' && charset[i] != '\r',
    ensures
        charset_of(listing(charset), charset.len()) == Ok::<Seq<char>, Seq<char>>(charset),
{
    lemma_listing_pieces(charset);
    let rows = charset.map_values(|c: char| seq![c]);
    let parts = text::pieces(listing(charset), '\n');
    assert(parts.drop_last() == rows);
    assert(rows.map_values(|line: Seq<char>| without_return(line)) == rows);
    lemma_rows_listed(charset);
}

proof fn lemma_rows_listed(charset: Seq<char>)
    ensures
        listed(charset.map_values(|c: char| seq![c])) == Ok::<Seq<char>, Seq<char>>(charset),
    decreases charset.len(),
{
    let rows = charset.map_values(|c: char| seq![c]);
    if charset.len() > 0 {
        lemma_rows_listed(charset.drop_last());
        assert(rows.drop_last() == charset.drop_last().map_values(|c: char| seq![c]));
        assert(charset == charset.drop_last().push(charset.last()));
    } else {
        assert(charset == Seq::<char>::empty());
    }
}

proof fn lemma_listing_pieces(charset: Seq<char>)
    requires
        forall|i: int| 0 <= i < charset.len() ==> #[trigger] charset[i] != '\n',
    ensures
        text::pieces(listing(charset), '\n') == charset.map_values(|c: char| seq![c]).push(
            Seq::empty(),
        ),
    decreases charset.len(),
{
    let rows = charset.map_values(|c: char| seq![c]);
    if charset.len() == 0 {
        assert(rows.push(Seq::empty()) == seq![Seq::<char>::empty()]);
    } else {
        let fewer = charset.drop_last();
        lemma_listing_pieces(fewer);
        let first = listing(fewer).push(charset.last());
        assert(first.drop_last() == listing(fewer));
        assert(listing(charset).drop_last() == first);
        let before = fewer.map_values(|c: char| seq![c]);
        assert(before.push(Seq::<char>::empty()).drop_last() == before);
        assert(Seq::<char>::empty().push(charset.last()) == seq![charset.last()]);
        assert(text::pieces(first, '\n') == before.push(seq![charset.last()]));
        assert(rows == before.push(seq![charset.last()]));
    }
}

/// A manifest is of the supported form exactly if it names its model and the inputs and outputs of
/// both networks, detection takes pictures of three channels and gives one channel of any size, and
/// recognition takes three channels of 48 rows and gives one score for each character, the blank and
/// the space.
pub proof fn law_supported_manifest(manifest: Manifest)
    requires
        manifest.charset_count + 2 <= i64::MAX,
        manifest.charset_count + 2 <= usize::MAX,
    ensures
        manifest_fault(manifest) is None <==> {
            &&& manifest.profile@.len() > 0
            &&& manifest.det.input_name@.len() > 0 && manifest.det.output_name@.len() > 0
            &&& manifest.rec.input_name@.len() > 0 && manifest.rec.output_name@.len() > 0
            &&& manifest.det.input_shape@.len() == 4 && manifest.det.output_shape@.len() == 4
            &&& manifest.rec.input_shape@.len() == 4 && manifest.rec.output_shape@.len() == 3
            &&& manifest.det.input_shape@[1] == 3 && manifest.det.output_shape@[1] == 1
            &&& manifest.rec.input_shape@[1] == 3 && manifest.rec.input_shape@[2] == 48
            &&& manifest.rec.output_shape@[2] == manifest.charset_count + 2
            &&& manifest.det.input_shape@[0] == -1 && manifest.det.output_shape@[0] == -1
            &&& manifest.det.input_shape@[2] == -1 && manifest.det.output_shape@[2] == -1
            &&& manifest.det.input_shape@[3] == -1 && manifest.det.output_shape@[3] == -1
            &&& manifest.rec.input_shape@[0] == -1 && manifest.rec.input_shape@[3] == -1
            &&& manifest.rec.output_shape@[0] == -1 && manifest.rec.output_shape@[1] == -1
        },
{
    let (a, b) = (manifest.det.input_shape@, manifest.det.output_shape@);
    let (c, d) = (manifest.rec.input_shape@, manifest.rec.output_shape@);
    let count = (manifest.charset_count + 2) as i64;
    if a.len() == 4 && a[0] == -1 && a[1] == 3 && a[2] == -1 && a[3] == -1 {
        assert(a =~= seq![-1i64, 3i64, -1i64, -1i64]);
    }
    if b.len() == 4 && b[0] == -1 && b[1] == 1 && b[2] == -1 && b[3] == -1 {
        assert(b =~= seq![-1i64, 1i64, -1i64, -1i64]);
    }
    if c.len() == 4 && c[0] == -1 && c[1] == 3 && c[2] == 48 && c[3] == -1 {
        assert(c =~= seq![-1i64, 3i64, 48i64, -1i64]);
    }
    if d.len() == 3 && d[0] == -1 && d[1] == -1 && d[2] == count {
        assert(d =~= recognition_output(manifest.charset_count));
    }
}

/// Every byte is written by two hexadecimal digits in lower case, the sixteens before the ones.
pub proof fn law_two_digits_per_byte(bytes: Seq<u8>, i: int)
    requires
        0 <= i < bytes.len(),
    ensures
        hex(bytes).len() == 2 * bytes.len(),
        ({
            let (high, low) = (hex(bytes)[2 * i] as int, hex(bytes)[2 * i + 1] as int);
            let tens = if high <= '9' as int {
                high - '0' as int
            } else {
                high - 'a' as int + 10
            };
            let ones = if low <= '9' as int {
                low - '0' as int
            } else {
                low - 'a' as int + 10
            };
            &&& '0' as int <= high <= '9' as int || 'a' as int <= high <= 'f' as int
            &&& '0' as int <= low <= '9' as int || 'a' as int <= low <= 'f' as int
            &&& bytes[i] == 16 * tens + ones
        }),
    decreases bytes.len(),
{
    lemma_hex_length(bytes);
    let last = bytes.last() as int;
    let fewer = bytes.drop_last();
    lemma_hex_length(fewer);
    if i < fewer.len() {
        law_two_digits_per_byte(fewer, i);
        assert(hex(bytes)[2 * i] == hex(fewer)[2 * i]);
        assert(hex(bytes)[2 * i + 1] == hex(fewer)[2 * i + 1]);
        assert(bytes[i] == fewer[i]);
    } else {
        assert(hex(bytes)[2 * i] == hex_digit(last / 16));
        assert(hex(bytes)[2 * i + 1] == hex_digit(last % 16));
        assert(hex_digit(last / 16) as int == if last / 16 < 10 {
            0x30 + last / 16
        } else {
            0x61 + last / 16 - 10
        });
        assert(hex_digit(last % 16) as int == if last % 16 < 10 {
            0x30 + last % 16
        } else {
            0x61 + last % 16 - 10
        });
    }
}

/// A line ends with a line feed, or with a carriage return and a line feed; what follows is divided
/// into lines in the same way. A text without a line feed is one line, unless it is empty.
pub proof fn law_lines_end_with_line_feeds(line: Seq<char>, rest: Seq<char>)
    requires
        !line.contains('\n'),
    ensures
        text_lines(Seq::empty()) == Seq::<Seq<char>>::empty(),
        line.len() > 0 ==> text_lines(line) == seq![line],
        (line.len() == 0 || line[line.len() - 1] != '\r') ==> text_lines(line + seq!['\n'] + rest)
            == seq![line] + text_lines(rest),
        text_lines(line + seq!['\r', '\n'] + rest) == seq![line] + text_lines(rest),
{
    lemma_one_piece(line);
    lemma_one_piece(Seq::empty());
    text::law_pieces_join_back(rest, '\n');
    let none = Seq::<Seq<char>>::empty();
    assert(seq![Seq::<char>::empty()].drop_last() == none);
    assert(none.map_values(|l: Seq<char>| without_return(l)) == none);
    assert(text_lines(Seq::empty()) == none);
    assert(seq![line].drop_last() == none);
    assert(none.push(line) == seq![line]);
    lemma_line_before(line, line, rest);
    let returned = line.push('\r');
    if returned.contains('\n') {
        let k = choose|k: int| 0 <= k < returned.len() && returned[k] == '\n';
        assert(line[k] == '\n');
    }
    lemma_one_piece(returned);
    assert(returned.drop_last() == line);
    lemma_line_before(returned, line, rest);
    assert(line + seq!['\r', '\n'] + rest == returned + seq!['\n'] + rest);
}

proof fn lemma_one_piece(line: Seq<char>)
    requires
        !line.contains('\n'),
    ensures
        text::pieces(line, '\n') == seq![line],
    decreases line.len(),
{
    if line.len() == 0 {
        assert(line == Seq::<char>::empty());
    } else {
        let fewer = line.drop_last();
        assert(line[line.len() - 1] == line.last());
        if fewer.contains('\n') {
            let k = choose|k: int| 0 <= k < fewer.len() && fewer[k] == '\n';
            assert(line[k] == '\n');
        }
        lemma_one_piece(fewer);
        assert(fewer.push(line.last()) == line);
        assert(seq![fewer].drop_last().push(line) == seq![line]);
    }
}

proof fn lemma_line_before(line: Seq<char>, shown: Seq<char>, rest: Seq<char>)
    requires
        text::pieces(line, '\n') == seq![line],
    ensures
        without_return(line) == shown ==> text_lines(line + seq!['\n'] + rest) == seq![shown]
            + text_lines(rest),
{
    text::lemma_pieces_around(line, rest, '\n');
    text::law_pieces_join_back(rest, '\n');
    let parts = text::pieces(rest, '\n');
    let whole = text::pieces(line + seq!['\n'] + rest, '\n');
    assert(whole == seq![line] + parts);
    assert(whole.last() == parts.last());
    assert(whole.drop_last() == seq![line] + parts.drop_last());
    let ended = parts.drop_last().map_values(|l: Seq<char>| without_return(l));
    let all = whole.drop_last().map_values(|l: Seq<char>| without_return(l));
    assert(all =~= seq![without_return(line)] + ended);
    if without_return(line) == shown {
        if parts.last().len() > 0 {
            assert(all.push(parts.last()) =~= seq![shown] + ended.push(parts.last()));
        }
    }
}

/// A character set is read exactly if every line is one character, and then it is these characters,
/// in the order of the lines.
pub proof fn law_one_character_per_line(lines: Seq<Seq<char>>)
    ensures
        listed(lines) is Ok <==> forall|i: int|
            0 <= i < lines.len() ==> (#[trigger] lines[i]).len() == 1,
        listed(lines) matches Ok(charset) ==> charset.len() == lines.len() && forall|i: int|
            0 <= i < lines.len() ==> (#[trigger] lines[i])[0] == charset[i],
    decreases lines.len(),
{
    if lines.len() > 0 {
        let fewer = lines.drop_last();
        law_one_character_per_line(fewer);
        assert forall|i: int| 0 <= i < fewer.len() implies #[trigger] lines[i] == fewer[i] by {}
        assert(lines[lines.len() - 1] == lines.last());
        if listed(fewer) is Err {
            let i = choose|i: int| 0 <= i < fewer.len() && (#[trigger] fewer[i]).len() != 1;
            assert(lines[i].len() != 1);
        }
    }
}

/// A character set file is taken exactly if it has the expected checksum, is UTF-8, and has one
/// character in each of the expected number of lines.
pub proof fn law_charset_file_is_checked(content: Seq<u8>, expected: Seq<char>, count: nat)
    ensures
        charset_file(content, expected, count) is Ok <==> {
            &&& hex(sha256(content)) == expected
            &&& valid_utf8(content)
            &&& text_lines(decode_utf8(content)).len() == count
            &&& forall|i: int|
                0 <= i < count ==> (#[trigger] text_lines(decode_utf8(content))[i]).len() == 1
        },
        charset_file(content, expected, count) matches Ok(charset) ==> charset.len() == count
            && forall|i: int|
            0 <= i < count ==> (#[trigger] text_lines(decode_utf8(content))[i])[0] == charset[i],
{
    law_one_character_per_line(text_lines(decode_utf8(content)));
}

/// A model whose manifest is of the supported form, whose files are named by paths that stay below
/// its directory and can be read, and whose networks have the checksums of the manifest is loaded,
/// with the character set that its file holds.
pub proof fn law_sound_model_is_loaded(
    model_dir: Seq<char>,
    manifest: Manifest,
    files: ModelFiles,
    charset: Seq<u8>,
    det: Seq<u8>,
    rec: Seq<u8>,
)
    requires
        manifest_fault(manifest) is None,
        !path::is_absolute(manifest.charset@) && !path::climbs(manifest.charset@),
        !path::is_absolute(manifest.det.model@) && !path::climbs(manifest.det.model@),
        !path::is_absolute(manifest.rec.model@) && !path::climbs(manifest.rec.model@),
        files.charset matches Ok(bytes) && bytes@ == charset,
        files.det matches Ok(bytes) && bytes@ == det,
        files.rec matches Ok(bytes) && bytes@ == rec,
        charset_file(charset, manifest.charset_sha256@, manifest.charset_count as nat) is Ok,
        hex(sha256(det)) == manifest.det.sha256@,
        hex(sha256(rec)) == manifest.rec.sha256@,
    ensures
        loaded(model_dir, manifest, files) == Ok::<Seq<char>, LoadFault>(
            charset_file(charset, manifest.charset_sha256@, manifest.charset_count as nat)->Ok_0,
        ),
{
}

/// No model is loaded with a network whose checksum is not the one of the manifest, or with a path
/// that leaves its directory.
pub proof fn law_unsound_model_is_refused(model_dir: Seq<char>, manifest: Manifest, files: ModelFiles)
    ensures
        (files.det matches Ok(bytes) ==> hex(sha256(bytes@)) != manifest.det.sha256@) ==> loaded(
            model_dir,
            manifest,
            files,
        ) is Err,
        (files.rec matches Ok(bytes) ==> hex(sha256(bytes@)) != manifest.rec.sha256@) ==> loaded(
            model_dir,
            manifest,
            files,
        ) is Err,
        (files.charset matches Ok(bytes) ==> hex(sha256(bytes@)) != manifest.charset_sha256@)
            ==> loaded(model_dir, manifest, files) is Err,
        path::climbs(manifest.charset@) || path::climbs(manifest.det.model@) || path::climbs(
            manifest.rec.model@,
        ) ==> loaded(model_dir, manifest, files) is Err,
        path::is_absolute(manifest.charset@) || path::is_absolute(manifest.det.model@)
            || path::is_absolute(manifest.rec.model@) ==> loaded(model_dir, manifest, files) is Err,
{
}

/// The error for a fault is of the fault's kind and has its text.
pub proof fn law_error_tells_its_fault(error: OcrError, fault: LoadFault)
    requires
        tells(error, fault),
    ensures
        fault matches LoadFault::Manifest(text) ==> (error matches OcrError::Manifest(reason)
            && reason@ == text),
        fault matches LoadFault::ModelFile(text) ==> (error matches OcrError::ModelFile(reason)
            && reason@ == text),
{
}

/// The errors for paths and files name the path, and for a wrong checksum both checksums, the
/// expected one first.
pub proof fn law_errors_name_paths_and_checksums(
    path: Seq<char>,
    reason: Seq<char>,
    expected: Seq<char>,
    actual: Seq<char>,
)
    ensures
        unsafe_path_text(path) == "unsafe model path: "@ + path,
        unreadable_text(path, reason) == ("could not read "@ + path) + (": "@ + reason),
        mismatch_text(path, expected, actual) == ("SHA-256 mismatch for "@ + path) + (": expected "@
            + expected) + (", got "@ + actual),
{
    assert(unreadable_text(path, reason) =~= ("could not read "@ + path) + (": "@ + reason));
    assert(mismatch_text(path, expected, actual) =~= ("SHA-256 mismatch for "@ + path) + (
    ": expected "@ + expected) + (", got "@ + actual));
}

/// The first line of a character set that is not one character is the one that is refused.
pub proof fn law_first_faulty_line_is_named(lines: Seq<Seq<char>>, n: int)
    requires
        0 <= n < lines.len(),
        forall|i: int| 0 <= i < n ==> (#[trigger] lines[i]).len() == 1,
    ensures
        lines[n].len() == 0 ==> listed(lines) == Err::<Seq<char>, Seq<char>>(
            "charset contains an empty line"@,
        ),
        lines[n].len() > 1 ==> listed(lines) == Err::<Seq<char>, Seq<char>>(
            "charset entry is not one character: "@ + debug_form(lines[n]),
        ),
{
    let before = lines.take(n);
    assert forall|i: int| 0 <= i < before.len() implies (#[trigger] before[i]).len() == 1 by {
        assert(before[i] == lines[i]);
    }
    law_one_character_per_line(before);
    let upto = lines.take(n + 1);
    assert(upto.drop_last() == before);
    assert(upto.last() == lines[n]);
    if lines[n].len() != 1 {
        lemma_fault_stays(lines, n + 1);
    }
}

} // verus!
