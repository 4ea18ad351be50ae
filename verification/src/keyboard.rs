//! Global shortcuts: reading their names.
pub mod daemon;

use crate::models::config::Shortcuts;
use crate::models::ModelError;
use crate::text;
use vstd::prelude::*;
use vstd::slice::slice_subrange;

verus! {

/// Qt's flag for the Shift modifier.
pub const QT_SHIFT: i32 = 0x0200_0000;

/// Qt's flag for the Control modifier.
pub const QT_CONTROL: i32 = 0x0400_0000;

/// Qt's flag for the Alt modifier.
pub const QT_ALT: i32 = 0x0800_0000;

/// Qt's flag for the Meta modifier.
pub const QT_META: i32 = 0x1000_0000;

/// What can go wrong with shortcuts.
#[derive(Debug)]
pub enum KeyboardError {
    /// An operation failed, for the reason given.
    Operation(String),
}

impl KeyboardError {
    /// The reason, as it is shown.
    pub open spec fn text(self) -> Seq<char> {
        match self {
            KeyboardError::Operation(reason) => reason@,
        }
    }

    /// The reason, as it is shown.
    pub fn message(&self) -> (message: String)
        ensures
            message@ == self.text(),
    {
        match self {
            KeyboardError::Operation(reason) => reason.clone(),
        }
    }
}

/// A result with its error taken by its text.
pub open spec fn outcome<T>(result: Result<T, KeyboardError>) -> Result<T, Seq<char>> {
    match result {
        Ok(value) => Ok(value),
        Err(error) => Err(error.text()),
    }
}

/// The error for a failed step: what was tried, then why it failed.
pub fn operation(context: &str, error: &str) -> (failure: KeyboardError)
    ensures
        failure.text() == context@ + ": "@ + error@,
{
    KeyboardError::Operation(text::concat(text::concat(context, ": ").as_str(), error))
}

/// The text of the error for a shortcut that does not have the required form.
pub open spec fn invalid_shortcut_text(shortcut: Seq<char>) -> Seq<char> {
    "invalid shortcut: "@ + shortcut
}

/// The error for a shortcut that does not have the required form.
pub fn invalid_shortcut(shortcut: &str) -> (failure: KeyboardError)
    ensures
        failure.text() == invalid_shortcut_text(shortcut@),
{
    KeyboardError::Operation(text::concat("invalid shortcut: ", shortcut))
}

/// Whether `c` is an ASCII letter or digit.
pub open spec fn is_ascii_alphanumeric(c: char) -> bool {
    text::is_digit(c) || 'a' <= c <= 'z' || 'A' <= c <= 'Z'
}

/// The code of an ASCII letter's upper-case form, or of `c` itself.
pub open spec fn upper_code(c: char) -> int {
    if 'a' <= c <= 'z' {
        c as int - 0x20
    } else {
        c as int
    }
}

/// The number of a function key: `F`, then a number from 1 to 35.
pub open spec fn function_key(name: Seq<char>) -> Option<nat> {
    if name.len() > 0 && name[0] == 'F' {
        match text::unsigned(name.drop_first()) {
            Some(value) if 1 <= value <= 35 => Some(value),
            _ => None,
        }
    } else {
        None
    }
}

/// Qt's code for a key with a name of its own.
pub open spec fn named_key(name: Seq<char>) -> Option<i32> {
    if name == "Escape"@ {
        Some(0x0100_0000)
    } else if name == "Tab"@ {
        Some(0x0100_0001)
    } else if name == "BackSpace"@ || name == "Backspace"@ {
        Some(0x0100_0003)
    } else if name == "Return"@ {
        Some(0x0100_0004)
    } else if name == "Enter"@ {
        Some(0x0100_0005)
    } else if name == "Insert"@ {
        Some(0x0100_0006)
    } else if name == "Delete"@ {
        Some(0x0100_0007)
    } else if name == "Pause"@ {
        Some(0x0100_0008)
    } else if name == "Print"@ {
        Some(0x0100_0009)
    } else if name == "Home"@ {
        Some(0x0100_0010)
    } else if name == "End"@ {
        Some(0x0100_0011)
    } else if name == "Left"@ {
        Some(0x0100_0012)
    } else if name == "Up"@ {
        Some(0x0100_0013)
    } else if name == "Right"@ {
        Some(0x0100_0014)
    } else if name == "Down"@ {
        Some(0x0100_0015)
    } else if name == "Page_Up"@ || name == "PageUp"@ {
        Some(0x0100_0016)
    } else if name == "Page_Down"@ || name == "PageDown"@ {
        Some(0x0100_0017)
    } else if name == "Space"@ {
        Some(0x20)
    } else if name == "Apostrophe"@ {
        Some(0x27)
    } else if name == "Comma"@ {
        Some(0x2c)
    } else if name == "Minus"@ {
        Some(0x2d)
    } else if name == "Period"@ {
        Some(0x2e)
    } else if name == "Slash"@ {
        Some(0x2f)
    } else if name == "Semicolon"@ {
        Some(0x3b)
    } else if name == "Equal"@ {
        Some(0x3d)
    } else if name == "BracketLeft"@ {
        Some(0x5b)
    } else if name == "Backslash"@ {
        Some(0x5c)
    } else if name == "BracketRight"@ {
        Some(0x5d)
    } else if name == "Grave"@ {
        Some(0x60)
    } else if name == "XF86AudioLowerVolume"@ {
        Some(0x0100_0070)
    } else if name == "XF86AudioMute"@ {
        Some(0x0100_0071)
    } else if name == "XF86AudioRaiseVolume"@ {
        Some(0x0100_0072)
    } else if name == "XF86AudioPlay"@ {
        Some(0x0100_0080)
    } else if name == "XF86AudioStop"@ {
        Some(0x0100_0081)
    } else if name == "XF86AudioPrev"@ {
        Some(0x0100_0082)
    } else if name == "XF86AudioNext"@ {
        Some(0x0100_0083)
    } else if name == "XF86AudioPause"@ {
        Some(0x0100_0085)
    } else if name == "XF86MonBrightnessUp"@ {
        Some(0x0100_00b2)
    } else if name == "XF86MonBrightnessDown"@ {
        Some(0x0100_00b3)
    } else {
        None
    }
}

/// Qt's code for a key: a letter or digit, a function key, or a key with a name.
pub open spec fn key_code(name: Seq<char>) -> Option<i32> {
    if name.len() == 1 && is_ascii_alphanumeric(name[0]) {
        Some(upper_code(name[0]) as i32)
    } else if function_key(name) is Some {
        Some((0x0100_0030 + function_key(name)->0 - 1) as i32)
    } else {
        named_key(name)
    }
}

/// The text of the error for a key that is not supported.
pub open spec fn unsupported_key_text(name: Seq<char>) -> Seq<char> {
    "unsupported shortcut key: "@ + name
}

/// Looks a key with a name of its own up.
fn find_named_key(name: &str) -> (key: Option<i32>)
    ensures
        key == named_key(name@),
{
    if text::same_text(name, "Escape") {
        Some(0x0100_0000)
    } else if text::same_text(name, "Tab") {
        Some(0x0100_0001)
    } else if text::same_text(name, "BackSpace") || text::same_text(name, "Backspace") {
        Some(0x0100_0003)
    } else if text::same_text(name, "Return") {
        Some(0x0100_0004)
    } else if text::same_text(name, "Enter") {
        Some(0x0100_0005)
    } else if text::same_text(name, "Insert") {
        Some(0x0100_0006)
    } else if text::same_text(name, "Delete") {
        Some(0x0100_0007)
    } else if text::same_text(name, "Pause") {
        Some(0x0100_0008)
    } else if text::same_text(name, "Print") {
        Some(0x0100_0009)
    } else if text::same_text(name, "Home") {
        Some(0x0100_0010)
    } else if text::same_text(name, "End") {
        Some(0x0100_0011)
    } else if text::same_text(name, "Left") {
        Some(0x0100_0012)
    } else if text::same_text(name, "Up") {
        Some(0x0100_0013)
    } else if text::same_text(name, "Right") {
        Some(0x0100_0014)
    } else if text::same_text(name, "Down") {
        Some(0x0100_0015)
    } else if text::same_text(name, "Page_Up") || text::same_text(name, "PageUp") {
        Some(0x0100_0016)
    } else if text::same_text(name, "Page_Down") || text::same_text(name, "PageDown") {
        Some(0x0100_0017)
    } else if text::same_text(name, "Space") {
        Some(0x20)
    } else if text::same_text(name, "Apostrophe") {
        Some(0x27)
    } else if text::same_text(name, "Comma") {
        Some(0x2c)
    } else if text::same_text(name, "Minus") {
        Some(0x2d)
    } else if text::same_text(name, "Period") {
        Some(0x2e)
    } else if text::same_text(name, "Slash") {
        Some(0x2f)
    } else if text::same_text(name, "Semicolon") {
        Some(0x3b)
    } else if text::same_text(name, "Equal") {
        Some(0x3d)
    } else if text::same_text(name, "BracketLeft") {
        Some(0x5b)
    } else if text::same_text(name, "Backslash") {
        Some(0x5c)
    } else if text::same_text(name, "BracketRight") {
        Some(0x5d)
    } else if text::same_text(name, "Grave") {
        Some(0x60)
    } else if text::same_text(name, "XF86AudioLowerVolume") {
        Some(0x0100_0070)
    } else if text::same_text(name, "XF86AudioMute") {
        Some(0x0100_0071)
    } else if text::same_text(name, "XF86AudioRaiseVolume") {
        Some(0x0100_0072)
    } else if text::same_text(name, "XF86AudioPlay") {
        Some(0x0100_0080)
    } else if text::same_text(name, "XF86AudioStop") {
        Some(0x0100_0081)
    } else if text::same_text(name, "XF86AudioPrev") {
        Some(0x0100_0082)
    } else if text::same_text(name, "XF86AudioNext") {
        Some(0x0100_0083)
    } else if text::same_text(name, "XF86AudioPause") {
        Some(0x0100_0085)
    } else if text::same_text(name, "XF86MonBrightnessUp") {
        Some(0x0100_00b2)
    } else if text::same_text(name, "XF86MonBrightnessDown") {
        Some(0x0100_00b3)
    } else {
        None
    }
}

/// Reads the name of a key.
pub fn parse_key(name: &str) -> (key: Result<i32, KeyboardError>)
    ensures
        outcome(key) == (match key_code(name@) {
            Some(code) => Ok::<i32, Seq<char>>(code),
            None => Err(unsupported_key_text(name@)),
        }),
{
    let chars = text::to_chars(name);
    if chars.len() == 1 {
        let c: char = chars[0];
        if ('0' <= c && c <= '9') || ('A' <= c && c <= 'Z') {
            return Ok(c as i32);
        }
        if 'a' <= c && c <= 'z' {
            return Ok(c as i32 - 0x20);
        }
    }
    if chars.len() > 0 && chars[0] == 'F' {
        let rest = slice_subrange(chars.as_slice(), 1, chars.len());
        assert(rest@ == name@.drop_first());
        if let Some(number) = text::parse_unsigned(rest) {
            if 1 <= number && number <= 35 {
                return Ok(0x0100_0030 + number as i32 - 1);
            }
        }
    }
    match find_named_key(name) {
        Some(key) => Ok(key),
        None => Err(KeyboardError::Operation(text::concat("unsupported shortcut key: ", name))),
    }
}

/// The flag of a modifier.
pub open spec fn modifier_flag(name: Seq<char>) -> Option<i32> {
    if name == "Mod"@ || name == "Super"@ || name == "Meta"@ {
        Some(QT_META)
    } else if name == "Ctrl"@ || name == "Control"@ {
        Some(QT_CONTROL)
    } else if name == "Alt"@ {
        Some(QT_ALT)
    } else if name == "Shift"@ {
        Some(QT_SHIFT)
    } else {
        None
    }
}

/// Looks a modifier up.
fn find_modifier(name: &str) -> (flag: Option<i32>)
    ensures
        flag == modifier_flag(name@),
{
    if text::same_text(name, "Mod") || text::same_text(name, "Super") || text::same_text(
        name,
        "Meta",
    ) {
        Some(QT_META)
    } else if text::same_text(name, "Ctrl") || text::same_text(name, "Control") {
        Some(QT_CONTROL)
    } else if text::same_text(name, "Alt") {
        Some(QT_ALT)
    } else if text::same_text(name, "Shift") {
        Some(QT_SHIFT)
    } else {
        None
    }
}

/// The parts of a shortcut: what stands between plus signs, without surrounding white space.
pub open spec fn shortcut_parts(shortcut: Seq<char>) -> Seq<Seq<char>> {
    text::pieces(shortcut, '+').map_values(|part: Seq<char>| text::trimmed(part))
}

/// Whether all of `names` are modifiers, each with a flag of its own.
pub open spec fn distinct_modifiers(names: Seq<Seq<char>>) -> bool {
    &&& forall|i: int| 0 <= i < names.len() ==> modifier_flag(#[trigger] names[i]) is Some
    &&& forall|i: int, j: int|
        0 <= i < j < names.len() ==> modifier_flag(#[trigger] names[i]) != modifier_flag(
            #[trigger] names[j],
        )
}

/// The flags of `names` together.
pub open spec fn flag_sum(names: Seq<Seq<char>>) -> int
    decreases names.len(),
{
    if names.len() == 0 {
        0
    } else {
        flag_sum(names.drop_last()) + (match modifier_flag(names.last()) {
            Some(flag) => flag as int,
            None => 0,
        })
    }
}

/// What a shortcut stands for: distinct modifiers, then one key. The flags and the key's code
/// have no bit in common, so that their sum is also their union.
pub open spec fn shortcut_code(shortcut: Seq<char>) -> Result<i32, Seq<char>> {
    let parts = shortcut_parts(shortcut);
    let key = parts.last();
    if !distinct_modifiers(parts.drop_last()) || key.len() == 0 || modifier_flag(key) is Some {
        Err(invalid_shortcut_text(shortcut))
    } else {
        match key_code(key) {
            Some(code) => Ok((flag_sum(parts.drop_last()) + code) as i32),
            None => Err(unsupported_key_text(key)),
        }
    }
}

/// Whether one of `names` has the flag `flag`.
pub open spec fn holds_flag(names: Seq<Seq<char>>, flag: i32) -> bool {
    exists|i: int| 0 <= i < names.len() && modifier_flag(#[trigger] names[i]) == Some(flag)
}

/// `flag` where it is held, else nothing.
pub open spec fn when(held: bool, flag: i32) -> int {
    if held {
        flag as int
    } else {
        0
    }
}

/// Key codes are positive and lie below every modifier flag.
pub proof fn lemma_key_code_range(name: Seq<char>)
    ensures
        key_code(name) is Some ==> 0x20 <= key_code(name)->0 < QT_SHIFT,
{
}

proof fn lemma_holds_flag_push(names: Seq<Seq<char>>, name: Seq<char>, flag: i32)
    ensures
        holds_flag(names.push(name), flag) == (holds_flag(names, flag) || modifier_flag(name)
            == Some(flag)),
{
    let longer = names.push(name);
    if holds_flag(names, flag) {
        let i = choose|i: int| 0 <= i < names.len() && modifier_flag(names[i]) == Some(flag);
        assert(longer[i] == names[i]);
    }
    if modifier_flag(name) == Some(flag) {
        assert(longer[names.len() as int] == name);
    }
    if holds_flag(longer, flag) {
        let i = choose|i: int| 0 <= i < longer.len() && modifier_flag(longer[i]) == Some(flag);
        if i < names.len() {
            assert(names[i] == longer[i]);
        }
    }
}

/// A run of names is no run of distinct modifiers if one of its beginnings is none.
proof fn lemma_not_distinct(names: Seq<Seq<char>>, count: int)
    requires
        0 <= count <= names.len(),
        !distinct_modifiers(names.take(count)),
    ensures
        !distinct_modifiers(names),
{
    if distinct_modifiers(names) {
        assert forall|i: int| 0 <= i < count implies modifier_flag(
            #[trigger] names.take(count)[i],
        ) is Some by {
            assert(names.take(count)[i] == names[i]);
        }
    }
}

/// Reads a shortcut such as `Mod+Shift+Slash`.
pub fn parse_shortcut(shortcut: &str) -> (code: Result<i32, KeyboardError>)
    ensures
        outcome(code) == shortcut_code(shortcut@),
{
    let chars = text::to_chars(shortcut);
    let list = text::split(chars.as_slice(), '+');
    let ghost parts = shortcut_parts(shortcut@);
    let ghost names = parts.drop_last();
    let mut modifiers: i32 = 0;
    let mut meta = false;
    let mut control = false;
    let mut alt = false;
    let mut shift = false;
    let last: usize = list.len() - 1;
    assert(names.take(0) == Seq::<Seq<char>>::empty());
    for i in 0..last
        invariant
            last == list@.len() - 1,
            text::chars_view(list@) == text::pieces(shortcut@, '+'),
            parts == shortcut_parts(shortcut@),
            names == parts.drop_last(),
            distinct_modifiers(names.take(i as int)),
            modifiers == flag_sum(names.take(i as int)),
            modifiers == when(meta, QT_META) + when(control, QT_CONTROL) + when(alt, QT_ALT) + when(
                shift,
                QT_SHIFT,
            ),
            meta == holds_flag(names.take(i as int), QT_META),
            control == holds_flag(names.take(i as int), QT_CONTROL),
            alt == holds_flag(names.take(i as int), QT_ALT),
            shift == holds_flag(names.take(i as int), QT_SHIFT),
    {
        let part = text::trim(list[i].as_slice());
        assert(text::chars_view(list@)[i as int] == list@[i as int]@);
        assert(part@ == names[i as int]);
        assert(names.take(i + 1) == names.take(i as int).push(part@));
        assert(names.take(i + 1).drop_last() == names.take(i as int));
        proof {
            lemma_holds_flag_push(names.take(i as int), part@, QT_META);
            lemma_holds_flag_push(names.take(i as int), part@, QT_CONTROL);
            lemma_holds_flag_push(names.take(i as int), part@, QT_ALT);
            lemma_holds_flag_push(names.take(i as int), part@, QT_SHIFT);
        }
        let name = text::from_chars(part);
        match find_modifier(name.as_str()) {
            None => {
                proof {
                    assert(names.take(i + 1)[i as int] == part@);
                    lemma_not_distinct(names, i + 1);
                }
                return Err(invalid_shortcut(shortcut));
            },
            Some(flag) => {
                if (flag == QT_META && meta) || (flag == QT_CONTROL && control) || (flag == QT_ALT
                    && alt) || (flag == QT_SHIFT && shift) {
                    proof {
                        let earlier = names.take(i as int);
                        let j = choose|j: int|
                            0 <= j < earlier.len() && modifier_flag(#[trigger] earlier[j]) == Some(
                                flag,
                            );
                        assert(names.take(i + 1)[j] == earlier[j]);
                        assert(names.take(i + 1)[i as int] == part@);
                        lemma_not_distinct(names, i + 1);
                    }
                    return Err(invalid_shortcut(shortcut));
                }
                assert(!holds_flag(names.take(i as int), flag));
                assert forall|j: int| 0 <= j < i implies modifier_flag(
                    #[trigger] names.take(i + 1)[j],
                ) != Some(flag) by {
                    assert(names.take(i + 1)[j] == names.take(i as int)[j]);
                }
                assert forall|j: int, k: int|
                    0 <= j < k < i implies modifier_flag(#[trigger] names.take(i + 1)[j])
                    != modifier_flag(#[trigger] names.take(i + 1)[k]) by {
                    assert(names.take(i + 1)[j] == names.take(i as int)[j]);
                    assert(names.take(i + 1)[k] == names.take(i as int)[k]);
                }
                assert forall|j: int| 0 <= j < i + 1 implies modifier_flag(
                    #[trigger] names.take(i + 1)[j],
                ) is Some by {
                    if j < i {
                        assert(names.take(i + 1)[j] == names.take(i as int)[j]);
                    }
                }
                if flag == QT_META {
                    meta = true;
                } else if flag == QT_CONTROL {
                    control = true;
                } else if flag == QT_ALT {
                    alt = true;
                } else {
                    shift = true;
                }
                modifiers = modifiers + flag;
            },
        }
    }
    assert(names.take(last as int) == names);
    let part = text::trim(list[last].as_slice());
    assert(text::chars_view(list@)[last as int] == list@[last as int]@);
    assert(part@ == parts.last());
    if part.len() == 0 {
        return Err(invalid_shortcut(shortcut));
    }
    let name = text::from_chars(part);
    if find_modifier(name.as_str()).is_some() {
        return Err(invalid_shortcut(shortcut));
    }
    match parse_key(name.as_str()) {
        Ok(key) => {
            proof {
                lemma_key_code_range(name@);
            }
            Ok(modifiers + key)
        },
        Err(error) => Err(error),
    }
}

/// A shortcut with what it stands for.
#[derive(Debug)]
pub struct Binding {
    /// The shortcut as it was written.
    pub name: String,
    /// The key with its modifiers, as Qt numbers them.
    pub key: i32,
}

/// The shortcuts of all actions.
#[derive(Debug)]
pub struct Bindings {
    /// Captures and copies the picture.
    pub copy: Option<Binding>,
    /// Captures, recognizes and copies the text.
    pub ocr: Option<Binding>,
}

/// The view of an optional shortcut.
pub open spec fn binding_view(binding: Option<Binding>) -> Option<(Seq<char>, i32)> {
    match binding {
        Some(binding) => Some((binding.name@, binding.key)),
        None => None,
    }
}

impl View for Bindings {
    type V = (Option<(Seq<char>, i32)>, Option<(Seq<char>, i32)>);

    open spec fn view(&self) -> (Option<(Seq<char>, i32)>, Option<(Seq<char>, i32)>) {
        (binding_view(self.copy), binding_view(self.ocr))
    }
}

/// What an optional shortcut stands for; a missing one stands for nothing.
pub open spec fn bound(shortcut: Option<Seq<char>>) -> Result<
    Option<(Seq<char>, i32)>,
    Seq<char>,
> {
    match shortcut {
        None => Ok(None),
        Some(name) => match shortcut_code(name) {
            Ok(key) => Ok(Some((name, key))),
            Err(reason) => Err(reason),
        },
    }
}

/// Reads an optional shortcut.
pub fn parse_binding(shortcut: Option<String>) -> (binding: Result<Option<Binding>, KeyboardError>)
    ensures
        match bound(text::optional_view(shortcut)) {
            Ok(view) => binding matches Ok(binding) && binding_view(binding) == view,
            Err(reason) => binding matches Err(error) && error.text() == reason,
        },
{
    match shortcut {
        None => Ok(None),
        Some(name) => match parse_shortcut(name.as_str()) {
            Ok(key) => Ok(Some(Binding { name, key })),
            Err(error) => Err(error),
        },
    }
}

/// What the shortcuts of both actions stand for; the first fault counts.
pub open spec fn bound_both(copy: Option<Seq<char>>, ocr: Option<Seq<char>>) -> Result<
    (Option<(Seq<char>, i32)>, Option<(Seq<char>, i32)>),
    Seq<char>,
> {
    match bound(copy) {
        Err(reason) => Err(reason),
        Ok(first) => match bound(ocr) {
            Err(reason) => Err(reason),
            Ok(second) => Ok((first, second)),
        },
    }
}

/// Reads the shortcuts of both actions, given the configured ones or why there are none.
pub fn load_bindings(shortcuts: Result<Shortcuts, ModelError>) -> (bindings: Result<
    Bindings,
    KeyboardError,
>)
    ensures
        shortcuts matches Err(error) ==> (bindings matches Err(failure) && failure.text()
            == "could not load shortcut configuration: "@ + error.text()),
        shortcuts matches Ok(configured) ==> match bound_both(
            text::optional_view(configured.copy),
            text::optional_view(configured.ocr),
        ) {
            Ok(view) => bindings matches Ok(bindings) && bindings@ == view,
            Err(reason) => bindings matches Err(failure) && failure.text() == reason,
        },
{
    let configured = match shortcuts {
        Ok(configured) => configured,
        Err(error) => {
            return Err(
                KeyboardError::Operation(
                    text::concat(
                        "could not load shortcut configuration: ",
                        error.message().as_str(),
                    ),
                ),
            );
        },
    };
    let copy = match parse_binding(configured.copy) {
        Ok(binding) => binding,
        Err(error) => {
            return Err(error);
        },
    };
    let ocr = match parse_binding(configured.ocr) {
        Ok(binding) => binding,
        Err(error) => {
            return Err(error);
        },
    };
    Ok(Bindings { copy, ocr })
}

/// The flags of distinct modifiers are the sum of those that are held.
proof fn lemma_flag_sum(names: Seq<Seq<char>>)
    requires
        distinct_modifiers(names),
    ensures
        flag_sum(names) == when(holds_flag(names, QT_META), QT_META) + when(
            holds_flag(names, QT_CONTROL),
            QT_CONTROL,
        ) + when(holds_flag(names, QT_ALT), QT_ALT) + when(holds_flag(names, QT_SHIFT), QT_SHIFT),
    decreases names.len(),
{
    if names.len() > 0 {
        let fewer = names.drop_last();
        let last = names.last();
        assert(names == fewer.push(last));
        assert forall|i: int| 0 <= i < fewer.len() implies modifier_flag(
            #[trigger] fewer[i],
        ) is Some by {
            assert(names[i] == fewer[i]);
        }
        assert forall|i: int, j: int| 0 <= i < j < fewer.len() implies modifier_flag(
            #[trigger] fewer[i],
        ) != modifier_flag(#[trigger] fewer[j]) by {
            assert(names[i] == fewer[i] && names[j] == fewer[j]);
        }
        lemma_flag_sum(fewer);
        lemma_holds_flag_push(fewer, last, QT_META);
        lemma_holds_flag_push(fewer, last, QT_CONTROL);
        lemma_holds_flag_push(fewer, last, QT_ALT);
        lemma_holds_flag_push(fewer, last, QT_SHIFT);
        assert(names[names.len() - 1] == last);
        let flag = modifier_flag(last)->0;
        assert(!holds_flag(fewer, flag)) by {
            if holds_flag(fewer, flag) {
                let i = choose|i: int|
                    0 <= i < fewer.len() && modifier_flag(#[trigger] fewer[i]) == Some(flag);
                assert(names[i] == fewer[i]);
            }
        }
    }
}

/// Whether a shortcut has a modifier.
pub open spec fn has_modifier(shortcut: Seq<char>, flag: i32) -> bool {
    holds_flag(shortcut_parts(shortcut).drop_last(), flag)
}

/// The key of a shortcut, without the modifiers.
pub open spec fn shortcut_key(shortcut: Seq<char>) -> Option<i32> {
    key_code(shortcut_parts(shortcut).last())
}

/// Two shortcuts stand for the same exactly if they have the same modifiers, in whatever order and
/// under whatever of their names, and the same key.
pub proof fn law_code_is_modifiers_and_key(left: Seq<char>, right: Seq<char>)
    requires
        shortcut_code(left) is Ok,
        shortcut_code(right) is Ok,
    ensures
        shortcut_code(left) == shortcut_code(right) <==> {
            &&& has_modifier(left, QT_META) == has_modifier(right, QT_META)
            &&& has_modifier(left, QT_CONTROL) == has_modifier(right, QT_CONTROL)
            &&& has_modifier(left, QT_ALT) == has_modifier(right, QT_ALT)
            &&& has_modifier(left, QT_SHIFT) == has_modifier(right, QT_SHIFT)
            &&& shortcut_key(left) == shortcut_key(right)
        },
{
    lemma_flag_sum(shortcut_parts(left).drop_last());
    lemma_flag_sum(shortcut_parts(right).drop_last());
    lemma_key_code_range(shortcut_parts(left).last());
    lemma_key_code_range(shortcut_parts(right).last());
}

/// A letter key is the same in lower and in upper case.
pub proof fn law_letter_case_does_not_matter(lower: char)
    requires
        'a' <= lower <= 'z',
    ensures
        key_code(seq![lower]) == key_code(seq![upper_code(lower) as char]),
        key_code(seq![lower]) is Some,
{
    let upper = upper_code(lower) as char;
    assert('A' <= upper <= 'Z');
}

/// The key of a letter or a digit has the code of its character, a letter that of its upper case.
pub proof fn law_letters_and_digits_have_their_code(c: char)
    ensures
        '0' <= c <= '9' || 'A' <= c <= 'Z' ==> key_code(seq![c]) == Some(c as i32),
        'a' <= c <= 'z' ==> key_code(seq![c]) == Some((c as i32 - 32) as i32),
{
}

/// The keys `F1` to `F35` have codes in a row.
pub proof fn law_function_keys_are_numbered(n: nat)
    requires
        1 <= n <= 35,
    ensures
        key_code(seq!['F'] + text::decimal(n)) == Some((0x0100_002f + n) as i32),
{
    let name = seq!['F'] + text::decimal(n);
    text::law_decimal_reads_back(n);
    text::lemma_decimal_digits(n);
    assert(name.drop_first() == text::decimal(n));
    assert(name[0] == 'F');
}

/// The names of keys differ, in their length or in one of these characters.
proof fn lemma_key_names_differ()
    ensures
        "Escape"@.len() == 6 && "Escape"@[0] == 'E',
        "Tab"@.len() == 3 && "Tab"@[0] == 'T',
        "BackSpace"@.len() == 9 && "BackSpace"@[0] == 'B' && "BackSpace"@[4] == 'S',
        "Backspace"@.len() == 9 && "Backspace"@[0] == 'B' && "Backspace"@[4] == 's' && "Backspace"@[5] == 'p',
        "Return"@.len() == 6 && "Return"@[0] == 'R',
        "Enter"@.len() == 5 && "Enter"@[0] == 'E' && "Enter"@[1] == 'n',
        "Insert"@.len() == 6 && "Insert"@[0] == 'I',
        "Delete"@.len() == 6 && "Delete"@[0] == 'D',
        "Pause"@.len() == 5 && "Pause"@[0] == 'P' && "Pause"@[1] == 'a',
        "Print"@.len() == 5 && "Print"@[0] == 'P' && "Print"@[1] == 'r',
        "Home"@.len() == 4 && "Home"@[0] == 'H',
        "End"@.len() == 3 && "End"@[0] == 'E',
        "Left"@.len() == 4 && "Left"@[0] == 'L',
        "Up"@.len() == 2 && "Up"@[0] == 'U',
        "Right"@.len() == 5 && "Right"@[0] == 'R',
        "Down"@.len() == 4 && "Down"@[0] == 'D',
        "Page_Up"@.len() == 7 && "Page_Up"@[0] == 'P',
        "PageUp"@.len() == 6 && "PageUp"@[0] == 'P' && "PageUp"@[1] == 'a',
        "Page_Down"@.len() == 9 && "Page_Down"@[0] == 'P',
        "PageDown"@.len() == 8 && "PageDown"@[0] == 'P',
        "Space"@.len() == 5 && "Space"@[0] == 'S' && "Space"@[1] == 'p',
        "Apostrophe"@.len() == 10 && "Apostrophe"@[0] == 'A',
        "Comma"@.len() == 5 && "Comma"@[0] == 'C',
        "Minus"@.len() == 5 && "Minus"@[0] == 'M',
        "Period"@.len() == 6 && "Period"@[0] == 'P' && "Period"@[1] == 'e',
        "Slash"@.len() == 5 && "Slash"@[0] == 'S' && "Slash"@[1] == 'l',
        "Semicolon"@.len() == 9 && "Semicolon"@[0] == 'S',
        "Equal"@.len() == 5 && "Equal"@[0] == 'E' && "Equal"@[1] == 'q',
        "BracketLeft"@.len() == 11 && "BracketLeft"@[0] == 'B',
        "Backslash"@.len() == 9 && "Backslash"@[0] == 'B' && "Backslash"@[4] == 's' && "Backslash"@[5] == 'l',
        "BracketRight"@.len() == 12 && "BracketRight"@[0] == 'B',
        "Grave"@.len() == 5 && "Grave"@[0] == 'G',
        "XF86AudioLowerVolume"@.len() == 20 && "XF86AudioLowerVolume"@[0] == 'X' && "XF86AudioLowerVolume"@[9] == 'L',
        "XF86AudioMute"@.len() == 13 && "XF86AudioMute"@[0] == 'X' && "XF86AudioMute"@[9] == 'M',
        "XF86AudioRaiseVolume"@.len() == 20 && "XF86AudioRaiseVolume"@[0] == 'X' && "XF86AudioRaiseVolume"@[9] == 'R',
        "XF86AudioPlay"@.len() == 13 && "XF86AudioPlay"@[0] == 'X' && "XF86AudioPlay"@[9] == 'P' && "XF86AudioPlay"@[10] == 'l',
        "XF86AudioStop"@.len() == 13 && "XF86AudioStop"@[0] == 'X' && "XF86AudioStop"@[9] == 'S',
        "XF86AudioPrev"@.len() == 13 && "XF86AudioPrev"@[0] == 'X' && "XF86AudioPrev"@[9] == 'P' && "XF86AudioPrev"@[10] == 'r',
        "XF86AudioNext"@.len() == 13 && "XF86AudioNext"@[0] == 'X' && "XF86AudioNext"@[9] == 'N',
        "XF86AudioPause"@.len() == 14 && "XF86AudioPause"@[0] == 'X',
        "XF86MonBrightnessUp"@.len() == 19 && "XF86MonBrightnessUp"@[0] == 'X',
        "XF86MonBrightnessDown"@.len() == 21 && "XF86MonBrightnessDown"@[0] == 'X',
{
    reveal_strlit("Escape");
    reveal_strlit("Tab");
    reveal_strlit("BackSpace");
    reveal_strlit("Backspace");
    reveal_strlit("Return");
    reveal_strlit("Enter");
    reveal_strlit("Insert");
    reveal_strlit("Delete");
    reveal_strlit("Pause");
    reveal_strlit("Print");
    reveal_strlit("Home");
    reveal_strlit("End");
    reveal_strlit("Left");
    reveal_strlit("Up");
    reveal_strlit("Right");
    reveal_strlit("Down");
    reveal_strlit("Page_Up");
    reveal_strlit("PageUp");
    reveal_strlit("Page_Down");
    reveal_strlit("PageDown");
    reveal_strlit("Space");
    reveal_strlit("Apostrophe");
    reveal_strlit("Comma");
    reveal_strlit("Minus");
    reveal_strlit("Period");
    reveal_strlit("Slash");
    reveal_strlit("Semicolon");
    reveal_strlit("Equal");
    reveal_strlit("BracketLeft");
    reveal_strlit("Backslash");
    reveal_strlit("BracketRight");
    reveal_strlit("Grave");
    reveal_strlit("XF86AudioLowerVolume");
    reveal_strlit("XF86AudioMute");
    reveal_strlit("XF86AudioRaiseVolume");
    reveal_strlit("XF86AudioPlay");
    reveal_strlit("XF86AudioStop");
    reveal_strlit("XF86AudioPrev");
    reveal_strlit("XF86AudioNext");
    reveal_strlit("XF86AudioPause");
    reveal_strlit("XF86MonBrightnessUp");
    reveal_strlit("XF86MonBrightnessDown");
}

/// A key with the name of a printed character has the code of that character.
#[verifier::rlimit(50)]
pub proof fn law_punctuation_keys_have_their_character()
    ensures
        key_code("Space"@) == Some(' ' as i32),
        key_code("Apostrophe"@) == Some('\'' as i32),
        key_code("Comma"@) == Some(',' as i32),
        key_code("Minus"@) == Some('-' as i32),
        key_code("Period"@) == Some('.' as i32),
        key_code("Slash"@) == Some('/' as i32),
        key_code("Semicolon"@) == Some(';' as i32),
        key_code("Equal"@) == Some('=' as i32),
        key_code("BracketLeft"@) == Some('[' as i32),
        key_code("Backslash"@) == Some('\\' as i32),
        key_code("BracketRight"@) == Some(']' as i32),
        key_code("Grave"@) == Some('`' as i32),
{
    lemma_key_names_differ();
}

/// The other keys with names have codes in rows, as Qt numbers them, and a second name of a key
/// means the same key.
#[verifier::rlimit(50)]
pub proof fn law_named_keys_are_numbered_in_rows()
    ensures
        key_code("Escape"@) == Some(0x0100_0000i32),
        key_code("Tab"@)->0 == key_code("Escape"@)->0 + 1 && key_code("Tab"@) is Some,
        key_code("Backspace"@) == Some(0x0100_0003i32),
        key_code("Return"@)->0 == key_code("Backspace"@)->0 + 1 && key_code("Return"@) is Some,
        key_code("Enter"@)->0 == key_code("Return"@)->0 + 1 && key_code("Enter"@) is Some,
        key_code("Insert"@)->0 == key_code("Enter"@)->0 + 1 && key_code("Insert"@) is Some,
        key_code("Delete"@)->0 == key_code("Insert"@)->0 + 1 && key_code("Delete"@) is Some,
        key_code("Pause"@)->0 == key_code("Delete"@)->0 + 1 && key_code("Pause"@) is Some,
        key_code("Print"@)->0 == key_code("Pause"@)->0 + 1 && key_code("Print"@) is Some,
        key_code("Home"@) == Some(0x0100_0010i32),
        key_code("End"@)->0 == key_code("Home"@)->0 + 1 && key_code("End"@) is Some,
        key_code("Left"@)->0 == key_code("End"@)->0 + 1 && key_code("Left"@) is Some,
        key_code("Up"@)->0 == key_code("Left"@)->0 + 1 && key_code("Up"@) is Some,
        key_code("Right"@)->0 == key_code("Up"@)->0 + 1 && key_code("Right"@) is Some,
        key_code("Down"@)->0 == key_code("Right"@)->0 + 1 && key_code("Down"@) is Some,
        key_code("PageUp"@)->0 == key_code("Down"@)->0 + 1 && key_code("PageUp"@) is Some,
        key_code("PageDown"@)->0 == key_code("PageUp"@)->0 + 1 && key_code("PageDown"@) is Some,
        key_code("XF86AudioLowerVolume"@) == Some(0x0100_0070i32),
        key_code("XF86AudioMute"@)->0 == key_code("XF86AudioLowerVolume"@)->0 + 1 && key_code("XF86AudioMute"@) is Some,
        key_code("XF86AudioRaiseVolume"@)->0 == key_code("XF86AudioMute"@)->0 + 1 && key_code("XF86AudioRaiseVolume"@) is Some,
        key_code("XF86AudioPlay"@) == Some(0x0100_0080i32),
        key_code("XF86AudioStop"@)->0 == key_code("XF86AudioPlay"@)->0 + 1 && key_code("XF86AudioStop"@) is Some,
        key_code("XF86AudioPrev"@)->0 == key_code("XF86AudioStop"@)->0 + 1 && key_code("XF86AudioPrev"@) is Some,
        key_code("XF86AudioNext"@)->0 == key_code("XF86AudioPrev"@)->0 + 1 && key_code("XF86AudioNext"@) is Some,
        key_code("XF86AudioPause"@) == Some(0x0100_0085i32),
        key_code("XF86MonBrightnessUp"@) == Some(0x0100_00b2i32),
        key_code("XF86MonBrightnessDown"@) == Some(0x0100_00b3i32),
        key_code("BackSpace"@) == key_code("Backspace"@),
        key_code("Page_Up"@) == key_code("PageUp"@),
        key_code("Page_Down"@) == key_code("PageDown"@),
{
    lemma_key_names_differ();
}

/// Every modifier has a bit of its own, under each of its names.
pub proof fn law_modifiers_have_a_bit_each()
    ensures
        modifier_flag("Shift"@) == Some(0x0200_0000i32),
        modifier_flag("Ctrl"@) == Some(0x0400_0000i32),
        modifier_flag("Control"@) == modifier_flag("Ctrl"@),
        modifier_flag("Alt"@) == Some(0x0800_0000i32),
        modifier_flag("Meta"@) == Some(0x1000_0000i32),
        modifier_flag("Super"@) == modifier_flag("Meta"@),
        modifier_flag("Mod"@) == modifier_flag("Meta"@),
{
    reveal_strlit("Shift");
    reveal_strlit("Ctrl");
    reveal_strlit("Control");
    reveal_strlit("Alt");
    reveal_strlit("Meta");
    reveal_strlit("Super");
    reveal_strlit("Mod");
    assert("Shift"@[1] == 'h');
    assert("Ctrl"@[0] == 'C');
    assert("Alt"@[0] == 'A');
    assert("Meta"@[0] == 'M');
    assert("Super"@[1] == 'u');
    assert("Mod"@[0] == 'M');
}

/// What a shortcut stands for is the code of its last part and, on top of that, the bit of every
/// modifier that one of the parts before it names.
pub proof fn law_code_adds_up(shortcut: Seq<char>)
    requires
        shortcut_code(shortcut) is Ok,
    ensures
        ({
            let parts = shortcut_parts(shortcut);
            let names = |flag: i32|
                exists|i: int|
                    0 <= i < parts.len() - 1 && modifier_flag(#[trigger] parts[i]) == Some(flag);
            &&& key_code(parts[parts.len() - 1]) is Some
            &&& shortcut_code(shortcut)->Ok_0 == key_code(parts[parts.len() - 1])->0 + (if names(
                0x0200_0000,
            ) {
                0x0200_0000int
            } else {
                0
            }) + (if names(0x0400_0000) {
                0x0400_0000int
            } else {
                0
            }) + (if names(0x0800_0000) {
                0x0800_0000int
            } else {
                0
            }) + (if names(0x1000_0000) {
                0x1000_0000int
            } else {
                0
            })
        }),
{
    let parts = shortcut_parts(shortcut);
    let fewer = parts.drop_last();
    text::law_pieces_join_back(shortcut, '+');
    lemma_flag_sum(fewer);
    lemma_key_code_range(parts.last());
    lemma_held_among_parts(parts, QT_META);
    lemma_held_among_parts(parts, QT_CONTROL);
    lemma_held_among_parts(parts, QT_ALT);
    lemma_held_among_parts(parts, QT_SHIFT);
}

proof fn lemma_held_among_parts(parts: Seq<Seq<char>>, flag: i32)
    requires
        parts.len() > 0,
    ensures
        holds_flag(parts.drop_last(), flag) <==> exists|i: int|
            0 <= i < parts.len() - 1 && modifier_flag(#[trigger] parts[i]) == Some(flag),
{
    let fewer = parts.drop_last();
    if holds_flag(fewer, flag) {
        let i = choose|i: int|
            0 <= i < fewer.len() && modifier_flag(#[trigger] fewer[i]) == Some(flag);
        assert(parts[i] == fewer[i]);
    }
    if exists|i: int| 0 <= i < parts.len() - 1 && modifier_flag(#[trigger] parts[i]) == Some(flag) {
        let i = choose|i: int|
            0 <= i < parts.len() - 1 && modifier_flag(#[trigger] parts[i]) == Some(flag);
        assert(fewer[i] == parts[i]);
    }
}

/// A shortcut is accepted exactly if its last part is a key, all parts before it are modifiers, and
/// no two of these are the same modifier.
pub proof fn law_shortcut_is_modifiers_then_a_key(shortcut: Seq<char>)
    ensures
        shortcut_parts(shortcut).len() == text::pieces(shortcut, '+').len(),
        shortcut_code(shortcut) is Ok <==> {
            let parts = shortcut_parts(shortcut);
            let last = parts.len() - 1;
            &&& parts[last].len() > 0
            &&& key_code(parts[last]) is Some
            &&& modifier_flag(parts[last]) is None
            &&& forall|i: int| 0 <= i < last ==> modifier_flag(#[trigger] parts[i]) is Some
            &&& forall|i: int, j: int|
                0 <= i < j < last ==> modifier_flag(#[trigger] parts[i]) != modifier_flag(
                    #[trigger] parts[j],
                )
        },
{
    text::law_pieces_join_back(shortcut, '+');
    let parts = shortcut_parts(shortcut);
    let fewer = parts.drop_last();
    assert(parts[parts.len() - 1] == parts.last());
    if distinct_modifiers(fewer) {
        assert forall|i: int| 0 <= i < parts.len() - 1 implies modifier_flag(
            #[trigger] parts[i],
        ) is Some by {
            assert(fewer[i] == parts[i]);
        }
        assert forall|i: int, j: int| 0 <= i < j < parts.len() - 1 implies modifier_flag(
            #[trigger] parts[i],
        ) != modifier_flag(#[trigger] parts[j]) by {
            assert(fewer[i] == parts[i] && fewer[j] == parts[j]);
        }
    } else {
        if forall|i: int| 0 <= i < fewer.len() ==> modifier_flag(#[trigger] fewer[i]) is Some {
            let (i, j) = choose|i: int, j: int|
                0 <= i < j < fewer.len() && !(modifier_flag(#[trigger] fewer[i]) != modifier_flag(
                    #[trigger] fewer[j],
                ));
            assert(modifier_flag(parts[i]) == modifier_flag(parts[j]));
        } else {
            let i = choose|i: int|
                0 <= i < fewer.len() && !(modifier_flag(#[trigger] fewer[i]) is Some);
            assert(modifier_flag(parts[i]) is None);
        }
    }
}

/// The parts of a shortcut are what stands between its plus signs, without white space round it.
pub proof fn law_parts_stand_between_plus_signs(shortcut: Seq<char>, i: int)
    requires
        0 <= i < text::pieces(shortcut, '+').len(),
    ensures
        shortcut_parts(shortcut).len() == text::pieces(shortcut, '+').len(),
        shortcut_parts(shortcut)[i] == text::trimmed(text::pieces(shortcut, '+')[i]),
{
}

/// Where a modifier that a shortcut does not have yet is put before it, with a plus sign between, the
/// bit of the modifier is added to what the shortcut stands for.
pub proof fn law_further_modifier_adds_its_bit(name: Seq<char>, shortcut: Seq<char>)
    requires
        shortcut_code(shortcut) is Ok,
        modifier_flag(name) is Some,
        !name.contains('+'),
        text::trimmed(name) == name,
        forall|i: int|
            0 <= i < shortcut_parts(shortcut).len() - 1 ==> modifier_flag(
                #[trigger] shortcut_parts(shortcut)[i],
            ) != modifier_flag(name),
    ensures
        shortcut_code(name + seq!['+'] + shortcut) is Ok,
        shortcut_code(name + seq!['+'] + shortcut)->Ok_0 == shortcut_code(shortcut)->Ok_0
            + modifier_flag(name)->0,
{
    let longer = name + seq!['+'] + shortcut;
    text::lemma_pieces_around(name, shortcut, '+');
    text::law_pieces_join_back(shortcut, '+');
    lemma_no_plus(name);
    let parts = shortcut_parts(shortcut);
    let more = shortcut_parts(longer);
    assert(more =~= seq![name] + parts);
    law_shortcut_is_modifiers_then_a_key(shortcut);
    law_shortcut_is_modifiers_then_a_key(longer);
    let last = more.len() - 1;
    assert(more[last] == parts[parts.len() - 1]);
    assert forall|i: int| 0 <= i < last implies modifier_flag(#[trigger] more[i]) is Some by {
        if i > 0 {
            assert(more[i] == parts[i - 1]);
        }
    }
    assert forall|i: int, j: int| 0 <= i < j < last implies modifier_flag(#[trigger] more[i])
        != modifier_flag(#[trigger] more[j]) by {
        assert(more[j] == parts[j - 1]);
        if i > 0 {
            assert(more[i] == parts[i - 1]);
        }
    }
    let fewer = parts.drop_last();
    let wider = more.drop_last();
    assert(wider =~= seq![name] + fewer);
    lemma_flag_sum(fewer);
    lemma_flag_sum(wider);
    lemma_holds_flag_front(name, fewer, QT_META);
    lemma_holds_flag_front(name, fewer, QT_CONTROL);
    lemma_holds_flag_front(name, fewer, QT_ALT);
    lemma_holds_flag_front(name, fewer, QT_SHIFT);
    lemma_key_code_range(parts.last());
    let flag = modifier_flag(name)->0;
    if holds_flag(fewer, flag) {
        let i = choose|i: int|
            0 <= i < fewer.len() && modifier_flag(#[trigger] fewer[i]) == Some(flag);
        assert(modifier_flag(parts[i]) == Some(flag));
    }
}

proof fn lemma_holds_flag_front(name: Seq<char>, names: Seq<Seq<char>>, flag: i32)
    ensures
        holds_flag(seq![name] + names, flag) == (holds_flag(names, flag) || modifier_flag(name)
            == Some(flag)),
{
    let longer = seq![name] + names;
    if holds_flag(names, flag) {
        let i = choose|i: int|
            0 <= i < names.len() && modifier_flag(#[trigger] names[i]) == Some(flag);
        assert(longer[i + 1] == names[i]);
    }
    if modifier_flag(name) == Some(flag) {
        assert(longer[0] == name);
    }
    if holds_flag(longer, flag) {
        let i = choose|i: int|
            0 <= i < longer.len() && modifier_flag(#[trigger] longer[i]) == Some(flag);
        if i > 0 {
            assert(names[i - 1] == longer[i]);
        }
    }
}

proof fn lemma_no_plus(name: Seq<char>)
    requires
        !name.contains('+'),
    ensures
        text::pieces(name, '+') == seq![name],
    decreases name.len(),
{
    if name.len() == 0 {
        assert(name == Seq::<char>::empty());
    } else {
        let fewer = name.drop_last();
        assert(name[name.len() - 1] == name.last());
        if fewer.contains('+') {
            let k = choose|k: int| 0 <= k < fewer.len() && fewer[k] == '+';
            assert(name[k] == '+');
        }
        lemma_no_plus(fewer);
        assert(fewer.push(name.last()) == name);
        assert(seq![fewer].drop_last().push(name) == seq![name]);
    }
}

/// An action without a shortcut has no binding; one with a shortcut is bound under its own name to
/// what that stands for, and both actions are bound, each by its own shortcut, exactly if both
/// shortcuts are accepted.
pub proof fn law_each_action_is_bound_to_its_shortcut(copy: Option<Seq<char>>, ocr: Option<Seq<char>>)
    ensures
        bound(None) == Ok::<Option<(Seq<char>, i32)>, Seq<char>>(None),
        copy matches Some(name) ==> {
            &&& bound(copy) is Ok <==> shortcut_code(name) is Ok
            &&& shortcut_code(name) matches Ok(code) ==> bound(copy)->Ok_0 == Some((name, code))
        },
        bound_both(copy, ocr) is Ok <==> bound(copy) is Ok && bound(ocr) is Ok,
        bound_both(copy, ocr) matches Ok(both) ==> bound(copy) == Ok::<
            Option<(Seq<char>, i32)>,
            Seq<char>,
        >(both.0) && bound(ocr) == Ok::<Option<(Seq<char>, i32)>, Seq<char>>(both.1),
{
}

/// A shortcut that is not modifiers and then a key is refused as a whole; where only the key is not
/// known, the key is.
pub proof fn law_refused_shortcut_names_what_is_wrong(shortcut: Seq<char>)
    requires
        shortcut_code(shortcut) is Err,
    ensures
        ({
            let parts = shortcut_parts(shortcut);
            let key = parts[parts.len() - 1];
            let reason = shortcut_code(shortcut)->Err_0;
            let sound = key.len() > 0 && modifier_flag(key) is None && distinct_modifiers(
                parts.drop_last(),
            );
            &&& sound ==> key_code(key) is None && reason == "unsupported shortcut key: "@ + key
            &&& !sound ==> reason == "invalid shortcut: "@ + shortcut
        }),
{
    text::law_pieces_join_back(shortcut, '+');
}

/// The views of bindings have the name and the key of each action's shortcut in its place.
pub proof fn law_views_keep_bindings(bindings: Bindings, result: Result<i32, KeyboardError>)
    ensures
        bindings.copy matches Some(binding) ==> bindings@.0 == Some((binding.name@, binding.key)),
        bindings.ocr matches Some(binding) ==> bindings@.1 == Some((binding.name@, binding.key)),
        bindings.copy is None ==> bindings@.0 is None,
        bindings.ocr is None ==> bindings@.1 is None,
        result matches Ok(code) ==> outcome(result) == Ok::<i32, Seq<char>>(code),
        result matches Err(KeyboardError::Operation(reason)) ==> outcome(result) == Err::<
            i32,
            Seq<char>,
        >(reason@),
{
}

} // verus!
