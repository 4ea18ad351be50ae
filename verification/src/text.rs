//! Text as sequences of characters: comparing, cutting, joining, numbers.
use vstd::prelude::*;
use vstd::slice::slice_subrange;

verus! {

/// `String::push` appends one character at the end.
pub assume_specification[ std::string::String::push ](s: &mut String, ch: char)
    ensures
        final(s)@ == old(s)@.push(ch),
;

/// The characters of `text`, in order.
pub fn to_chars(text: &str) -> (chars: Vec<char>)
    ensures
        chars@ == text@,
{
    let mut chars: Vec<char> = Vec::new();
    for character in characters: text.chars()
        invariant
            chars@ == text@.take(characters.index()),
            characters.seq() == text@,
    {
        chars.push(character);
    }
    chars
}

/// The text made of `chars`, in order.
pub fn from_chars(chars: &[char]) -> (text: String)
    ensures
        text@ == chars@,
{
    let mut text = String::new();
    for i in 0..chars.len()
        invariant
            text@ == chars@.take(i as int),
    {
        text.push(chars[i]);
    }
    text
}

/// Whether two character slices hold the same characters.
pub fn same_chars(left: &[char], right: &[char]) -> (same: bool)
    ensures
        same == (left@ == right@),
{
    if left.len() != right.len() {
        return false;
    }
    for i in 0..left.len()
        invariant
            left@.len() == right@.len(),
            forall|j: int| 0 <= j < i ==> left@[j] == right@[j],
    {
        if left[i] != right[i] {
            return false;
        }
    }
    assert(left@ =~= right@);
    true
}

/// Whether two texts are equal.
pub fn same_text(left: &str, right: &str) -> (same: bool)
    ensures
        same == (left@ == right@),
{
    same_chars(to_chars(left).as_slice(), to_chars(right).as_slice())
}

/// Whether an optional text holds exactly `expected`.
pub fn holds_text(text: &Option<String>, expected: &str) -> (held: bool)
    ensures
        held == (text is Some && text->0@ == expected@),
{
    match text {
        Some(text) => same_text(text.as_str(), expected),
        None => false,
    }
}

/// The view of an optional text.
pub open spec fn optional_view(text: Option<String>) -> Option<Seq<char>> {
    match text {
        Some(text) => Some(text@),
        None => None,
    }
}

/// Whether two optional texts are equal.
pub fn same_optional(left: &Option<String>, right: &Option<String>) -> (same: bool)
    ensures
        same == (optional_view(*left) == optional_view(*right)),
{
    match (left, right) {
        (Some(left), Some(right)) => same_text(left.as_str(), right.as_str()),
        (None, None) => true,
        _ => false,
    }
}

/// `first` followed by `second`.
pub fn concat(first: &str, second: &str) -> (text: String)
    ensures
        text@ == first@ + second@,
{
    let mut text = first.to_owned();
    push_text(&mut text, second);
    text
}

/// `first`, `second` and `third`, one after the other.
pub fn concat3(first: &str, second: &str, third: &str) -> (text: String)
    ensures
        text@ == first@ + second@ + third@,
{
    let mut text = concat(first, second);
    push_text(&mut text, third);
    text
}

/// Appends `more` to `text`.
pub fn push_text(text: &mut String, more: &str)
    ensures
        final(text)@ == old(text)@ + more@,
{
    for character in characters: more.chars()
        invariant
            text@ == old(text)@ + more@.take(characters.index()),
            characters.seq() == more@,
    {
        text.push(character);
    }
    assert(more@.take(more@.len() as int) == more@);
}

/// Whether `chars` begins with `prefix`.
pub fn starts_with(chars: &[char], prefix: &[char]) -> (found: bool)
    ensures
        found == prefix@.is_prefix_of(chars@),
{
    if prefix.len() > chars.len() {
        return false;
    }
    same_chars(slice_subrange(chars, 0, prefix.len()), prefix)
}

/// White space: the characters with the Unicode property `White_Space`.
pub open spec fn is_white_space(c: char) -> bool {
    ||| 0x9 <= c as int <= 0xd
    ||| c as int == 0x20
    ||| c as int == 0x85
    ||| c as int == 0xa0
    ||| c as int == 0x1680
    ||| 0x2000 <= c as int <= 0x200a
    ||| c as int == 0x2028
    ||| c as int == 0x2029
    ||| c as int == 0x202f
    ||| c as int == 0x205f
    ||| c as int == 0x3000
}

/// Whether `c` is white space.
pub fn white_space(c: char) -> (white: bool)
    ensures
        white == is_white_space(c),
{
    let code: u32 = c as u32;
    (0x9 <= code && code <= 0xd) || code == 0x20 || code == 0x85 || code == 0xa0 || code == 0x1680
        || (0x2000 <= code && code <= 0x200a) || code == 0x2028 || code == 0x2029 || code == 0x202f
        || code == 0x205f || code == 0x3000
}

/// `s` without the white space at its start.
pub open spec fn trimmed_start(s: Seq<char>) -> Seq<char>
    decreases s.len(),
{
    if s.len() > 0 && is_white_space(s[0]) {
        trimmed_start(s.drop_first())
    } else {
        s
    }
}

/// `s` without the white space at its end.
pub open spec fn trimmed_end(s: Seq<char>) -> Seq<char>
    decreases s.len(),
{
    if s.len() > 0 && is_white_space(s.last()) {
        trimmed_end(s.drop_last())
    } else {
        s
    }
}

/// `s` without the white space at either end.
pub open spec fn trimmed(s: Seq<char>) -> Seq<char> {
    trimmed_end(trimmed_start(s))
}

/// The part of `chars` between the white space at its ends.
pub fn trim(chars: &[char]) -> (part: &[char])
    ensures
        part@ == trimmed(chars@),
{
    let mut from: usize = 0;
    assert(chars@.skip(0) == chars@);
    while from < chars.len() && white_space(chars[from])
        invariant
            from <= chars@.len(),
            trimmed_start(chars@) == trimmed_start(chars@.skip(from as int)),
        decreases chars@.len() - from,
    {
        assert(chars@.skip(from as int).drop_first() == chars@.skip(from + 1));
        from += 1;
    }
    let rest = slice_subrange(chars, from, chars.len());
    assert(rest@ == chars@.skip(from as int));
    let mut to: usize = rest.len();
    assert(rest@.take(to as int) == rest@);
    while to > 0 && white_space(rest[to - 1])
        invariant
            to <= rest@.len(),
            trimmed_end(rest@) == trimmed_end(rest@.take(to as int)),
        decreases to,
    {
        assert(rest@.take(to as int).drop_last() == rest@.take(to - 1));
        to -= 1;
    }
    slice_subrange(rest, 0, to)
}

/// The pieces of `s` between occurrences of `separator`; there is always at least one.
pub open spec fn pieces(s: Seq<char>, separator: char) -> Seq<Seq<char>>
    decreases s.len(),
{
    if s.len() == 0 {
        seq![Seq::empty()]
    } else {
        let before = pieces(s.drop_last(), separator);
        if s.last() == separator {
            before.push(Seq::empty())
        } else {
            before.drop_last().push(before.last().push(s.last()))
        }
    }
}

/// The contents of a list of character vectors.
pub open spec fn chars_view(list: Seq<Vec<char>>) -> Seq<Seq<char>> {
    list.map_values(|part: Vec<char>| part@)
}

/// The contents of a list of texts.
pub open spec fn texts_view(list: Seq<String>) -> Seq<Seq<char>> {
    list.map_values(|part: String| part@)
}

/// Cuts `chars` at every `separator`.
pub fn split(chars: &[char], separator: char) -> (list: Vec<Vec<char>>)
    ensures
        chars_view(list@) == pieces(chars@, separator),
        list@.len() > 0,
{
    let mut list: Vec<Vec<char>> = Vec::new();
    let mut current: Vec<char> = Vec::new();
    assert(pieces(chars@.take(0), separator) == seq![Seq::<char>::empty()]);
    for i in 0..chars.len()
        invariant
            chars_view(list@).push(current@) == pieces(chars@.take(i as int), separator),
    {
        assert(chars@.take(i + 1).drop_last() == chars@.take(i as int));
        let ghost before = chars_view(list@).push(current@);
        assert(before.drop_last() == chars_view(list@));
        if chars[i] == separator {
            let ghost old_list = list@;
            let ghost old_current = current@;
            list.push(current);
            assert(chars_view(list@) == chars_view(old_list).push(old_current));
            current = Vec::new();
        } else {
            current.push(chars[i]);
        }
    }
    assert(chars@.take(chars@.len() as int) == chars@);
    let ghost old_list = list@;
    let ghost old_current = current@;
    list.push(current);
    assert(chars_view(list@) == chars_view(old_list).push(old_current));
    list
}

/// The texts of `list` with `separator` between neighbours.
pub open spec fn joined(list: Seq<Seq<char>>, separator: Seq<char>) -> Seq<char>
    decreases list.len(),
{
    if list.len() == 0 {
        Seq::empty()
    } else if list.len() == 1 {
        list[0]
    } else {
        joined(list.drop_last(), separator) + separator + list.last()
    }
}

/// Cutting a text at a separator and joining the pieces with it gives the text back.
pub proof fn law_pieces_join_back(s: Seq<char>, separator: char)
    ensures
        pieces(s, separator).len() > 0,
        joined(pieces(s, separator), seq![separator]) == s,
    decreases s.len(),
{
    let parts = pieces(s, separator);
    if s.len() == 0 {
        assert(joined(parts, seq![separator]) == s);
    } else {
        let before = pieces(s.drop_last(), separator);
        law_pieces_join_back(s.drop_last(), separator);
        assert(s == s.drop_last().push(s.last()));
        if s.last() == separator {
            assert(parts.drop_last() == before);
            assert(joined(parts, seq![separator]) =~= s);
        } else {
            assert(parts.drop_last() == before.drop_last());
            assert(joined(parts, seq![separator]) =~= s);
        }
    }
}

/// Joins `list` with `separator` between neighbours.
pub fn join(list: &Vec<String>, separator: &str) -> (text: String)
    ensures
        text@ == joined(texts_view(list@), separator@),
{
    let mut text = String::new();
    let ghost parts = texts_view(list@);
    for i in 0..list.len()
        invariant
            parts == texts_view(list@),
            text@ == joined(parts.take(i as int), separator@),
    {
        assert(parts.take(i + 1).drop_last() == parts.take(i as int));
        if i > 0 {
            push_text(&mut text, separator);
        }
        push_text(&mut text, list[i].as_str());
        assert(parts.take(i + 1).last() == list@[i as int]@);
        if i == 0 {
            assert(text@ == parts.take(1)[0]);
        }
    }
    assert(parts.take(list@.len() as int) == parts);
    text
}

/// The decimal digit for `d`.
pub open spec fn digit_char(d: nat) -> char {
    (0x30 + d) as char
}

/// Whether `c` is one of `0` to `9`.
pub open spec fn is_digit(c: char) -> bool {
    '0' <= c <= '9'
}

/// The decimal digits of `n`, without leading zeros.
pub open spec fn decimal(n: nat) -> Seq<char>
    decreases n,
{
    if n < 10 {
        seq![digit_char(n)]
    } else {
        decimal(n / 10).push(digit_char(n % 10))
    }
}

/// Writes `n` in decimal.
pub fn decimal_text(n: u64) -> (text: String)
    ensures
        text@ == decimal(n as nat),
    decreases n,
{
    let digit: char = (0x30 + (n % 10) as u8) as char;
    if n < 10 {
        let mut text = String::new();
        text.push(digit);
        text
    } else {
        let mut text = decimal_text(n / 10);
        text.push(digit);
        text
    }
}

/// The value of a sequence of decimal digits.
pub open spec fn number(s: Seq<char>) -> nat
    decreases s.len(),
{
    if s.len() == 0 {
        0
    } else {
        number(s.drop_last()) * 10 + (s.last() as nat - 0x30) as nat
    }
}

/// What is left of `s` after an optional plus sign.
pub open spec fn unsigned_body(s: Seq<char>) -> Seq<char> {
    if s.len() > 0 && s[0] == '+' {
        s.drop_first()
    } else {
        s
    }
}

/// The number that `s` writes: an optional plus sign, then digits and nothing else.
pub open spec fn unsigned(s: Seq<char>) -> Option<nat> {
    let body = unsigned_body(s);
    if body.len() > 0 && forall|i: int| 0 <= i < body.len() ==> is_digit(#[trigger] body[i]) {
        Some(number(body))
    } else {
        None
    }
}

/// The number that `s` writes, where it fits in 32 bits.
pub open spec fn unsigned32(s: Seq<char>) -> Option<u32> {
    match unsigned(s) {
        Some(value) if value <= u32::MAX => Some(value as u32),
        _ => None,
    }
}

/// Reads an unsigned 32-bit number.
pub fn parse_unsigned(chars: &[char]) -> (value: Option<u32>)
    ensures
        value == unsigned32(chars@),
{
    let body = if chars.len() > 0 && chars[0] == '+' {
        slice_subrange(chars, 1, chars.len())
    } else {
        chars
    };
    assert(body@ == unsigned_body(chars@));
    if body.len() == 0 {
        return None;
    }
    let mut value: u64 = 0;
    let mut fits = true;
    for i in 0..body.len()
        invariant
            body@ == unsigned_body(chars@),
            forall|j: int| 0 <= j < i ==> is_digit(#[trigger] body@[j]),
            fits ==> value == number(body@.take(i as int)) && value <= u32::MAX,
            !fits ==> number(body@.take(i as int)) > u32::MAX,
    {
        let c = body[i];
        if c < '0' || c > '9' {
            assert(!is_digit(body@[i as int]));
            return None;
        }
        assert(body@.take(i + 1).drop_last() == body@.take(i as int));
        if fits {
            value = value * 10 + (c as u64 - 0x30);
            if value > 0xffff_ffff {
                fits = false;
            }
        }
    }
    assert(body@.take(body@.len() as int) == body@);
    if fits {
        Some(value as u32)
    } else {
        None
    }
}

/// Writing a number in decimal and reading it back gives the number.
pub proof fn law_decimal_reads_back(n: nat)
    ensures
        unsigned(decimal(n)) == Some(n),
{
    lemma_decimal_digits(n);
    assert(!is_digit('+'));
    assert(unsigned_body(decimal(n)) == decimal(n));
}

/// The decimal form of a number is a non-empty run of digits whose value is the number.
pub proof fn lemma_decimal_digits(n: nat)
    ensures
        decimal(n).len() > 0,
        forall|i: int| 0 <= i < decimal(n).len() ==> is_digit(#[trigger] decimal(n)[i]),
        number(decimal(n)) == n,
    decreases n,
{
    if n >= 10 {
        lemma_decimal_digits(n / 10);
        let before = decimal(n / 10);
        assert(decimal(n).drop_last() == before);
    } else {
        assert(decimal(n).drop_last() == Seq::<char>::empty());
        assert(number(Seq::<char>::empty()) == 0);
    }
}

/// The view of a list of texts has the text of each entry in its place.
pub proof fn law_views_keep_texts(list: Seq<String>, i: int)
    requires
        0 <= i < list.len(),
    ensures
        texts_view(list).len() == list.len(),
        texts_view(list)[i] == list[i]@,
        optional_view(Some(list[i])) == Some(list[i]@),
        optional_view(None) == None::<Seq<char>>,
{
}

/// Of the characters of ASCII, the space and the five controls from the tab to the carriage return
/// are white space; no character that is seen is.
pub proof fn law_white_space_of_ascii(c: char)
    requires
        c as int <= 0x7f,
    ensures
        is_white_space(c) <==> c == ' ' || c == '\t' || c == '\n' || c == '\r' || c as int == 0x0b
            || c as int == 0x0c,
{
}

/// Trimming takes white space off both ends and nothing else: what is left stands in the text
/// between white space, and neither begins nor ends with any.
pub proof fn law_trimming_takes_white_space_off(s: Seq<char>) -> (ends: (int, int))
    ensures
        0 <= ends.0 <= ends.1 <= s.len(),
        trimmed(s) == s.subrange(ends.0, ends.1),
        forall|i: int| 0 <= i < ends.0 || ends.1 <= i < s.len() ==> is_white_space(#[trigger] s[i]),
        trimmed(s).len() > 0 ==> !is_white_space(trimmed(s)[0]) && !is_white_space(
            trimmed(s)[trimmed(s).len() - 1],
        ),
{
    let from = lemma_trimmed_start(s);
    let rest = trimmed_start(s);
    let count = lemma_trimmed_end(rest);
    let to = from + count;
    assert(trimmed(s) == s.subrange(from, to));
    assert forall|i: int| 0 <= i < from || to <= i < s.len() implies is_white_space(
        #[trigger] s[i],
    ) by {
        if to <= i {
            assert(rest[i - from] == s[i]);
        }
    }
    (from, to)
}

proof fn lemma_trimmed_start(s: Seq<char>) -> (from: int)
    ensures
        0 <= from <= s.len(),
        trimmed_start(s) == s.skip(from),
        forall|i: int| 0 <= i < from ==> is_white_space(#[trigger] s[i]),
        from < s.len() ==> !is_white_space(s[from]),
    decreases s.len(),
{
    if s.len() > 0 && is_white_space(s[0]) {
        let rest = s.drop_first();
        let more = lemma_trimmed_start(rest);
        assert(rest.skip(more) == s.skip(more + 1));
        assert forall|i: int| 0 <= i < more + 1 implies is_white_space(#[trigger] s[i]) by {
            if i > 0 {
                assert(rest[i - 1] == s[i]);
            }
        }
        more + 1
    } else {
        assert(s.skip(0) == s);
        0
    }
}

proof fn lemma_trimmed_end(s: Seq<char>) -> (count: int)
    ensures
        0 <= count <= s.len(),
        trimmed_end(s) == s.take(count),
        forall|i: int| count <= i < s.len() ==> is_white_space(#[trigger] s[i]),
        count > 0 ==> !is_white_space(s[count - 1]),
    decreases s.len(),
{
    if s.len() > 0 && is_white_space(s.last()) {
        let fewer = s.drop_last();
        let count = lemma_trimmed_end(fewer);
        assert(fewer.take(count) == s.take(count));
        assert forall|i: int| count <= i < s.len() implies is_white_space(#[trigger] s[i]) by {
            if i < fewer.len() {
                assert(fewer[i] == s[i]);
            }
        }
        count
    } else {
        assert(s.take(s.len() as int) == s);
        s.len() as int
    }
}

/// A text without white space at its ends is not trimmed.
pub proof fn law_trimmed_stays_as_it_is(s: Seq<char>)
    requires
        s.len() > 0 ==> !is_white_space(s[0]) && !is_white_space(s[s.len() - 1]),
    ensures
        trimmed(s) == s,
{
}

/// The pieces between separators hold no separator, and there is one piece more than there are
/// separators.
pub proof fn law_pieces_hold_no_separator(s: Seq<char>, separator: char)
    ensures
        forall|i: int|
            0 <= i < pieces(s, separator).len() ==> !(#[trigger] pieces(s, separator)[i]).contains(
                separator,
            ),
        pieces(s, separator).len() == s.filter(|c: char| c == separator).len() + 1,
    decreases s.len(),
{
    let is_separator = |c: char| c == separator;
    reveal(Seq::filter);
    if s.len() > 0 {
        let fewer = s.drop_last();
        law_pieces_hold_no_separator(fewer, separator);
        let before = pieces(fewer, separator);
        let after = pieces(s, separator);
        assert(before.len() > 0);
        assert forall|i: int| 0 <= i < after.len() implies !(#[trigger] after[i]).contains(
            separator,
        ) by {
            if i < before.len() - 1 {
                assert(after[i] == before[i]);
            } else if s.last() == separator {
                if i < before.len() {
                    assert(after[i] == before[i]);
                }
            } else {
                assert(!before[before.len() - 1].contains(separator));
                assert(after[i] == before.last().push(s.last()));
                if after[i].contains(separator) {
                    let k = choose|k: int| 0 <= k < after[i].len() && after[i][k] == separator;
                    assert(before.last()[k] == separator);
                }
            }
        }
    } else {
        assert(s.filter(is_separator).len() == 0);
    }
}

/// Joining puts the separator between neighbours and nowhere else.
pub proof fn law_join_puts_separators_between(
    list: Seq<Seq<char>>,
    separator: Seq<char>,
    last: Seq<char>,
)
    ensures
        joined(Seq::empty(), separator) == Seq::<char>::empty(),
        joined(seq![last], separator) == last,
        list.len() > 0 ==> joined(list.push(last), separator) == joined(list, separator) + separator
            + last,
{
    assert(list.push(last).drop_last() == list);
}

/// A number is read digit by digit, each worth ten times less than the one before it.
pub proof fn law_number_by_digits(s: Seq<char>, digit: char)
    requires
        '0' <= digit <= '9',
    ensures
        number(Seq::empty()) == 0,
        number(s.push(digit)) == 10 * number(s) + (digit as int - '0' as int),
{
    assert(s.push(digit).drop_last() == s);
}

/// The decimal form of a number consists of digits, does not begin with a zero unless it is the
/// zero, and reads as the number; there is only one such form.
pub proof fn law_decimal_form(n: nat)
    ensures
        decimal(n).len() > 0,
        forall|i: int| 0 <= i < decimal(n).len() ==> '0' <= #[trigger] decimal(n)[i] <= '9',
        n > 0 ==> decimal(n)[0] != '0',
        n == 0 ==> decimal(n) == seq!['0'],
        number(decimal(n)) == n,
    decreases n,
{
    lemma_decimal_digits(n);
    if n >= 10 {
        law_decimal_form(n / 10);
        assert(decimal(n)[0] == decimal(n / 10)[0]);
    }
}

/// A text writes a number exactly if it consists of digits, at least one, behind an optional plus
/// sign; which number that is the digits say. Numbers over 32 bits are refused where only 32 bits are
/// read.
pub proof fn law_unsigned_is_digits(s: Seq<char>)
    ensures
        s.len() > 0 && (forall|i: int| 0 <= i < s.len() ==> '0' <= #[trigger] s[i] <= '9')
            ==> unsigned(s) == Some(number(s)) && unsigned(seq!['+'] + s) == Some(number(s)),
        s.len() == 0 ==> unsigned(s) is None && unsigned(seq!['+'] + s) is None,
        (exists|i: int| 0 <= i < s.len() && !('0' <= #[trigger] s[i] <= '9')) ==> unsigned(
            seq!['+'] + s,
        ) is None && (s[0] != '+' ==> unsigned(s) is None),
        unsigned(s) is Some && unsigned(s)->0 <= 0xffff_ffff ==> unsigned32(s) == Some(
            unsigned(s)->0 as u32,
        ),
        unsigned(s) is Some && unsigned(s)->0 > 0xffff_ffff ==> unsigned32(s) is None,
        unsigned(s) is None ==> unsigned32(s) is None,
{
    let signed = seq!['+'] + s;
    assert(signed[0] == '+');
    assert(signed.drop_first() == s);
    if s.len() > 0 && forall|i: int| 0 <= i < s.len() ==> '0' <= #[trigger] s[i] <= '9' {
        assert('0' <= s[0] <= '9');
        assert forall|i: int| 0 <= i < s.len() implies is_digit(#[trigger] s[i]) by {}
    }
    if exists|i: int| 0 <= i < s.len() && !('0' <= #[trigger] s[i] <= '9') {
        let i = choose|i: int| 0 <= i < s.len() && !('0' <= #[trigger] s[i] <= '9');
        assert(!is_digit(s[i]));
    }
}

/// Cutting two texts with a separator between them gives the pieces of both, one after the other.
pub proof fn lemma_pieces_around(left: Seq<char>, right: Seq<char>, separator: char)
    ensures
        pieces(left + seq![separator] + right, separator) == pieces(left, separator) + pieces(
            right,
            separator,
        ),
        pieces(left, separator).len() > 0,
    decreases right.len(),
{
    law_pieces_join_back(left, separator);
    let whole = left + seq![separator] + right;
    let first = pieces(left, separator);
    if right.len() == 0 {
        assert(whole.drop_last() == left);
        assert(whole.last() == separator);
        assert(first.push(Seq::empty()) == first + seq![Seq::<char>::empty()]);
    } else {
        let fewer = right.drop_last();
        lemma_pieces_around(left, fewer, separator);
        law_pieces_join_back(fewer, separator);
        assert(whole.drop_last() == left + seq![separator] + fewer);
        assert(whole.last() == right.last());
        let second = pieces(fewer, separator);
        let before = first + second;
        assert(before.drop_last() == first + second.drop_last());
        assert(before.last() == second.last());
        assert(pieces(whole, separator) =~= first + pieces(right, separator));
    }
}

/// Every piece stands in the text, character by character.
pub proof fn lemma_piece_stands_in_text(s: Seq<char>, separator: char, i: int) -> (at: int)
    requires
        0 <= i < pieces(s, separator).len(),
    ensures
        0 <= at,
        at + pieces(s, separator)[i].len() <= s.len(),
        s.subrange(at, at + pieces(s, separator)[i].len()) == pieces(s, separator)[i],
        i == pieces(s, separator).len() - 1 ==> at + pieces(s, separator)[i].len() == s.len(),
    decreases s.len(),
{
    let after = pieces(s, separator);
    if s.len() == 0 {
        assert(s.subrange(0, 0) == after[i]);
        0
    } else {
        let fewer = s.drop_last();
        let before = pieces(fewer, separator);
        law_pieces_join_back(fewer, separator);
        if s.last() == separator && i == before.len() {
            assert(s.subrange(s.len() as int, s.len() as int) == after[i]);
            s.len() as int
        } else {
            let at = lemma_piece_stands_in_text(fewer, separator, i);
            let size = before[i].len() as int;
            if s.last() != separator && i == before.len() - 1 {
                assert(after[i] == before[i].push(s.last()));
                assert(s.subrange(at, at + size + 1) == fewer.subrange(at, at + size).push(
                    s.last(),
                ));
            } else {
                assert(after[i] == before[i]);
                assert(s.subrange(at, at + size) == fewer.subrange(at, at + size));
            }
            at
        }
    }
}

/// Beyond ASCII, white space are the next line, the spaces that do not break or have a width of
/// their own, the separators of lines and paragraphs, and the spaces of mathematics and of
/// ideographs.
pub proof fn law_white_space_beyond_ascii(c: char)
    requires
        c as int > 0x7f,
    ensures
        is_white_space(c) <==> {
            let code = c as int;
            ||| seq![0x85int, 0xa0, 0x1680, 0x2028, 0x2029, 0x202f, 0x205f, 0x3000].contains(code)
            ||| 0 <= code - 0x2000 < 11
        },
{
    let list = seq![0x85int, 0xa0, 0x1680, 0x2028, 0x2029, 0x202f, 0x205f, 0x3000];
    let code = c as int;
    assert(list[0] == 0x85 && list[1] == 0xa0 && list[2] == 0x1680 && list[3] == 0x2028 && list[4]
        == 0x2029 && list[5] == 0x202f && list[6] == 0x205f && list[7] == 0x3000);
    if list.contains(code) {
        let k = choose|k: int| 0 <= k < list.len() && list[k] == code;
    }
}

/// The view of a list of character vectors has the characters of each entry in its place.
pub proof fn law_views_keep_characters(list: Seq<Vec<char>>, i: int)
    requires
        0 <= i < list.len(),
    ensures
        chars_view(list).len() == list.len(),
        chars_view(list)[i] == list[i]@,
{
}

} // verus!
