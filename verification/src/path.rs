//! File paths as text, as Unix has them.
use crate::text;
use vstd::prelude::*;

verus! {

/// Whether a path begins at the root.
pub open spec fn is_absolute(path: Seq<char>) -> bool {
    path.len() > 0 && path[0] == '/'
}

/// `name` taken relative to `base`: an absolute name stands for itself, else one slash parts the
/// two.
pub open spec fn joined_path(base: Seq<char>, name: Seq<char>) -> Seq<char> {
    if is_absolute(name) {
        name
    } else if base.len() == 0 || base.last() == '/' {
        base + name
    } else {
        base + "/"@ + name
    }
}

/// Whether one of a path's components is the parent directory.
pub open spec fn climbs(path: Seq<char>) -> bool {
    exists|i: int| 0 <= i < text::pieces(path, '/').len() && #[trigger] text::pieces(path, '/')[i] == ".."@
}

/// Whether a path begins at the root.
pub fn absolute(path: &str) -> (found: bool)
    ensures
        found == is_absolute(path@),
{
    let chars = text::to_chars(path);
    chars.len() > 0 && chars[0] == '/'
}

/// Takes `name` relative to `base`.
pub fn join(base: &str, name: &str) -> (path: String)
    ensures
        path@ == joined_path(base@, name@),
{
    if absolute(name) {
        return name.to_owned();
    }
    let chars = text::to_chars(base);
    if chars.len() == 0 || chars[chars.len() - 1] == '/' {
        text::concat(base, name)
    } else {
        text::concat3(base, "/", name)
    }
}

/// Whether one of a path's components is the parent directory.
pub fn has_parent_component(path: &str) -> (found: bool)
    ensures
        found == climbs(path@),
{
    let chars = text::to_chars(path);
    let parts = text::split(chars.as_slice(), '/');
    let ghost pieces = text::pieces(path@, '/');
    for i in 0..parts.len()
        invariant
            pieces == text::pieces(path@, '/'),
            pieces == text::chars_view(parts@),
            forall|j: int| 0 <= j < i ==> #[trigger] pieces[j] != ".."@,
    {
        assert(pieces[i as int] == parts@[i as int]@);
        if text::same_chars(parts[i].as_slice(), text::to_chars("..").as_slice()) {
            return true;
        }
    }
    false
}

/// The places where a command may be: the entries of a search path, parted by colons, each with
/// the command's name.
pub open spec fn candidates(search_path: Seq<char>, command: Seq<char>) -> Seq<Seq<char>> {
    text::pieces(search_path, ':').map_values(|entry: Seq<char>| joined_path(entry, command))
}

/// Lists the places where a command may be, in the order of the search path.
pub fn command_candidates(search_path: &str, command: &str) -> (places: Vec<String>)
    ensures
        text::texts_view(places@) == candidates(search_path@, command@),
{
    let chars = text::to_chars(search_path);
    let entries = text::split(chars.as_slice(), ':');
    let ghost whole = candidates(search_path@, command@);
    let mut places: Vec<String> = Vec::new();
    for i in 0..entries.len()
        invariant
            text::chars_view(entries@) == text::pieces(search_path@, ':'),
            whole == candidates(search_path@, command@),
            text::texts_view(places@) == whole.take(i as int),
    {
        assert(text::chars_view(entries@)[i as int] == entries@[i as int]@);
        let entry = text::from_chars(entries[i].as_slice());
        let ghost before = places@;
        let place = join(entry.as_str(), command);
        places.push(place);
        assert(text::texts_view(places@) == text::texts_view(before).push(place@));
        assert(whole.take(i + 1) == whole.take(i as int).push(place@));
    }
    assert(whole.take(entries@.len() as int) == whole);
    places
}

/// The directory that a path stands in.
pub uninterp spec fn parent_of(path: Seq<char>) -> Option<Seq<char>>;

/// `Path::parent` gives the path without its last component, or nothing for a path that ends in
/// the root or is empty.
#[verifier::external_body]
pub(crate) fn parent(path: &str) -> (directory: Option<String>)
    ensures
        text::optional_view(directory) == parent_of(path@),
{
    std::path::Path::new(path).parent().map(|directory| directory.display().to_string())
}

/// What is left of a path after a leading run of components.
pub uninterp spec fn below(path: Seq<char>, base: Seq<char>) -> Option<Seq<char>>;

/// `Path::strip_prefix` takes the components of `base` from the front of a path, where it begins
/// with them.
#[verifier::external_body]
fn strip_prefix(path: &str, base: &str) -> (rest: Option<String>)
    ensures
        text::optional_view(rest) == below(path@, base@),
{
    std::path::Path::new(path).strip_prefix(base).ok().map(|rest| rest.display().to_string())
}

/// How a path is shown: from a tilde on where it is below the home directory.
pub open spec fn shown_path(path: Seq<char>, relative: Option<Seq<char>>) -> Seq<char> {
    match relative {
        Some(rest) => "~/"@ + rest,
        None => path,
    }
}

/// Shows a path, given what is left of it below the home directory.
pub fn show_path(path: &str, relative: &Option<String>) -> (shown: String)
    ensures
        shown@ == shown_path(path@, text::optional_view(*relative)),
{
    match relative {
        Some(rest) => text::concat("~/", rest.as_str()),
        None => path.to_owned(),
    }
}

/// Shows a path, from a tilde on where it is below the home directory.
pub fn display_path(path: &str, home: &Option<String>) -> (shown: String)
    ensures
        shown@ == shown_path(
            path@,
            match text::optional_view(*home) {
                Some(home) => below(path@, home),
                None => None,
            },
        ),
{
    let relative = match home {
        Some(home) => strip_prefix(path, home.as_str()),
        None => None,
    };
    show_path(path, &relative)
}

/// A path that is not absolute, taken relative to a directory, begins with the directory's own
/// text.
pub proof fn law_relative_path_begins_with_directory(base: Seq<char>, name: Seq<char>)
    requires
        !is_absolute(name),
    ensures
        base.is_prefix_of(joined_path(base, name)),
{
    assert(joined_path(base, name).subrange(0, base.len() as int) == base);
}

/// A relative name stands behind the directory, parted from it by one slash, which is the
/// directory's own where it ends with one and left away where the directory is empty; a name that
/// begins with a slash stands alone.
pub proof fn law_name_stands_behind_the_directory(base: Seq<char>, name: Seq<char>)
    ensures
        name.len() > 0 && name[0] == '/' ==> joined_path(base, name) == name,
        name.len() == 0 || name[0] != '/' ==> {
            let whole = joined_path(base, name);
            &&& base.is_prefix_of(whole) && name.is_suffix_of(whole)
            &&& base.len() == 0 || base[base.len() - 1] == '/' ==> whole.len() == base.len()
                + name.len()
            &&& base.len() > 0 && base[base.len() - 1] != '/' ==> whole.len() == base.len()
                + name.len() + 1 && whole[base.len() as int] == '/'
        },
{
    reveal_strlit("/");
    if name.len() == 0 || name[0] != '/' {
        let whole = joined_path(base, name);
        assert(whole.subrange(0, base.len() as int) == base);
        assert(whole.subrange(whole.len() - name.len(), whole.len() as int) == name);
    }
}

/// A path climbs wherever two dots stand in it alone, between slashes or the ends of the path.
pub proof fn law_two_dots_alone_climb(before: Seq<char>, after: Seq<char>)
    ensures
        climbs(seq!['.', '.']),
        climbs(seq!['.', '.', '/'] + after),
        climbs(before + seq!['/', '.', '.']),
        climbs(before + seq!['/', '.', '.', '/'] + after),
{
    reveal_strlit("..");
    let dots = seq!['.', '.'];
    assert(dots == ".."@);
    lemma_plain_piece(dots, '/');
    assert(text::pieces(dots, '/')[0] == ".."@);
    text::lemma_pieces_around(dots, after, '/');
    assert(seq!['.', '.', '/'] + after == dots + seq!['/'] + after);
    let one = text::pieces(seq!['.', '.', '/'] + after, '/');
    assert(one[0] == ".."@);
    text::lemma_pieces_around(before, dots, '/');
    assert(before + seq!['/', '.', '.'] == before + seq!['/'] + dots);
    let two = text::pieces(before + seq!['/', '.', '.'], '/');
    assert(two[text::pieces(before, '/').len() as int] == ".."@);
    let head = before + seq!['/', '.', '.'];
    text::lemma_pieces_around(head, after, '/');
    assert(before + seq!['/', '.', '.', '/'] + after == head + seq!['/'] + after);
    let three = text::pieces(before + seq!['/', '.', '.', '/'] + after, '/');
    assert(three[text::pieces(before, '/').len() as int] == ".."@);
}

proof fn lemma_plain_piece(s: Seq<char>, separator: char)
    requires
        !s.contains(separator),
    ensures
        text::pieces(s, separator) == seq![s],
    decreases s.len(),
{
    if s.len() == 0 {
        assert(s == Seq::<char>::empty());
    } else {
        let fewer = s.drop_last();
        assert(s[s.len() - 1] == s.last());
        if fewer.contains(separator) {
            let k = choose|k: int| 0 <= k < fewer.len() && fewer[k] == separator;
            assert(s[k] == separator);
        }
        lemma_plain_piece(fewer, separator);
        assert(fewer.push(s.last()) == s);
        assert(seq![fewer].drop_last().push(s) == seq![s]);
    }
}

/// A path without two dots in a row does not climb.
pub proof fn law_path_without_two_dots_does_not_climb(path: Seq<char>)
    requires
        forall|i: int|
            0 <= i < path.len() - 1 ==> !(#[trigger] path[i] == '.' && path[i + 1] == '.'),
    ensures
        !climbs(path),
{
    reveal_strlit("..");
    if climbs(path) {
        let parts = text::pieces(path, '/');
        let i = choose|i: int| 0 <= i < parts.len() && #[trigger] parts[i] == ".."@;
        let at = text::lemma_piece_stands_in_text(path, '/', i);
        assert(path.subrange(at, at + 2)[0] == '.');
        assert(path.subrange(at, at + 2)[1] == '.');
        assert(path[at] == '.' && path[at + 1] == '.');
    }
}

/// A command is looked for in every entry of the search path, in the order of the entries, under its
/// own name.
pub proof fn law_command_is_looked_for_in_every_entry(
    search_path: Seq<char>,
    command: Seq<char>,
    i: int,
)
    requires
        0 <= i < text::pieces(search_path, ':').len(),
    ensures
        candidates(search_path, command).len() == text::pieces(search_path, ':').len(),
        candidates(search_path, command)[i] == joined_path(
            text::pieces(search_path, ':')[i],
            command,
        ),
{
}

/// A path below the home directory is shown by what is left of it behind a tilde and a slash, any
/// other as it is.
pub proof fn law_tilde_stands_for_home(path: Seq<char>, rest: Seq<char>)
    ensures
        shown_path(path, None) == path,
        shown_path(path, Some(rest)) == seq!['~', '/'] + rest,
{
    reveal_strlit("~/");
    assert("~/"@ == seq!['~', '/']);
}

} // verus!
