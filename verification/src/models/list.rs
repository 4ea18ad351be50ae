//! The table of models.
use crate::arith;
use crate::models;
use crate::models::{ModelIndex, ModelProfile};
use crate::names;
use crate::order;
use crate::text;
use vstd::prelude::*;

verus! {

/// A table of the `comfy-table` crate.
#[verifier::external_type_specification]
#[verifier::external_body]
pub struct ExTable(comfy_table::Table);

/// The header of a table.
pub uninterp spec fn table_header(table: comfy_table::Table) -> Seq<Seq<char>>;

/// The rows of a table: of each the number, the name, whether the name is green, and the location.
pub uninterp spec fn table_rows(table: comfy_table::Table) -> Seq<
    (Seq<char>, Seq<char>, bool, Seq<char>),
>;

/// `Table::new`, with `set_header`, makes a table that has a header and no rows;
/// `enforce_styling` and `load_style` only set how it is drawn: in color wherever it goes, with
/// borders round the whole.
#[verifier::external_body]
fn new_table(id: &str, name: &str, location: &str) -> (table: comfy_table::Table)
    ensures
        table_header(table) == seq![id@, name@, location@],
        table_rows(table).len() == 0,
{
    let mut table = comfy_table::Table::new();
    table
        .enforce_styling()
        .load_style(comfy_table::presets::UTF8_BORDERS_ONLY)
        .set_header([id, name, location]);
    table
}

/// `Table::add_row` appends a row of `Cell`s, none of which has a color of its own.
#[verifier::external_body]
fn add_plain_row(table: &mut comfy_table::Table, id: &str, name: &str, location: &str)
    ensures
        table_header(*final(table)) == table_header(*old(table)),
        table_rows(*final(table)) == table_rows(*old(table)).push((id@, name@, false, location@)),
{
    table.add_row([
        comfy_table::Cell::new(id),
        comfy_table::Cell::new(name),
        comfy_table::Cell::new(location),
    ]);
}

/// `Table::add_row` appends a row of `Cell`s; `Cell::fg` makes the second one green.
#[verifier::external_body]
fn add_green_row(table: &mut comfy_table::Table, id: &str, name: &str, location: &str)
    ensures
        table_header(*final(table)) == table_header(*old(table)),
        table_rows(*final(table)) == table_rows(*old(table)).push((id@, name@, true, location@)),
{
    table.add_row([
        comfy_table::Cell::new(id),
        comfy_table::Cell::new(name).fg(comfy_table::Color::Green),
        comfy_table::Cell::new(location),
    ]);
}

/// `count` spaces.
pub open spec fn spaces(count: int) -> Seq<char> {
    Seq::new(arith::greater(count, 0) as nat, |i: int| ' ')
}

/// A text at the right end of a field that is at least `width` characters wide.
pub open spec fn right_aligned(s: Seq<char>, width: int) -> Seq<char> {
    spaces(width - s.len()) + s
}

/// Puts a text at the right end of a field.
pub fn align_right(s: &str, width: usize) -> (aligned: String)
    ensures
        aligned@ == right_aligned(s@, width as int),
{
    let mut aligned = String::new();
    let length: usize = text::to_chars(s).len();
    let mut room: usize = width.saturating_sub(length);
    let ghost whole = spaces(width - length);
    assert(room == whole.len());
    while room > 0
        invariant
            room <= whole.len(),
            whole == spaces(width - length),
            aligned@ == whole.take(whole.len() - room),
        decreases room,
    {
        aligned.push(' ');
        room -= 1;
        assert(aligned@ =~= whole.take(whole.len() - room));
    }
    assert(whole.take(whole.len() as int) == whole);
    text::push_text(&mut aligned, s);
    aligned
}

/// The greatest number of digits that one of the numbers has, and at least one.
pub open spec fn number_width(entries: Seq<(String, ModelProfile)>) -> int
    decreases entries.len(),
{
    if entries.len() == 0 {
        1
    } else {
        arith::greater(
            number_width(entries.drop_last()),
            text::decimal(entries.last().1.id as nat).len() as int,
        )
    }
}

/// The first cell of a model: its number, behind a star if it is the model in use.
pub open spec fn number_cell(id: u32, width: int, active: bool) -> Seq<char> {
    if active {
        "*"@ + right_aligned(text::decimal(id as nat), width)
    } else {
        right_aligned(text::decimal(id as nat), width + 1)
    }
}

/// The row of a model, with its location if it is installed.
pub open spec fn model_row(
    entry: (String, ModelProfile),
    width: int,
    active: Option<Seq<char>>,
    location: Option<Seq<char>>,
) -> (Seq<char>, Seq<char>, bool, Seq<char>) {
    (
        number_cell(entry.1.id, width, active == Some(entry.0@)),
        entry.0@,
        location is Some,
        match location {
            Some(place) => place,
            None => "Not installed"@,
        },
    )
}

/// The numbers of all models.
pub open spec fn all_numbers(entries: Seq<(String, ModelProfile)>) -> Seq<u64> {
    entries.map_values(|entry: (String, ModelProfile)| entry.1.id as u64)
}

/// The rows of all models, by ascending number.
pub open spec fn model_rows(
    entries: Seq<(String, ModelProfile)>,
    active: Option<Seq<char>>,
    locations: Seq<Option<Seq<char>>>,
) -> Seq<(Seq<char>, Seq<char>, bool, Seq<char>)> {
    order::stable_order(all_numbers(entries)).map_values(
        |i: int| model_row(entries[i], number_width(entries), active, locations[i]),
    )
}

/// The views of optional texts.
pub open spec fn optional_views(list: Seq<Option<String>>) -> Seq<Option<Seq<char>>> {
    list.map_values(|part: Option<String>| text::optional_view(part))
}

proof fn lemma_decimal_short(n: nat)
    requires
        n <= u32::MAX,
    ensures
        1 <= text::decimal(n).len() <= 10,
{
    reveal_with_fuel(text::decimal, 11);
}

/// The greatest number of digits that one of the numbers has, and at least one.
fn find_number_width(entries: &Vec<(String, ModelProfile)>) -> (width: usize)
    ensures
        width == number_width(entries@),
        1 <= width <= 10,
{
    let mut width: usize = 1;
    assert(entries@.take(0) == Seq::<(String, ModelProfile)>::empty());
    for i in 0..entries.len()
        invariant
            width == number_width(entries@.take(i as int)),
            1 <= width <= 10,
    {
        assert(entries@.take(i + 1).drop_last() == entries@.take(i as int));
        let digits = text::decimal_text(entries[i].1.id as u64);
        proof {
            lemma_decimal_short(entries@[i as int].1.id as nat);
        }
        let length: usize = text::to_chars(digits.as_str()).len();
        if length > width {
            width = length;
        }
    }
    assert(entries@.take(entries@.len() as int) == entries@);
    width
}

/// Makes the table of all models by ascending number, given of each, in the order of the index,
/// where it is installed.
pub fn model_table(index: &ModelIndex, active: &Option<String>, locations: &Vec<Option<String>>) -> (
    table: comfy_table::Table)
    requires
        locations@.len() == index.profiles.entries@.len(),
    ensures
        table_header(table) == seq!["ID"@, "Model"@, "Location"@],
        table_rows(table) == model_rows(
            index.profiles.entries@,
            text::optional_view(*active),
            optional_views(locations@),
        ),
{
    let entries = &index.profiles.entries;
    let ghost places = optional_views(locations@);
    let ghost used = text::optional_view(*active);
    let ghost whole = model_rows(entries@, used, places);
    let mut keys: Vec<u64> = Vec::new();
    for i in 0..entries.len()
        invariant
            entries@ == index.profiles.entries@,
            keys@ == all_numbers(entries@).take(i as int),
    {
        keys.push(entries[i].1.id as u64);
    }
    assert(keys@ == all_numbers(entries@));
    let order = order::sort_order(&keys);
    let width: usize = find_number_width(entries);
    let mut table = new_table("ID", "Model", "Location");
    assert(table_rows(table) =~= whole.take(0));
    for k in 0..order.len()
        invariant
            entries@ == index.profiles.entries@,
            locations@.len() == entries@.len(),
            places == optional_views(locations@),
            used == text::optional_view(*active),
            whole == model_rows(entries@, used, places),
            keys@.len() == entries@.len(),
            keys@ == all_numbers(entries@),
            order::positions(order@) == order::stable_order(keys@),
            order::is_stable_order(order::positions(order@), keys@, keys@.len() as int),
            width == number_width(entries@),
            1 <= width <= 10,
            table_header(table) == seq!["ID"@, "Model"@, "Location"@],
            table_rows(table) == whole.take(k as int),
    {
        assert(order::positions(order@)[k as int] == order@[k as int]);
        let i: usize = order[k];
        let name = entries[i].0.as_str();
        let digits = text::decimal_text(entries[i].1.id as u64);
        let id = if text::holds_text(active, name) {
            text::concat("*", align_right(digits.as_str(), width).as_str())
        } else {
            align_right(digits.as_str(), width + 1)
        };
        assert(places[i as int] == text::optional_view(locations@[i as int]));
        match &locations[i] {
            Some(place) => add_green_row(&mut table, id.as_str(), name, place.as_str()),
            None => add_plain_row(&mut table, id.as_str(), name, "Not installed"),
        }
        assert(whole[k as int] == model_row(
            entries@[i as int],
            width as int,
            used,
            places[i as int],
        ));
        assert(whole.take(k + 1) == whole.take(k as int).push(whole[k as int]));
    }
    assert(whole.take(order@.len() as int) == whole);
    table
}

/// Every model of the index has exactly one row, and the rows go by ascending number.
pub proof fn law_rows_by_number(
    entries: Seq<(String, ModelProfile)>,
    active: Option<Seq<char>>,
    locations: Seq<Option<Seq<char>>>,
)
    ensures
        model_rows(entries, active, locations).len() == entries.len(),
        order::is_stable_order(
            order::stable_order(all_numbers(entries)),
            all_numbers(entries),
            entries.len() as int,
        ),
        forall|k: int|
            0 <= k < entries.len() ==> (#[trigger] model_rows(entries, active, locations)[k]).1
                == entries[order::stable_order(all_numbers(entries))[k]].0@,
{
    order::law_stable_order(all_numbers(entries));
}

/// All number cells have the same width.
pub proof fn law_number_cells_align(
    entries: Seq<(String, ModelProfile)>,
    i: int,
    active: bool,
)
    requires
        0 <= i < entries.len(),
    ensures
        number_cell(entries[i].1.id, number_width(entries), active).len() == number_width(entries)
            + 1,
    decreases entries.len(),
{
    reveal_strlit("*");
    lemma_width_covers(entries, i);
}

proof fn lemma_width_covers(entries: Seq<(String, ModelProfile)>, i: int)
    requires
        0 <= i < entries.len(),
    ensures
        text::decimal(entries[i].1.id as nat).len() <= number_width(entries),
    decreases entries.len(),
{
    if i < entries.len() - 1 {
        lemma_width_covers(entries.drop_last(), i);
    }
}

/// A text that is put at the right end of a field keeps its characters, has nothing but spaces
/// before it, and fills the field as far as it is shorter.
pub proof fn law_right_aligned_text_is_kept(s: Seq<char>, width: int, i: int)
    ensures
        right_aligned(s, width).len() == (if s.len() < width {
            width
        } else {
            s.len() as int
        }),
        s.is_suffix_of(right_aligned(s, width)),
        0 <= i < right_aligned(s, width).len() - s.len() ==> right_aligned(s, width)[i] == ' ',
{
    let whole = right_aligned(s, width);
    assert(whole.subrange(whole.len() - s.len(), whole.len() as int) == s);
}

/// The number of a model stands at the right end of its cell, in decimal; a star stands at the left
/// end exactly if the model is in use, and there is room for it in any case.
pub proof fn law_star_marks_the_model_in_use(
    entries: Seq<(String, ModelProfile)>,
    i: int,
    active: bool,
)
    requires
        0 <= i < entries.len(),
    ensures
        ({
            let cell = number_cell(entries[i].1.id, number_width(entries), active);
            let digits = text::decimal(entries[i].1.id as nat);
            &&& digits.is_suffix_of(cell)
            &&& cell.len() > digits.len()
            &&& active <==> cell[0] == '*'
            &&& !active <==> cell[0] == ' '
            &&& forall|k: int| 0 < k < cell.len() - digits.len() ==> #[trigger] cell[k] == ' '
        }),
{
    reveal_strlit("*");
    lemma_width_covers(entries, i);
    let width = number_width(entries);
    let digits = text::decimal(entries[i].1.id as nat);
    let cell = number_cell(entries[i].1.id, width, active);
    law_right_aligned_text_is_kept(digits, width, 0);
    law_right_aligned_text_is_kept(digits, width + 1, 0);
    assert(cell.subrange(cell.len() - digits.len(), cell.len() as int) == digits);
}

/// The cells are no wider than the longest number needs.
pub proof fn law_width_is_that_of_the_longest_number(entries: Seq<(String, ModelProfile)>)
    ensures
        number_width(entries) == 1 || exists|i: int|
            0 <= i < entries.len() && text::decimal((#[trigger] entries[i]).1.id as nat).len()
                == number_width(entries),
    decreases entries.len(),
{
    if entries.len() > 0 {
        let fewer = entries.drop_last();
        law_width_is_that_of_the_longest_number(fewer);
        assert(entries[entries.len() - 1] == entries.last());
        if number_width(entries) == number_width(fewer) && number_width(fewer) != 1 {
            let i = choose|i: int|
                0 <= i < fewer.len() && text::decimal((#[trigger] fewer[i]).1.id as nat).len()
                    == number_width(fewer);
            assert(entries[i] == fewer[i]);
        }
    }
}

/// The rows come by ascending number, and each tells of its model the name, in green exactly if it
/// is installed, and where it is, or that it is not installed.
pub proof fn law_row_tells_of_its_model(
    entries: Seq<(String, ModelProfile)>,
    active: Option<Seq<char>>,
    locations: Seq<Option<Seq<char>>>,
    j: int,
    k: int,
) -> (places: Seq<int>)
    requires
        0 <= j <= k < entries.len(),
    ensures
        places.len() == entries.len(),
        model_rows(entries, active, locations).len() == entries.len(),
        forall|i: int| 0 <= i < entries.len() ==> #[trigger] places.contains(i),
        0 <= places[j] < entries.len() && 0 <= places[k] < entries.len(),
        j < k ==> places[j] != places[k],
        entries[places[j]].1.id <= entries[places[k]].1.id,
        ({
            let row = model_rows(entries, active, locations)[k];
            let entry = entries[places[k]];
            &&& row.0 == number_cell(
                entry.1.id,
                number_width(entries),
                active == Some(entry.0@),
            )
            &&& row.1 == entry.0@
            &&& row.2 <==> locations[places[k]] is Some
            &&& locations[places[k]] matches Some(place) ==> row.3 == place
            &&& locations[places[k]] is None ==> row.3 == "Not installed"@
        }),
{
    let keys = all_numbers(entries);
    order::law_stable_order(keys);
    let places = order::stable_order(keys);
    if j < k {
        assert(order::precedes(keys, places[j], places[k]));
    }
    places
}

/// The view of optional texts has each of them in its place.
pub proof fn law_views_keep_locations(list: Seq<Option<String>>, i: int)
    requires
        0 <= i < list.len(),
    ensures
        optional_views(list).len() == list.len(),
        list[i] matches Some(place) ==> optional_views(list)[i] == Some(place@),
        list[i] is None ==> optional_views(list)[i] is None,
{
}

} // verus!
