//! Recognition models: the index of those that can be had, and the choice among them.
pub mod config;
pub mod install;
pub mod list;
pub mod uninstall;

use crate::names;
use crate::names::NameMap;
use crate::order;
use crate::text;
use vstd::prelude::*;

verus! {

/// What can go wrong with models.
#[derive(Debug)]
pub enum ModelError {
    /// The index, or a look into it, is at fault.
    Index(String),
    /// An operation failed, for the reason given.
    Operation(String),
}

/// What an error says.
pub enum ErrorView {
    /// The index, or a look into it, is at fault.
    Index(Seq<char>),
    /// An operation failed, for the reason given.
    Operation(Seq<char>),
}

impl View for ModelError {
    type V = ErrorView;

    open spec fn view(&self) -> ErrorView {
        match self {
            ModelError::Index(reason) => ErrorView::Index(reason@),
            ModelError::Operation(reason) => ErrorView::Operation(reason@),
        }
    }
}

impl ModelError {
    /// The reason, as it is shown.
    pub open spec fn text(self) -> Seq<char> {
        match self {
            ModelError::Index(reason) => reason@,
            ModelError::Operation(reason) => reason@,
        }
    }

    /// The reason, as it is shown.
    pub fn message(&self) -> (message: String)
        ensures
            message@ == self.text(),
    {
        match self {
            ModelError::Index(reason) => reason.clone(),
            ModelError::Operation(reason) => reason.clone(),
        }
    }
}

/// The error for a failed step: what was tried, then why it failed.
pub fn operation(context: &str, error: &str) -> (failure: ModelError)
    ensures
        failure is Operation,
        failure.text() == context@ + ": "@ + error@,
{
    ModelError::Operation(text::concat3(context, ": ", error))
}

/// A model that can be had.
#[derive(Debug)]
pub struct ModelProfile {
    /// Its number.
    pub id: u32,
    /// Where it is downloaded from.
    pub url: String,
    /// The checksum of the download.
    pub sha256: String,
}

/// The models that can be had, by name.
#[derive(Debug)]
pub struct ModelIndex {
    /// The version of the index format.
    pub format: u32,
    /// The models.
    pub profiles: NameMap<ModelProfile>,
}

/// The content of a map that holds `entries`, where of several entries with one name the last
/// counts.
pub open spec fn last_entries(entries: Seq<(String, ModelProfile)>) -> Map<Seq<char>, ModelProfile>
    decreases entries.len(),
{
    if entries.len() == 0 {
        Map::empty()
    } else {
        last_entries(entries.drop_last()).insert(entries.last().0@, entries.last().1)
    }
}

/// Makes an index of `entries`; of several entries with one name the last counts.
pub fn model_index(format: u32, entries: Vec<(String, ModelProfile)>) -> (index: ModelIndex)
    ensures
        index.format == format,
        index.profiles.wf(),
        index.profiles@ == last_entries(entries@),
{
    let mut profiles: NameMap<ModelProfile> = NameMap::new();
    let ghost whole = entries@;
    for entry in rest: entries
        invariant
            profiles.wf(),
            rest.seq() == whole,
            profiles@ == last_entries(whole.take(rest.index())),
    {
        let ghost n = rest.index();
        assert(whole.take(n + 1).drop_last() == whole.take(n));
        let (name, profile) = entry;
        profiles.insert(name, profile);
    }
    assert(whole.take(whole.len() as int) == whole);
    ModelIndex { format, profiles }
}

/// What is wrong with the last of some entries: its number is zero or was given before.
pub open spec fn last_entry_fault(entries: Seq<(String, ModelProfile)>) -> Option<Seq<char>> {
    let (name, profile) = entries.last();
    if profile.id == 0 {
        Some("model ID must be positive: "@ + name@)
    } else if exists|i: int|
        0 <= i < entries.len() - 1 && (#[trigger] entries[i]).1.id == profile.id {
        Some("duplicate model ID: "@ + text::decimal(profile.id as nat))
    } else {
        None
    }
}

/// What is wrong with the numbers of some entries; the first fault counts.
pub open spec fn numbering_fault(entries: Seq<(String, ModelProfile)>) -> Option<Seq<char>>
    decreases entries.len(),
{
    if entries.len() == 0 {
        None
    } else {
        match numbering_fault(entries.drop_last()) {
            Some(fault) => Some(fault),
            None => last_entry_fault(entries),
        }
    }
}

proof fn lemma_fault_stays(entries: Seq<(String, ModelProfile)>, n: int)
    requires
        0 <= n <= entries.len(),
        numbering_fault(entries.take(n)) is Some,
    ensures
        numbering_fault(entries) == numbering_fault(entries.take(n)),
    decreases entries.len() - n,
{
    if n == entries.len() {
        assert(entries.take(n) == entries);
    } else {
        assert(entries.take(n + 1).drop_last() == entries.take(n));
        lemma_fault_stays(entries, n + 1);
    }
}

/// Checks that every model has a number of its own, from one up.
pub fn validate_index(index: &ModelIndex) -> (checked: Result<(), ModelError>)
    ensures
        checked is Ok <==> numbering_fault(index.profiles.entries@) is None,
        checked matches Err(error) ==> (error matches ModelError::Index(reason) && reason@
            == numbering_fault(index.profiles.entries@)->0),
{
    let entries = &index.profiles.entries;
    assert(entries@.take(0) == Seq::<(String, ModelProfile)>::empty());
    for i in 0..entries.len()
        invariant
            entries@ == index.profiles.entries@,
            numbering_fault(entries@.take(i as int)) is None,
    {
        let ghost known = entries@.take(i + 1);
        assert(known.drop_last() == entries@.take(i as int));
        assert(known.last() == entries@[i as int]);
        let id: u32 = entries[i].1.id;
        if id == 0 {
            proof {
                lemma_fault_stays(entries@, i + 1);
            }
            return Err(
                ModelError::Index(
                    text::concat("model ID must be positive: ", entries[i].0.as_str()),
                ),
            );
        }
        for j in 0..i
            invariant
                i < entries@.len(),
                entries@ == index.profiles.entries@,
                known == entries@.take(i + 1),
                known.drop_last() == entries@.take(i as int),
                numbering_fault(entries@.take(i as int)) is None,
                id == entries@[i as int].1.id,
                id != 0,
                forall|k: int| 0 <= k < j ==> (#[trigger] known[k]).1.id != id,
        {
            assert(known[j as int] == entries@[j as int]);
            if entries[j].1.id == id {
                proof {
                    assert(known.last() == entries@[i as int]);
                    lemma_fault_stays(entries@, i + 1);
                }
                return Err(
                    ModelError::Index(
                        text::concat(
                            "duplicate model ID: ",
                            text::decimal_text(id as u64).as_str(),
                        ),
                    ),
                );
            }
        }
    }
    assert(entries@.take(entries@.len() as int) == entries@);
    Ok(())
}

/// What is wrong with an index.
pub open spec fn index_fault(index: ModelIndex) -> Option<Seq<char>> {
    if index.format != 1 {
        Some("unsupported model index format "@ + text::decimal(index.format as nat))
    } else {
        numbering_fault(index.profiles.entries@)
    }
}

/// Accepts an index of the supported format with proper numbers.
pub fn load_index(index: ModelIndex) -> (loaded: Result<ModelIndex, ModelError>)
    ensures
        index_fault(index) is None ==> loaded == Ok::<ModelIndex, ModelError>(index),
        index_fault(index) is Some ==> (loaded matches Err(ModelError::Index(reason)) && reason@
            == index_fault(index)->0),
{
    if index.format != 1 {
        return Err(
            ModelError::Index(
                text::concat(
                    "unsupported model index format ",
                    text::decimal_text(index.format as u64).as_str(),
                ),
            ),
        );
    }
    match validate_index(&index) {
        Ok(()) => Ok(index),
        Err(error) => Err(error),
    }
}

/// An index passes exactly if all numbers are positive and no two are equal.
pub proof fn law_numbers_are_distinct(entries: Seq<(String, ModelProfile)>)
    ensures
        numbering_fault(entries) is None <==> {
            &&& forall|i: int| 0 <= i < entries.len() ==> (#[trigger] entries[i]).1.id > 0
            &&& forall|i: int, j: int|
                0 <= i < j < entries.len() ==> (#[trigger] entries[i]).1.id != (
                #[trigger] entries[j]).1.id
        },
    decreases entries.len(),
{
    if entries.len() > 0 {
        let fewer = entries.drop_last();
        law_numbers_are_distinct(fewer);
        let last = entries.len() - 1;
        assert(forall|i: int| 0 <= i < last ==> #[trigger] entries[i] == fewer[i]);
        assert(entries[last] == entries.last());
        if numbering_fault(fewer) is Some {
            if forall|i: int| 0 <= i < fewer.len() ==> (#[trigger] fewer[i]).1.id > 0 {
                let (i, j) = choose|i: int, j: int|
                    0 <= i < j < fewer.len() && !((#[trigger] fewer[i]).1.id != (
                    #[trigger] fewer[j]).1.id);
                assert(entries[i].1.id == entries[j].1.id);
            } else {
                let i = choose|i: int|
                    0 <= i < fewer.len() && !((#[trigger] fewer[i]).1.id > 0);
                assert(entries[i].1.id == 0);
            }
        }
    }
}

/// The first entry with a number.
pub open spec fn first_with_id(entries: Seq<(String, ModelProfile)>, id: u32) -> Option<int>
    decreases entries.len(),
{
    if entries.len() == 0 {
        None
    } else {
        match first_with_id(entries.drop_last(), id) {
            Some(i) => Some(i),
            None => if entries.last().1.id == id {
                Some(entries.len() - 1)
            } else {
                None
            },
        }
    }
}

proof fn lemma_first_with_id(entries: Seq<(String, ModelProfile)>, id: u32, i: int)
    requires
        0 <= i < entries.len(),
        entries[i].1.id == id,
        forall|j: int| 0 <= j < i ==> (#[trigger] entries[j]).1.id != id,
    ensures
        first_with_id(entries, id) == Some(i),
    decreases entries.len(),
{
    if i < entries.len() - 1 {
        lemma_first_with_id(entries.drop_last(), id, i);
    } else {
        lemma_none_with_id(entries.drop_last(), id);
    }
}

proof fn lemma_none_with_id(entries: Seq<(String, ModelProfile)>, id: u32)
    requires
        forall|j: int| 0 <= j < entries.len() ==> (#[trigger] entries[j]).1.id != id,
    ensures
        first_with_id(entries, id) is None,
    decreases entries.len(),
{
    if entries.len() > 0 {
        lemma_none_with_id(entries.drop_last(), id);
    }
}

/// Where a selector points: to the first entry with the number that it writes, else to the entry
/// of that name; or the reason why it points nowhere.
pub open spec fn resolution(index: ModelIndex, selector: Seq<char>) -> Result<int, Seq<char>> {
    match text::unsigned32(selector) {
        Some(id) => match first_with_id(index.profiles.entries@, id) {
            Some(i) => Ok(i),
            None => Err("unknown model ID: "@ + text::decimal(id as nat)),
        },
        None => if index.profiles@.contains_key(selector) {
            Ok(index.profiles.names().index_of(selector))
        } else {
            Err("unknown model profile: "@ + selector)
        },
    }
}

/// Finds a model by its number or its name.
pub fn resolve_profile<'a>(index: &'a ModelIndex, selector: &str) -> (found: Result<
    (&'a str, &'a ModelProfile),
    ModelError,
>)
    requires
        index.profiles.wf(),
    ensures
        match resolution(*index, selector@) {
            Ok(i) => {
                &&& found matches Ok((name, profile))
                &&& 0 <= i < index.profiles.entries@.len()
                &&& name@ == index.profiles.entries@[i].0@
                &&& *profile == index.profiles.entries@[i].1
            },
            Err(reason) => found matches Err(ModelError::Index(shown)) && shown@ == reason,
        },
{
    let chars = text::to_chars(selector);
    let entries = &index.profiles.entries;
    if let Some(id) = text::parse_unsigned(chars.as_slice()) {
        for i in 0..entries.len()
            invariant
                entries@ == index.profiles.entries@,
                text::unsigned32(selector@) == Some(id),
                forall|j: int| 0 <= j < i ==> (#[trigger] entries@[j]).1.id != id,
        {
            if entries[i].1.id == id {
                proof {
                    lemma_first_with_id(entries@, id, i as int);
                }
                return Ok((entries[i].0.as_str(), &entries[i].1));
            }
        }
        proof {
            lemma_none_with_id(entries@, id);
        }
        return Err(
            ModelError::Index(
                text::concat("unknown model ID: ", text::decimal_text(id as u64).as_str()),
            ),
        );
    }
    match index.profiles.position(selector) {
        Some(i) => {
            proof {
                index.profiles.lemma_position(i as int);
            }
            Ok((entries[i].0.as_str(), &entries[i].1))
        },
        None => Err(ModelError::Index(text::concat("unknown model profile: ", selector))),
    }
}

/// In an index that passed, the number of a model written in decimal points to that model, and so
/// does its name unless that writes a number itself.
pub proof fn law_number_and_name_agree(index: ModelIndex, i: int)
    requires
        index.profiles.wf(),
        index_fault(index) is None,
        0 <= i < index.profiles.entries@.len(),
    ensures
        resolution(index, text::decimal(index.profiles.entries@[i].1.id as nat)) == Ok::<
            int,
            Seq<char>,
        >(i),
        text::unsigned32(index.profiles.entries@[i].0@) is None ==> resolution(
            index,
            index.profiles.entries@[i].0@,
        ) == Ok::<int, Seq<char>>(i),
{
    let entries = index.profiles.entries@;
    let id = entries[i].1.id;
    text::law_decimal_reads_back(id as nat);
    law_numbers_are_distinct(entries);
    assert forall|j: int| 0 <= j < i implies (#[trigger] entries[j]).1.id != id by {}
    lemma_first_with_id(entries, id, i);
    index.profiles.lemma_position(i);
}

/// Whether a list of texts holds `name`.
pub fn lists_name(list: &Vec<String>, name: &str) -> (found: bool)
    ensures
        found == text::texts_view(list@).contains(name@),
{
    let ghost shown = text::texts_view(list@);
    for i in 0..list.len()
        invariant
            shown == text::texts_view(list@),
            forall|j: int| 0 <= j < i ==> #[trigger] shown[j] != name@,
    {
        assert(shown[i as int] == list@[i as int]@);
        if text::same_text(list[i].as_str(), name) {
            return true;
        }
    }
    false
}

/// The positions of the entries whose names are among `present`, in the order of the names.
pub open spec fn present_positions(
    entries: Seq<(String, ModelProfile)>,
    present: Seq<Seq<char>>,
) -> Seq<int>
    decreases entries.len(),
{
    if entries.len() == 0 {
        Seq::empty()
    } else {
        let before = present_positions(entries.drop_last(), present);
        if present.contains(entries.last().0@) {
            before.push(entries.len() - 1)
        } else {
            before
        }
    }
}

/// The numbers of the entries at some positions.
pub open spec fn numbers_at(entries: Seq<(String, ModelProfile)>, positions: Seq<int>) -> Seq<u64> {
    positions.map_values(|i: int| entries[i].1.id as u64)
}

/// The names of the entries at some positions.
pub open spec fn names_at(entries: Seq<(String, ModelProfile)>, positions: Seq<int>) -> Seq<
    Seq<char>,
> {
    positions.map_values(|i: int| entries[i].0@)
}

/// The names of the entries that are among `present`, by ascending number.
pub open spec fn by_number(
    entries: Seq<(String, ModelProfile)>,
    present: Seq<Seq<char>>,
) -> Seq<Seq<char>> {
    let found = present_positions(entries, present);
    names_at(entries, order::picked(found, order::stable_order(numbers_at(entries, found))))
}

proof fn lemma_present_positions(entries: Seq<(String, ModelProfile)>, present: Seq<Seq<char>>)
    ensures
        forall|k: int|
            0 <= k < present_positions(entries, present).len() ==> 0
                <= #[trigger] present_positions(entries, present)[k] < entries.len()
                && present.contains(entries[present_positions(entries, present)[k]].0@),
        forall|i: int|
            0 <= i < entries.len() && present.contains((#[trigger] entries[i]).0@)
                ==> present_positions(entries, present).contains(i),
    decreases entries.len(),
{
    if entries.len() > 0 {
        let fewer = entries.drop_last();
        lemma_present_positions(fewer, present);
        let before = present_positions(fewer, present);
        let after = present_positions(entries, present);
        assert forall|k: int| 0 <= k < after.len() implies 0 <= #[trigger] after[k] < entries.len()
            && present.contains(entries[after[k]].0@) by {
            if k < before.len() {
                assert(after[k] == before[k]);
                assert(entries[before[k]] == fewer[before[k]]);
            }
        }
        assert forall|i: int|
            0 <= i < entries.len() && present.contains(
                (#[trigger] entries[i]).0@,
            ) implies after.contains(i) by {
            if i < fewer.len() {
                assert(fewer[i] == entries[i]);
                assert(before.contains(i));
                let k = choose|k: int| 0 <= k < before.len() && before[k] == i;
                assert(after[k] == i);
            } else {
                assert(after[before.len() as int] == i);
            }
        }
    }
}

/// Lists the models that are present, by ascending number.
pub fn installed_profiles(index: &ModelIndex, present: &Vec<String>) -> (installed: Vec<String>)
    ensures
        text::texts_view(installed@) == by_number(
            index.profiles.entries@,
            text::texts_view(present@),
        ),
{
    let entries = &index.profiles.entries;
    let ghost shown = text::texts_view(present@);
    let mut found: Vec<usize> = Vec::new();
    let mut keys: Vec<u64> = Vec::new();
    assert(order::positions(found@) == present_positions(entries@.take(0), shown));
    assert(keys@ == numbers_at(entries@, order::positions(found@)));
    for i in 0..entries.len()
        invariant
            entries@ == index.profiles.entries@,
            shown == text::texts_view(present@),
            order::positions(found@) == present_positions(entries@.take(i as int), shown),
            keys@ == numbers_at(entries@, order::positions(found@)),
    {
        assert(entries@.take(i + 1).drop_last() == entries@.take(i as int));
        if lists_name(present, entries[i].0.as_str()) {
            let ghost before = found@;
            found.push(i);
            assert(order::positions(found@) == order::positions(before).push(i as int));
            keys.push(entries[i].1.id as u64);
            assert(keys@ == numbers_at(entries@, order::positions(found@)));
        }
    }
    assert(entries@.take(entries@.len() as int) == entries@);
    let order = order::sort_order(&keys);
    let ghost places = order::positions(order@);
    let ghost sorted = order::picked(order::positions(found@), places);
    proof {
        lemma_present_positions(entries@, shown);
    }
    let mut installed: Vec<String> = Vec::new();
    for k in 0..order.len()
        invariant
            entries@ == index.profiles.entries@,
            found@.len() == keys@.len(),
            places == order::positions(order@),
            order::is_stable_order(places, keys@, keys@.len() as int),
            sorted == order::picked(order::positions(found@), places),
            forall|m: int|
                0 <= m < found@.len() ==> 0 <= #[trigger] order::positions(found@)[m]
                    < entries@.len(),
            text::texts_view(installed@) == names_at(entries@, sorted.take(k as int)),
    {
        assert(places[k as int] == order@[k as int]);
        assert(order::positions(found@)[places[k as int]] == found@[places[k as int]]);
        let ghost before = installed@;
        let name = entries[found[order[k]]].0.clone();
        installed.push(name);
        assert(text::texts_view(installed@) == text::texts_view(before).push(name@));
        assert(sorted.take(k + 1) == sorted.take(k as int).push(found@[order@[k as int] as int] as int));
        assert(names_at(entries@, sorted.take(k + 1)) == names_at(entries@, sorted.take(k as int)).push(name@));
    }
    assert(sorted.take(order@.len() as int) == sorted);
    installed
}

/// What is listed as present is exactly what the index knows of it.
pub proof fn law_listed_is_present(
    entries: Seq<(String, ModelProfile)>,
    present: Seq<Seq<char>>,
    name: Seq<char>,
)
    ensures
        by_number(entries, present).contains(name) <==> present.contains(name)
            && names::entry_names(entries).contains(name),
{
    lemma_present_positions(entries, present);
    let found = present_positions(entries, present);
    let keys = numbers_at(entries, found);
    order::law_stable_order(keys);
    let places = order::stable_order(keys);
    let list = by_number(entries, present);
    let known = names::entry_names(entries);
    if list.contains(name) {
        let k = choose|k: int| 0 <= k < list.len() && list[k] == name;
        let i = found[places[k]];
        assert(known[i] == name);
    }
    if present.contains(name) && known.contains(name) {
        let i = choose|i: int| 0 <= i < known.len() && known[i] == name;
        assert(entries[i].0@ == name);
        assert(found.contains(i));
        let m = choose|m: int| 0 <= m < found.len() && found[m] == i;
        assert(places.contains(m));
        let k = choose|k: int| 0 <= k < places.len() && places[k] == m;
        assert(list[k] == name);
    }
}

/// The number that the index gives a name.
pub open spec fn number_of(index: ModelIndex, name: Seq<char>) -> Option<u32> {
    if index.profiles@.contains_key(name) {
        Some(index.profiles@[name].id)
    } else {
        None
    }
}

/// The first of `installed` with a number over `id`.
pub open spec fn first_above(index: ModelIndex, installed: Seq<Seq<char>>, id: u32) -> Option<
    Seq<char>,
>
    decreases installed.len(),
{
    if installed.len() == 0 {
        None
    } else if number_of(index, installed[0]) matches Some(number) && number > id {
        Some(installed[0])
    } else {
        first_above(index, installed.drop_first(), id)
    }
}

/// The first of some names.
pub open spec fn first_of(list: Seq<Seq<char>>) -> Option<Seq<char>> {
    if list.len() == 0 {
        None
    } else {
        Some(list[0])
    }
}

/// The model to use next after the one with number `id`: the next one up, else the first.
pub open spec fn successor(index: ModelIndex, installed: Seq<Seq<char>>, id: u32) -> Option<
    Seq<char>,
> {
    match first_above(index, installed, id) {
        Some(name) => Some(name),
        None => first_of(installed),
    }
}

/// The model in use: the configured one if it is installed, else the one after it, else the first.
pub open spec fn selection(
    index: ModelIndex,
    configured: Option<Seq<char>>,
    installed: Seq<Seq<char>>,
) -> Option<Seq<char>> {
    match configured {
        Some(name) => if installed.contains(name) {
            Some(name)
        } else {
            match number_of(index, name) {
                Some(id) => successor(index, installed, id),
                None => first_of(installed),
            }
        },
        None => first_of(installed),
    }
}

/// The number that the index gives a name.
fn find_number(index: &ModelIndex, name: &str) -> (number: Option<u32>)
    requires
        index.profiles.wf(),
    ensures
        number == number_of(*index, name@),
{
    match index.profiles.get(name) {
        Some(profile) => Some(profile.id),
        None => None,
    }
}

/// Finds the model to use next after the one with number `id`.
pub fn next_profile(index: &ModelIndex, installed: &Vec<String>, id: u32) -> (next: Option<String>)
    requires
        index.profiles.wf(),
    ensures
        text::optional_view(next) == successor(*index, text::texts_view(installed@), id),
{
    let ghost list = text::texts_view(installed@);
    assert(list.skip(0) == list);
    for i in 0..installed.len()
        invariant
            index.profiles.wf(),
            list == text::texts_view(installed@),
            first_above(*index, list, id) == first_above(*index, list.skip(i as int), id),
    {
        assert(list[i as int] == installed@[i as int]@);
        assert(list.skip(i as int).drop_first() == list.skip(i + 1));
        if let Some(number) = find_number(index, installed[i].as_str()) {
            if number > id {
                return Some(installed[i].clone());
            }
        }
    }
    assert(list.skip(installed@.len() as int).len() == 0);
    if installed.len() > 0 {
        assert(list[0] == installed@[0]@);
        Some(installed[0].clone())
    } else {
        None
    }
}

/// Chooses the model in use.
pub fn selected_profile(
    index: &ModelIndex,
    configured: &Option<String>,
    installed: &Vec<String>,
) -> (selected: Result<String, ModelError>)
    requires
        index.profiles.wf(),
    ensures
        match selection(
            *index,
            text::optional_view(*configured),
            text::texts_view(installed@),
        ) {
            Some(name) => selected matches Ok(selected) && selected@ == name,
            None => selected matches Err(ModelError::Operation(reason)) && reason@
                == "no model profile is installed"@,
        },
{
    let mut next: Option<String> = None;
    let mut chosen = false;
    if let Some(name) = configured {
        if lists_name(installed, name.as_str()) {
            return Ok(name.clone());
        }
        if let Some(id) = find_number(index, name.as_str()) {
            next = next_profile(index, installed, id);
            chosen = true;
        }
    }
    if !chosen && installed.len() > 0 {
        assert(text::texts_view(installed@)[0] == installed@[0]@);
        next = Some(installed[0].clone());
    }
    match next {
        Some(name) => Ok(name),
        None => Err(ModelError::Operation("no model profile is installed".to_owned())),
    }
}

/// What is found is installed.
pub proof fn lemma_first_above(index: ModelIndex, installed: Seq<Seq<char>>, id: u32)
    ensures
        first_above(index, installed, id) matches Some(name) ==> installed.contains(name),
    decreases installed.len(),
{
    if installed.len() > 0 {
        assert(installed.contains(installed[0]));
        lemma_first_above(index, installed.drop_first(), id);
        if first_above(index, installed.drop_first(), id) is Some {
            let name = first_above(index, installed.drop_first(), id)->0;
            let i = choose|i: int|
                0 <= i < installed.drop_first().len() && installed.drop_first()[i] == name;
            if installed.drop_first().contains(name) {
                assert(installed[i + 1] == name);
            }
        }
    }
}

/// The model in use is always an installed one, and there is one whenever a model is installed.
pub proof fn law_selection_is_installed(
    index: ModelIndex,
    configured: Option<Seq<char>>,
    installed: Seq<Seq<char>>,
)
    ensures
        selection(index, configured, installed) is None <==> installed.len() == 0,
        selection(index, configured, installed) matches Some(name) ==> installed.contains(name),
{
    if installed.len() > 0 {
        assert(installed.contains(installed[0]));
    }
    if configured is Some {
        if let Some(id) = number_of(index, configured->0) {
            lemma_first_above(index, installed, id);
        }
    }
    if installed.len() == 0 && configured is Some {
        assert(!installed.contains(configured->0));
    }
}

/// The number of a name is that of the entry with this name; a name without an entry has none.
pub proof fn law_number_is_that_of_the_entry(index: ModelIndex, name: Seq<char>, i: int)
    requires
        index.profiles.wf(),
        0 <= i < index.profiles.entries@.len(),
    ensures
        index.profiles.entries@[i].0@ == name ==> number_of(index, name) == Some(
            index.profiles.entries@[i].1.id,
        ),
        (forall|k: int|
            0 <= k < index.profiles.entries@.len() ==> (#[trigger] index.profiles.entries@[k]).0@
                != name) ==> number_of(index, name) is None,
{
    index.profiles.lemma_position(i);
    let names = index.profiles.names();
    if names.contains(name) {
        let k = choose|k: int| 0 <= k < names.len() && names[k] == name;
        assert(index.profiles.entries@[k].0@ == name);
    }
}

/// The model that is used after the one with number `id` is the first of the installed ones whose
/// number is over `id`; where no installed model has such a number it is the first of all, and where
/// none is installed there is none.
pub proof fn law_next_model_is_the_next_number_up(
    index: ModelIndex,
    installed: Seq<Seq<char>>,
    id: u32,
)
    ensures
        installed.len() == 0 ==> successor(index, installed, id) is None,
        installed.len() > 0 ==> exists|k: int|
            0 <= k < installed.len() && successor(index, installed, id) == Some(
                #[trigger] installed[k],
            ) && (forall|j: int|
                0 <= j < k ==> !(number_of(index, #[trigger] installed[j]) matches Some(number)
                    && number > id)) && (number_of(index, installed[k]) matches Some(number)
                && number > id || k == 0 && forall|j: int|
                0 <= j < installed.len() ==> !(number_of(index, #[trigger] installed[j]) matches
                    Some(number) && number > id)),
{
    lemma_first_above_is_first(index, installed, id);
    if installed.len() > 0 {
        if first_above(index, installed, id) is Some {
            let k = choose|k: int|
                0 <= k < installed.len() && first_above(index, installed, id) == Some(
                    #[trigger] installed[k],
                ) && (number_of(index, installed[k]) matches Some(number) && number > id) && forall|
                    j: int,
                |
                    0 <= j < k ==> !(number_of(index, #[trigger] installed[j]) matches Some(number)
                        && number > id);
            assert(successor(index, installed, id) == Some(installed[k]));
        } else {
            assert(successor(index, installed, id) == Some(installed[0]));
        }
    }
}

proof fn lemma_first_above_is_first(index: ModelIndex, installed: Seq<Seq<char>>, id: u32)
    ensures
        first_above(index, installed, id) is Some ==> exists|k: int|
            0 <= k < installed.len() && first_above(index, installed, id) == Some(
                #[trigger] installed[k],
            ) && (number_of(index, installed[k]) matches Some(number) && number > id) && forall|
                j: int,
            |
                0 <= j < k ==> !(number_of(index, #[trigger] installed[j]) matches Some(number)
                    && number > id),
        first_above(index, installed, id) is None ==> forall|j: int|
            0 <= j < installed.len() ==> !(number_of(index, #[trigger] installed[j]) matches Some(
                number,
            ) && number > id),
    decreases installed.len(),
{
    if installed.len() > 0 {
        if number_of(index, installed[0]) matches Some(number) && number > id {
            assert(first_above(index, installed, id) == Some(installed[0]));
        } else {
            let rest = installed.drop_first();
            lemma_first_above_is_first(index, rest, id);
            if first_above(index, rest, id) is Some {
                let k = choose|k: int|
                    0 <= k < rest.len() && first_above(index, rest, id) == Some(
                        #[trigger] rest[k],
                    ) && (number_of(index, rest[k]) matches Some(number) && number > id) && forall|
                        j: int,
                    |
                        0 <= j < k ==> !(number_of(index, #[trigger] rest[j]) matches Some(number)
                            && number > id);
                assert(installed[k + 1] == rest[k]);
                assert forall|j: int| 0 <= j < k + 1 implies !(number_of(
                    index,
                    #[trigger] installed[j],
                ) matches Some(number) && number > id) by {
                    if j > 0 {
                        assert(installed[j] == rest[j - 1]);
                    }
                }
            } else {
                assert forall|j: int| 0 <= j < installed.len() implies !(number_of(
                    index,
                    #[trigger] installed[j],
                ) matches Some(number) && number > id) by {
                    if j > 0 {
                        assert(installed[j] == rest[j - 1]);
                    }
                }
            }
        }
    }
}

/// The installed models are listed by ascending number, and the number of each is the one that the
/// index gives it.
pub proof fn law_installed_models_ascend(index: ModelIndex, present: Seq<Seq<char>>, i: int, j: int)
    requires
        index.profiles.wf(),
        0 <= i < j < by_number(index.profiles.entries@, present).len(),
    ensures
        ({
            let list = by_number(index.profiles.entries@, present);
            &&& number_of(index, list[i]) is Some
            &&& number_of(index, list[j]) is Some
            &&& number_of(index, list[i])->0 <= number_of(index, list[j])->0
        }),
{
    let entries = index.profiles.entries@;
    lemma_present_positions(entries, present);
    let found = present_positions(entries, present);
    let keys = numbers_at(entries, found);
    order::law_stable_order(keys);
    let places = order::stable_order(keys);
    assert(order::precedes(keys, places[i], places[j]));
    index.profiles.lemma_position(found[places[i]]);
    index.profiles.lemma_position(found[places[j]]);
}

/// Where some installed model has a number over that of the one that is removed, the model that is
/// used next is the one with the least such number; where none has, it is the one with the least
/// number of all.
pub proof fn law_next_model_has_the_least_number(
    index: ModelIndex,
    present: Seq<Seq<char>>,
    id: u32,
    other: Seq<char>,
)
    requires
        index.profiles.wf(),
        present.contains(other),
        index.profiles.names().contains(other),
    ensures
        ({
            let next = successor(index, by_number(index.profiles.entries@, present), id);
            let number = number_of(index, next->0);
            &&& next is Some
            &&& present.contains(next->0)
            &&& number is Some
            &&& number_of(index, other) is Some
            &&& number_of(index, other)->0 > id ==> id < number->0 <= number_of(index, other)->0
            &&& number->0 <= id ==> number->0 <= number_of(index, other)->0 <= id
        }),
{
    let entries = index.profiles.entries@;
    let list = by_number(entries, present);
    law_listed_is_present(entries, present, other);
    assert(index.profiles.names() == names::entry_names(entries));
    assert(list.contains(other));
    let m = choose|m: int| 0 <= m < list.len() && list[m] == other;
    law_next_model_is_the_next_number_up(index, list, id);
    let next = successor(index, list, id);
    let k = choose|k: int|
        0 <= k < list.len() && next == Some(#[trigger] list[k]) && (forall|j: int|
            0 <= j < k ==> !(number_of(index, #[trigger] list[j]) matches Some(number) && number
                > id)) && (number_of(index, list[k]) matches Some(number) && number > id || k == 0
            && forall|j: int|
            0 <= j < list.len() ==> !(number_of(index, #[trigger] list[j]) matches Some(number)
                && number > id));
    assert(list.contains(list[k]));
    law_listed_is_present(entries, present, list[k]);
    assert(index.profiles@.contains_key(other));
    assert(index.profiles@.contains_key(list[k]));
    if k < m {
        law_installed_models_ascend(index, present, k, m);
    } else if m < k {
        law_installed_models_ascend(index, present, m, k);
    }
}

/// A configured model that is installed is the one in use; in place of one that is not installed the
/// next number up is used where the index knows the model, and the first installed model in every
/// other case.
pub proof fn law_configured_model_is_used(
    index: ModelIndex,
    name: Seq<char>,
    installed: Seq<Seq<char>>,
)
    ensures
        installed.contains(name) ==> selection(index, Some(name), installed) == Some(name),
        !installed.contains(name) && index.profiles@.contains_key(name) ==> selection(
            index,
            Some(name),
            installed,
        ) == successor(index, installed, index.profiles@[name].id),
        !installed.contains(name) && !index.profiles@.contains_key(name) && installed.len() > 0
            ==> selection(index, Some(name), installed) == Some(installed[0]),
        installed.len() > 0 ==> selection(index, None, installed) == Some(installed[0]),
        installed.len() == 0 ==> selection(index, None, installed) is None,
{
}

/// A selector that writes a number points to an entry with this number, and no entry before it has
/// the number; any other selector points to the entry with this name. It points nowhere exactly if
/// there is no such entry.
pub proof fn law_selector_points_to_its_model(index: ModelIndex, selector: Seq<char>)
    requires
        index.profiles.wf(),
    ensures
        ({
            let entries = index.profiles.entries@;
            let found = resolution(index, selector);
            &&& text::unsigned32(selector) matches Some(id) ==> {
                &&& found is Err <==> forall|j: int|
                    0 <= j < entries.len() ==> (#[trigger] entries[j]).1.id != id
                &&& found matches Ok(i) ==> 0 <= i < entries.len() && entries[i].1.id == id && forall|
                    j: int,
                |
                    0 <= j < i ==> (#[trigger] entries[j]).1.id != id
            }
            &&& text::unsigned32(selector) is None ==> {
                &&& found is Err <==> forall|j: int|
                    0 <= j < entries.len() ==> (#[trigger] entries[j]).0@ != selector
                &&& found matches Ok(i) ==> 0 <= i < entries.len() && entries[i].0@ == selector
            }
        }),
{
    let entries = index.profiles.entries@;
    let names = index.profiles.names();
    match text::unsigned32(selector) {
        Some(id) => {
            lemma_first_with_id_found(entries, id);
        },
        None => {
            if names.contains(selector) {
                let i = choose|i: int| 0 <= i < names.len() && names[i] == selector;
                index.profiles.lemma_position(i);
                assert(entries[i].0@ == selector);
            } else {
                assert forall|j: int| 0 <= j < entries.len() implies (#[trigger] entries[j]).0@
                    != selector by {
                    assert(names[j] == entries[j].0@);
                }
            }
        },
    }
}

proof fn lemma_first_with_id_found(entries: Seq<(String, ModelProfile)>, id: u32)
    ensures
        first_with_id(entries, id) is None <==> forall|j: int|
            0 <= j < entries.len() ==> (#[trigger] entries[j]).1.id != id,
        first_with_id(entries, id) matches Some(i) ==> 0 <= i < entries.len() && entries[i].1.id
            == id && forall|j: int| 0 <= j < i ==> (#[trigger] entries[j]).1.id != id,
    decreases entries.len(),
{
    if entries.len() > 0 {
        let fewer = entries.drop_last();
        lemma_first_with_id_found(fewer, id);
        assert forall|j: int| 0 <= j < fewer.len() implies #[trigger] entries[j] == fewer[j] by {}
        assert(entries[entries.len() - 1] == entries.last());
        if first_with_id(fewer, id) is Some {
            assert(entries[first_with_id(fewer, id)->0].1.id == id);
        }
    }
}

/// Of several entries with one name the last one counts, and every name of an entry is in the index.
pub proof fn law_last_entry_counts(entries: Seq<(String, ModelProfile)>, i: int)
    requires
        0 <= i < entries.len(),
        forall|j: int| i < j < entries.len() ==> (#[trigger] entries[j]).0@ != entries[i].0@,
    ensures
        last_entries(entries).contains_key(entries[i].0@),
        last_entries(entries)[entries[i].0@] == entries[i].1,
    decreases entries.len(),
{
    if i < entries.len() - 1 {
        let fewer = entries.drop_last();
        assert forall|j: int| i < j < fewer.len() implies (#[trigger] fewer[j]).0@
            != fewer[i].0@ by {
            assert(fewer[j] == entries[j]);
        }
        law_last_entry_counts(fewer, i);
        assert(entries[entries.len() - 1] == entries.last());
    }
}

/// A name without an entry is not in the index.
pub proof fn law_no_entry_is_made_up(entries: Seq<(String, ModelProfile)>, name: Seq<char>)
    requires
        forall|j: int| 0 <= j < entries.len() ==> (#[trigger] entries[j]).0@ != name,
    ensures
        !last_entries(entries).contains_key(name),
    decreases entries.len(),
{
    if entries.len() > 0 {
        let fewer = entries.drop_last();
        assert forall|j: int| 0 <= j < fewer.len() implies (#[trigger] fewer[j]).0@ != name by {
            assert(fewer[j] == entries[j]);
        }
        law_no_entry_is_made_up(fewer, name);
        assert(entries[entries.len() - 1] == entries.last());
    }
}

/// What is wrong with an index is what is wrong with its first faulty entry: its number is zero, or
/// one that an entry before it has. An index of any format but the first is refused for its format.
pub proof fn law_first_faulty_entry_is_named(index: ModelIndex, n: int)
    requires
        0 <= n < index.profiles.entries@.len(),
        numbering_fault(index.profiles.entries@.take(n)) is None,
    ensures
        index.format != 1 ==> index_fault(index) == Some(
            "unsupported model index format "@ + text::decimal(index.format as nat),
        ),
        index.format == 1 && index.profiles.entries@[n].1.id == 0 ==> index_fault(index) == Some(
            "model ID must be positive: "@ + index.profiles.entries@[n].0@,
        ),
        index.format == 1 && index.profiles.entries@[n].1.id != 0 && (exists|i: int|
            0 <= i < n && (#[trigger] index.profiles.entries@[i]).1.id
                == index.profiles.entries@[n].1.id) ==> index_fault(index) == Some(
            "duplicate model ID: "@ + text::decimal(index.profiles.entries@[n].1.id as nat),
        ),
{
    let entries = index.profiles.entries@;
    let known = entries.take(n + 1);
    assert(known.drop_last() == entries.take(n));
    assert(known.last() == entries[n]);
    if entries[n].1.id == 0 || exists|i: int|
        0 <= i < n && (#[trigger] entries[i]).1.id == entries[n].1.id {
        if entries[n].1.id != 0 {
            let i = choose|i: int| 0 <= i < n && (#[trigger] entries[i]).1.id == entries[n].1.id;
            assert(known[i].1.id == entries[n].1.id);
        }
        lemma_fault_stays(entries, n + 1);
    }
}

/// An error is shown by its reason, of whatever kind it is.
pub proof fn law_error_is_shown_by_its_reason(error: ModelError)
    ensures
        error matches ModelError::Index(reason) ==> error.text() == reason@ && error@
            == ErrorView::Index(reason@),
        error matches ModelError::Operation(reason) ==> error.text() == reason@ && error@
            == ErrorView::Operation(reason@),
{
}

} // verus!
