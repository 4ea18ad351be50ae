//! Removing a model, and selecting another.
use crate::models;
use crate::models::config;
use crate::models::config::ModelConfig;
use crate::models::{ModelError, ModelIndex};
use crate::text;
use vstd::prelude::*;

verus! {

/// Why the directory of a model is not removed.
pub open spec fn removal_fault(
    directory: Seq<char>,
    is_directory: bool,
    is_link: bool,
    has_manifest: bool,
) -> Option<Seq<char>> {
    if !is_directory || is_link {
        Some("refusing to remove invalid model directory: "@ + directory)
    } else if !has_manifest {
        Some("refusing to remove directory without a model manifest: "@ + directory)
    } else {
        None
    }
}

/// Checks that what is about to be removed is the directory of a model.
pub fn check_removal(directory: &str, is_directory: bool, is_link: bool, has_manifest: bool) -> (
    checked: Result<(), ModelError>)
    ensures
        match removal_fault(directory@, is_directory, is_link, has_manifest) {
            None => checked is Ok,
            Some(fault) => checked matches Err(ModelError::Operation(reason)) && reason@ == fault,
        },
{
    if !is_directory || is_link {
        return Err(
            ModelError::Operation(
                text::concat("refusing to remove invalid model directory: ", directory),
            ),
        );
    }
    if !has_manifest {
        return Err(
            ModelError::Operation(
                text::concat("refusing to remove directory without a model manifest: ", directory),
            ),
        );
    }
    Ok(())
}

/// Whether a configuration is what is left once a model was forgotten and, if it was in use,
/// the next one selected.
pub open spec fn is_without(
    before: ModelConfig,
    after: ModelConfig,
    name: Seq<char>,
    next: Option<Seq<char>>,
    root: Seq<char>,
    installed: Seq<Seq<char>>,
) -> bool {
    &&& after.wf()
    &&& after.shortcut == before.shortcut
    &&& after.extra == before.extra
    &&& text::optional_view(after.model) == (match next {
        Some(next) => Some(next),
        None => if text::optional_view(before.model) == Some(name) {
            None
        } else {
            text::optional_view(before.model)
        },
    })
    &&& config::paths(after.models@) == (match next {
        Some(next) => config::installed_paths(
            config::paths(before.models@).remove(name),
            root,
            installed,
        ),
        None => config::paths(before.models@).remove(name),
    })
}

/// The model to select after one with number `id` was removed.
pub open spec fn selected_next(
    index: ModelIndex,
    installed: Seq<Seq<char>>,
    id: u32,
    was_active: bool,
) -> Option<Seq<char>> {
    if was_active {
        models::successor(index, installed, id)
    } else {
        None
    }
}

/// Forgets a removed model; if it was in use, selects the next one of those still installed. Tells
/// whether nothing is left that would have to be written.
pub fn forget_model(
    config: &mut ModelConfig,
    index: &ModelIndex,
    root: &str,
    installed: &Vec<String>,
    name: &str,
    id: u32,
    was_active: bool,
) -> (clear: bool)
    requires
        old(config).wf(),
        index.profiles.wf(),
    ensures
        is_without(
            *old(config),
            *final(config),
            name@,
            selected_next(*index, text::texts_view(installed@), id, was_active),
            root@,
            text::texts_view(installed@),
        ),
        clear == final(config).nothing(),
{
    let _ = config::remove_config(config, name);
    assert(config::paths(config.models@) =~= config::paths(old(config).models@).remove(name@));
    if was_active {
        if let Some(next) = models::next_profile(index, installed, id) {
            config::write_config(config, root, installed, next.as_str());
        }
    }
    config.is_empty()
}

/// A model that was removed is neither recorded nor selected any more; if it was in use and others
/// are installed, one of those is selected.
pub proof fn law_removed_is_forgotten(
    index: ModelIndex,
    before: ModelConfig,
    after: ModelConfig,
    name: Seq<char>,
    id: u32,
    was_active: bool,
    root: Seq<char>,
    installed: Seq<Seq<char>>,
)
    requires
        is_without(
            before,
            after,
            name,
            selected_next(index, installed, id, was_active),
            root,
            installed,
        ),
        !installed.contains(name),
    ensures
        !config::paths(after.models@).contains_key(name),
        text::optional_view(after.model) != Some(name),
        was_active && installed.len() > 0 ==> (text::optional_view(after.model) matches Some(next)
            && installed.contains(next)),
{
    models::lemma_first_above(index, installed, id);
    if installed.len() > 0 {
        assert(installed.contains(installed[0]));
    }
}

/// What is said of a removed model.
pub fn uninstalled_message(name: &str) -> (message: String)
    ensures
        message@ == "Uninstalled "@ + name@,
{
    text::concat("Uninstalled ", name)
}

/// Checks that a model that is to be used is installed.
pub fn check_installed(name: &str, installed: bool) -> (checked: Result<(), ModelError>)
    ensures
        checked is Ok <==> installed,
        checked matches Err(error) ==> (error matches ModelError::Operation(reason) && reason@
            == name@ + " is not installed"@),
{
    if installed {
        Ok(())
    } else {
        Err(ModelError::Operation(text::concat(name, " is not installed")))
    }
}

/// What is said of a model that is used from now on.
pub fn using_message(name: &str) -> (message: String)
    ensures
        message@ == "Using "@ + name@,
{
    text::concat("Using ", name)
}

/// A directory is removed exactly if it is one, no link to one, and holds a manifest.
pub proof fn law_only_model_directories_are_removed(
    directory: Seq<char>,
    is_directory: bool,
    is_link: bool,
    has_manifest: bool,
)
    ensures
        removal_fault(directory, is_directory, is_link, has_manifest) is None <==> is_directory
            && !is_link && has_manifest,
        removal_fault(directory, is_directory, is_link, has_manifest) matches Some(fault)
            ==> directory.is_suffix_of(fault),
{
    let first = "refusing to remove invalid model directory: "@;
    let second = "refusing to remove directory without a model manifest: "@;
    assert((first + directory).subrange(first.len() as int, (first + directory).len() as int)
        == directory);
    assert((second + directory).subrange(second.len() as int, (second + directory).len() as int)
        == directory);
}

/// Removing a model that is not in use leaves the selection and the places of all other models as
/// they were; so does removing the last model, but for the selection of the removed one.
pub proof fn law_removal_keeps_the_others(
    index: ModelIndex,
    before: ModelConfig,
    after: ModelConfig,
    name: Seq<char>,
    id: u32,
    was_active: bool,
    root: Seq<char>,
    installed: Seq<Seq<char>>,
    other: Seq<char>,
)
    requires
        is_without(
            before,
            after,
            name,
            selected_next(index, installed, id, was_active),
            root,
            installed,
        ),
        other != name,
    ensures
        after.shortcut == before.shortcut && after.extra == before.extra,
        !was_active && text::optional_view(before.model) != Some(name) ==> text::optional_view(
            after.model,
        ) == text::optional_view(before.model),
        !was_active || installed.len() == 0 ==> config::paths(after.models@).contains_key(other)
            == config::paths(before.models@).contains_key(other),
        (!was_active || installed.contains(other)) && config::paths(before.models@).contains_key(
            other,
        ) ==> config::paths(after.models@).contains_key(other) && config::paths(
            after.models@,
        )[other] == config::paths(before.models@)[other],
{
    if installed.contains(other) {
        assert(installed.len() > 0);
    }
}

/// Once the model in use was removed, the next number up of those that are installed is selected, or
/// the least number where there is none.
pub proof fn law_next_number_up_is_selected(
    index: ModelIndex,
    before: ModelConfig,
    after: ModelConfig,
    name: Seq<char>,
    id: u32,
    root: Seq<char>,
    present: Seq<Seq<char>>,
    other: Seq<char>,
)
    requires
        index.profiles.wf(),
        is_without(
            before,
            after,
            name,
            selected_next(index, models::by_number(index.profiles.entries@, present), id, true),
            root,
            models::by_number(index.profiles.entries@, present),
        ),
        present.contains(other),
        index.profiles.names().contains(other),
    ensures
        ({
            let selected = text::optional_view(after.model);
            let number = models::number_of(index, selected->0);
            let others = models::number_of(index, other);
            &&& selected is Some
            &&& present.contains(selected->0)
            &&& number is Some && others is Some
            &&& others->0 > id ==> id < number->0 <= others->0
            &&& number->0 <= id ==> number->0 <= others->0 <= id
        }),
{
    models::law_next_model_has_the_least_number(index, present, id, other);
}

} // verus!
