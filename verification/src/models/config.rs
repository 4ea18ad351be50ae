//! The configuration: shortcuts, the selected model and where the installed models are.
use crate::models;
use crate::models::ModelError;
use crate::names;
use crate::names::NameMap;
use crate::path;
use crate::text;
use vstd::prelude::*;

verus! {

/// A value of a configuration entry that has no meaning here and is carried along.
#[verifier::external_type_specification]
#[verifier::external_body]
pub struct ExValue(toml::Value);

/// Where an installed model is.
#[derive(Debug)]
pub struct InstalledModel {
    /// Its directory.
    pub path: String,
}

/// One shortcut per action.
#[derive(Debug)]
pub struct Shortcuts {
    /// Captures and copies the picture.
    pub copy: Option<String>,
    /// Captures, recognizes and copies the text.
    pub ocr: Option<String>,
}

/// How shortcuts are configured.
#[derive(Debug)]
pub enum ShortcutSetting {
    /// A single shortcut, for recognition.
    Single(String),
    /// A shortcut for each action.
    PerAction(Shortcuts),
}

/// The configuration.
#[derive(Debug)]
pub struct ModelConfig {
    /// The shortcuts.
    pub shortcut: Option<ShortcutSetting>,
    /// The selected model.
    pub model: Option<String>,
    /// The installed models.
    pub models: NameMap<InstalledModel>,
    /// Entries of other kinds.
    pub extra: NameMap<toml::Value>,
}

/// What a shortcut setting says.
pub enum SettingView {
    /// A single shortcut, for recognition.
    Single(Seq<char>),
    /// A shortcut for each action: copying, recognition.
    PerAction(Option<Seq<char>>, Option<Seq<char>>),
}

impl View for ShortcutSetting {
    type V = SettingView;

    open spec fn view(&self) -> SettingView {
        match self {
            ShortcutSetting::Single(name) => SettingView::Single(name@),
            ShortcutSetting::PerAction(shortcuts) => SettingView::PerAction(
                text::optional_view(shortcuts.copy),
                text::optional_view(shortcuts.ocr),
            ),
        }
    }
}

/// What an optional shortcut setting says.
pub open spec fn setting_view(setting: Option<ShortcutSetting>) -> Option<SettingView> {
    match setting {
        Some(setting) => Some(setting@),
        None => None,
    }
}

/// The directories of installed models, by name.
pub open spec fn paths(models: Map<Seq<char>, InstalledModel>) -> Map<Seq<char>, Seq<char>> {
    models.map_values(|model: InstalledModel| model.path@)
}

impl ModelConfig {
    /// Whether both maps keep their order.
    pub open spec fn wf(self) -> bool {
        self.models.wf() && self.extra.wf()
    }

    /// Whether nothing is configured.
    pub open spec fn nothing(self) -> bool {
        &&& self.shortcut is None
        &&& self.model is None
        &&& self.models@ == Map::<Seq<char>, InstalledModel>::empty()
        &&& self.extra@ == Map::<Seq<char>, toml::Value>::empty()
    }

    /// Whether nothing is configured.
    pub fn is_empty(&self) -> (empty: bool)
        ensures
            empty == self.nothing(),
    {
        self.shortcut.is_none() && self.model.is_none() && self.models.is_empty()
            && self.extra.is_empty()
    }
}

/// The shortcuts of a fresh configuration.
pub open spec fn default_setting() -> SettingView {
    SettingView::PerAction(Some("Alt+1"@), Some("Alt+2"@))
}

impl Default for ModelConfig {
    fn default() -> (config: ModelConfig)
        ensures
            config.wf(),
            setting_view(config.shortcut) == Some(default_setting()),
            config.model is None,
            config.models@ == Map::<Seq<char>, InstalledModel>::empty(),
            config.extra@ == Map::<Seq<char>, toml::Value>::empty(),
    {
        ModelConfig {
            shortcut: Some(
                ShortcutSetting::PerAction(
                    Shortcuts { copy: Some("Alt+1".to_owned()), ocr: Some("Alt+2".to_owned()) },
                ),
            ),
            model: None,
            models: NameMap::new(),
            extra: NameMap::new(),
        }
    }
}

/// A text, or another where it is missing.
pub open spec fn text_or(given: Option<Seq<char>>, fallback: Seq<char>) -> Seq<char> {
    match given {
        Some(given) => given,
        None => fallback,
    }
}

/// A setting with the default put in for what is missing.
pub open spec fn completed(setting: Option<SettingView>) -> SettingView {
    match setting {
        None => default_setting(),
        Some(SettingView::Single(name)) => SettingView::Single(name),
        Some(SettingView::PerAction(copy, ocr)) => SettingView::PerAction(
            Some(text_or(copy, "Alt+1"@)),
            Some(text_or(ocr, "Alt+2"@)),
        ),
    }
}

/// Copies a text, or takes another where it is missing.
fn copy_or(given: &Option<String>, fallback: &str) -> (copy: String)
    ensures
        copy@ == text_or(text::optional_view(*given), fallback@),
{
    match given {
        Some(given) => given.clone(),
        None => fallback.to_owned(),
    }
}

/// Copies a setting, with the default put in for what is missing.
fn complete_setting(setting: &Option<ShortcutSetting>) -> (complete: ShortcutSetting)
    ensures
        complete@ == completed(setting_view(*setting)),
{
    match setting {
        Some(ShortcutSetting::Single(name)) => ShortcutSetting::Single(name.clone()),
        Some(ShortcutSetting::PerAction(shortcuts)) => ShortcutSetting::PerAction(
            Shortcuts {
                copy: Some(copy_or(&shortcuts.copy, "Alt+1")),
                ocr: Some(copy_or(&shortcuts.ocr, "Alt+2")),
            },
        ),
        None => ShortcutSetting::PerAction(
            Shortcuts { copy: Some("Alt+1".to_owned()), ocr: Some("Alt+2".to_owned()) },
        ),
    }
}

/// Whether a setting is there and says the same as another.
fn same_setting(left: &Option<ShortcutSetting>, right: &ShortcutSetting) -> (same: bool)
    ensures
        same == (setting_view(*left) == Some(right@)),
{
    match (left, right) {
        (
            Some(ShortcutSetting::Single(left)),
            ShortcutSetting::Single(right),
        ) => text::same_text(left.as_str(), right.as_str()),
        (
            Some(ShortcutSetting::PerAction(left)),
            ShortcutSetting::PerAction(right),
        ) => text::same_optional(&left.copy, &right.copy) && text::same_optional(
            &left.ocr,
            &right.ocr,
        ),
        _ => false,
    }
}

/// A shortcut that is not the empty text, which disables it.
pub open spec fn enabled(name: Seq<char>) -> Option<Seq<char>> {
    if name.len() == 0 {
        None
    } else {
        Some(name)
    }
}

/// The shortcuts in effect, for copying and for recognition.
pub open spec fn effective(setting: Option<SettingView>) -> (Option<Seq<char>>, Option<Seq<char>>) {
    match completed(setting) {
        SettingView::Single(name) => (None, enabled(name)),
        SettingView::PerAction(copy, ocr) => (
            enabled(text_or(copy, "Alt+1"@)),
            enabled(text_or(ocr, "Alt+2"@)),
        ),
    }
}

/// A shortcut that is not the empty text.
fn enable(name: String) -> (shortcut: Option<String>)
    ensures
        text::optional_view(shortcut) == enabled(name@),
{
    if text::to_chars(name.as_str()).len() == 0 {
        None
    } else {
        Some(name)
    }
}

/// The shortcuts in effect: what is missing has its default, an empty text disables.
pub fn shortcuts(config: &ModelConfig) -> (effect: Shortcuts)
    ensures
        (text::optional_view(effect.copy), text::optional_view(effect.ocr)) == effective(
            setting_view(config.shortcut),
        ),
{
    match complete_setting(&config.shortcut) {
        ShortcutSetting::Single(name) => Shortcuts { copy: None, ocr: enable(name) },
        ShortcutSetting::PerAction(shortcuts) => Shortcuts {
            copy: enable(copy_or(&shortcuts.copy, "Alt+1")),
            ocr: enable(copy_or(&shortcuts.ocr, "Alt+2")),
        },
    }
}

/// The configured shortcut for recognition.
pub open spec fn configured_shortcut(setting: Option<SettingView>) -> Option<Seq<char>> {
    match setting {
        Some(SettingView::Single(name)) => Some(name),
        Some(SettingView::PerAction(_, ocr)) => ocr,
        None => None,
    }
}

/// The configured shortcut for recognition, as it is written.
pub fn shortcut(config: &ModelConfig) -> (name: Result<String, ModelError>)
    ensures
        match configured_shortcut(setting_view(config.shortcut)) {
            Some(configured) => name matches Ok(name) && name@ == configured,
            None => name matches Err(ModelError::Operation(reason)) && reason@
                == "shortcut is missing from config"@,
        },
{
    match &config.shortcut {
        Some(ShortcutSetting::Single(name)) => Ok(name.clone()),
        Some(ShortcutSetting::PerAction(Shortcuts { ocr: Some(name), .. })) => Ok(name.clone()),
        _ => Err(ModelError::Operation("shortcut is missing from config".to_owned())),
    }
}

/// The selected model.
pub fn read_config(config: &ModelConfig) -> (model: Option<String>)
    ensures
        text::optional_view(model) == text::optional_view(config.model),
{
    match &config.model {
        Some(name) => Some(name.clone()),
        None => None,
    }
}

/// A directory of the user: the one that is set, else one below the home directory, which is the
/// current directory where it is not known.
pub open spec fn user_directory(
    own: Option<Seq<char>>,
    home: Option<Seq<char>>,
    below: Seq<char>,
) -> Seq<char> {
    match own {
        Some(directory) => directory,
        None => path::joined_path(text_or(home, "."@), below),
    }
}

/// A directory of the user.
fn find_user_directory(own: &Option<String>, home: &Option<String>, below: &str) -> (directory:
    String)
    ensures
        directory@ == user_directory(
            text::optional_view(*own),
            text::optional_view(*home),
            below@,
        ),
{
    match own {
        Some(directory) => directory.clone(),
        None => path::join(copy_or(home, ".").as_str(), below),
    }
}

/// Where the configuration file is, given `XDG_CONFIG_HOME` and `HOME`.
pub fn config_path(config_home: &Option<String>, home: &Option<String>) -> (place: String)
    ensures
        place@ == path::joined_path(
            user_directory(
                text::optional_view(*config_home),
                text::optional_view(*home),
                ".config"@,
            ),
            "kdeocr/config.toml"@,
        ),
{
    path::join(find_user_directory(config_home, home, ".config").as_str(), "kdeocr/config.toml")
}

/// Where models are installed by default.
pub open spec fn model_directory(data_home: Option<Seq<char>>, home: Option<Seq<char>>) -> Seq<
    char,
> {
    path::joined_path(user_directory(data_home, home, ".local/share"@), "kdeocr/models"@)
}

/// Where models are installed by default, given `XDG_DATA_HOME` and `HOME`.
pub fn model_root(data_home: &Option<String>, home: &Option<String>) -> (root: String)
    ensures
        root@ == model_directory(text::optional_view(*data_home), text::optional_view(*home)),
{
    path::join(find_user_directory(data_home, home, ".local/share").as_str(), "kdeocr/models")
}

/// The directory of a model: the recorded one, else the one below the default root.
pub open spec fn path_of(
    recorded: Map<Seq<char>, Seq<char>>,
    root: Seq<char>,
    name: Seq<char>,
) -> Seq<char> {
    if recorded.contains_key(name) {
        recorded[name]
    } else {
        path::joined_path(root, name)
    }
}

/// The directory of a model where none is recorded.
pub fn default_model_path(root: &str, name: &str) -> (directory: String)
    ensures
        directory@ == path::joined_path(root@, name@),
{
    path::join(root, name)
}

/// The directory of a model, given what is recorded.
fn find_path(recorded: &NameMap<InstalledModel>, root: &str, name: &str) -> (directory: String)
    requires
        recorded.wf(),
    ensures
        directory@ == path_of(paths(recorded@), root@, name@),
{
    match recorded.get(name) {
        Some(model) => model.path.clone(),
        None => default_model_path(root, name),
    }
}

/// The directory of a model.
pub fn model_path(config: &ModelConfig, root: &str, name: &str) -> (directory: String)
    requires
        config.wf(),
    ensures
        directory@ == path_of(paths(config.models@), root@, name@),
{
    find_path(&config.models, root, name)
}

/// The manifest of a model whose directory is known.
pub fn manifest_path(directory: &str) -> (file: String)
    ensures
        file@ == path::joined_path(directory@, "manifest.toml"@),
{
    path::join(directory, "manifest.toml")
}

/// The directories of the installed models.
pub open spec fn installed_paths(
    recorded: Map<Seq<char>, Seq<char>>,
    root: Seq<char>,
    installed: Seq<Seq<char>>,
) -> Map<Seq<char>, Seq<char>> {
    Map::new(
        |name: Seq<char>| installed.contains(name),
        |name: Seq<char>| path_of(recorded, root, name),
    )
}

/// Lists the installed models with their directories.
fn installed_models(
    recorded: &NameMap<InstalledModel>,
    root: &str,
    installed: &Vec<String>,
) -> (list: NameMap<InstalledModel>)
    requires
        recorded.wf(),
    ensures
        list.wf(),
        paths(list@) == installed_paths(paths(recorded@), root@, text::texts_view(installed@)),
{
    let mut list: NameMap<InstalledModel> = NameMap::new();
    let ghost known = paths(recorded@);
    let ghost whole = text::texts_view(installed@);
    assert(paths(list@) =~= installed_paths(known, root@, whole.take(0)));
    for i in 0..installed.len()
        invariant
            recorded.wf(),
            known == paths(recorded@),
            whole == text::texts_view(installed@),
            list.wf(),
            paths(list@) == installed_paths(known, root@, whole.take(i as int)),
    {
        let name = installed[i].clone();
        let directory = find_path(recorded, root, name.as_str());
        let ghost before = list@;
        let ghost wanted = installed_paths(known, root@, whole.take(i + 1));
        list.insert(name, InstalledModel { path: directory });
        proof {
            let earlier = whole.take(i as int);
            let more = whole.take(i + 1);
            assert(more == earlier.push(name@));
            assert forall|other: Seq<char>| more.contains(other) == (earlier.contains(other)
                || other == name@) by {
                if earlier.contains(other) {
                    let k = choose|k: int| 0 <= k < earlier.len() && earlier[k] == other;
                    assert(more[k] == other);
                }
                if other == name@ {
                    assert(more[i as int] == other);
                }
                if more.contains(other) && other != name@ {
                    let k = choose|k: int| 0 <= k < more.len() && more[k] == other;
                    assert(earlier[k] == other);
                }
            }
            assert forall|other: Seq<char>| wanted.contains_key(other) == paths(list@).contains_key(
                other,
            ) by {
                assert(paths(before).contains_key(other) == earlier.contains(other));
            }
            assert forall|other: Seq<char>| wanted.contains_key(other) implies wanted[other]
                == paths(list@)[other] by {
                if other != name@ {
                    assert(paths(before).contains_key(other));
                    assert(paths(before)[other] == path_of(known, root@, other));
                }
            }
            assert(paths(list@) =~= wanted);
        }
    }
    assert(whole.take(installed@.len() as int) == whole);
    list
}

/// Lists of models with the same directories agree entry by entry.
proof fn lemma_same_models(left: NameMap<InstalledModel>, right: NameMap<InstalledModel>)
    requires
        left.wf(),
        right.wf(),
        paths(left@) == paths(right@),
    ensures
        left.names() == right.names(),
        forall|i: int|
            0 <= i < left.entries@.len() ==> (#[trigger] left.entries@[i]).1.path@
                == right.entries@[i].1.path@,
{
    assert forall|name: Seq<char>| left.names().contains(name) == right.names().contains(name) by {
        assert(paths(left@).contains_key(name) == left.names().contains(name));
        assert(paths(right@).contains_key(name) == right.names().contains(name));
    }
    names::lemma_same_names(left.names(), right.names());
    assert forall|i: int| 0 <= i < left.entries@.len() implies (#[trigger] left.entries@[i]).1.path@
        == right.entries@[i].1.path@ by {
        assert(left.names().len() == left.entries@.len());
        assert(right.names().len() == right.entries@.len());
        left.lemma_position(i);
        right.lemma_position(i);
        let name = left.names()[i];
        assert(paths(left@)[name] == left.entries@[i].1.path@);
        assert(paths(right@)[name] == right.entries@[i].1.path@);
    }
}

/// Whether two lists of models have the same directories.
fn same_models(left: &NameMap<InstalledModel>, right: &NameMap<InstalledModel>) -> (same: bool)
    requires
        left.wf(),
        right.wf(),
    ensures
        same == (paths(left@) == paths(right@)),
{
    proof {
        if paths(left@) == paths(right@) {
            lemma_same_models(*left, *right);
            assert(left.names().len() == left.entries@.len());
            assert(right.names().len() == right.entries@.len());
        }
    }
    if left.len() != right.len() {
        return false;
    }
    for i in 0..left.entries.len()
        invariant
            left.entries@.len() == right.entries@.len(),
            paths(left@) == paths(right@) ==> left.names() == right.names() && forall|i: int|
                0 <= i < left.entries@.len() ==> (#[trigger] left.entries@[i]).1.path@
                    == right.entries@[i].1.path@,
            forall|j: int|
                0 <= j < i ==> (#[trigger] left.entries@[j]).0@ == right.entries@[j].0@
                    && left.entries@[j].1.path@ == right.entries@[j].1.path@,
    {
        assert(left.names()[i as int] == left.entries@[i as int].0@);
        assert(right.names()[i as int] == right.entries@[i as int].0@);
        if !text::same_text(left.entries[i].0.as_str(), right.entries[i].0.as_str()) {
            return false;
        }
        if !text::same_text(left.entries[i].1.path.as_str(), right.entries[i].1.path.as_str()) {
            return false;
        }
    }
    proof {
        assert(left.names() =~= right.names());
        assert forall|name: Seq<char>| paths(left@).contains_key(name) implies paths(left@)[name]
            == paths(right@)[name] by {
            let i = left.names().index_of(name);
            assert(0 <= i < left.names().len() && left.names()[i] == name);
            left.lemma_position(i);
            right.lemma_position(i);
        }
        assert(paths(left@) =~= paths(right@));
    }
    true
}

/// The model to have selected: the selected one if it is installed, else the first.
pub open spec fn kept_model(selected: Option<Seq<char>>, installed: Seq<Seq<char>>) -> Option<
    Seq<char>,
> {
    match selected {
        Some(name) if installed.contains(name) => Some(name),
        _ => models::first_of(installed),
    }
}

/// Whether bringing a configuration up to date changes it.
pub open spec fn out_of_date(
    config: ModelConfig,
    root: Seq<char>,
    installed: Seq<Seq<char>>,
) -> bool {
    let setting = setting_view(config.shortcut);
    ||| setting != Some(completed(setting))
    ||| text::optional_view(config.model) != kept_model(
        text::optional_view(config.model),
        installed,
    )
    ||| paths(config.models@) != installed_paths(paths(config.models@), root, installed)
}

/// Whether `after` is `before` brought up to date with the installed models.
pub open spec fn is_synced(
    before: ModelConfig,
    after: ModelConfig,
    root: Seq<char>,
    installed: Seq<Seq<char>>,
) -> bool {
    &&& after.wf()
    &&& setting_view(after.shortcut) == Some(completed(setting_view(before.shortcut)))
    &&& text::optional_view(after.model) == kept_model(
        text::optional_view(before.model),
        installed,
    )
    &&& paths(after.models@) == installed_paths(paths(before.models@), root, installed)
    &&& after.extra == before.extra
}

/// Selects a model: the selected one if it is installed, else the first.
fn keep_model(selected: &Option<String>, installed: &Vec<String>) -> (model: Option<String>)
    ensures
        text::optional_view(model) == kept_model(
            text::optional_view(*selected),
            text::texts_view(installed@),
        ),
{
    if let Some(name) = selected {
        if models::lists_name(installed, name.as_str()) {
            return Some(name.clone());
        }
    }
    if installed.len() > 0 {
        assert(text::texts_view(installed@)[0] == installed@[0]@);
        Some(installed[0].clone())
    } else {
        None
    }
}

/// Brings a configuration up to date with the installed models, and tells whether it has to be
/// written: it was changed, and there is a file already or a model to record.
pub fn sync_config(
    config: &mut ModelConfig,
    had_config: bool,
    root: &str,
    installed: &Vec<String>,
) -> (save: bool)
    requires
        old(config).wf(),
    ensures
        is_synced(*old(config), *final(config), root@, text::texts_view(installed@)),
        save == (out_of_date(*old(config), root@, text::texts_view(installed@)) && (had_config
            || text::texts_view(installed@).len() > 0)),
{
    let shortcut = complete_setting(&config.shortcut);
    let model = keep_model(&config.model, installed);
    let list = installed_models(&config.models, root, installed);
    let changed = !same_setting(&config.shortcut, &shortcut) || !text::same_optional(
        &config.model,
        &model,
    ) || !same_models(&config.models, &list);
    config.shortcut = Some(shortcut);
    config.model = model;
    config.models = list;
    proof {
        let whole = text::texts_view(installed@);
        if whole.len() > 0 {
            assert(whole.contains(whole[0]));
            assert(paths(config.models@).contains_key(whole[0]));
        } else {
            assert forall|other: Seq<char>| !config.models@.contains_key(other) by {
                assert(paths(config.models@).contains_key(other) == whole.contains(other));
            }
            assert(config.models@ =~= Map::<Seq<char>, InstalledModel>::empty());
        }
    }
    changed && (had_config || !config.models.is_empty())
}

/// Selects an installed model and records all that are installed.
pub fn write_config(config: &mut ModelConfig, root: &str, installed: &Vec<String>, name: &str)
    requires
        old(config).wf(),
    ensures
        final(config).wf(),
        final(config).shortcut == old(config).shortcut,
        text::optional_view(final(config).model) == Some(name@),
        paths(final(config).models@) == installed_paths(
            paths(old(config).models@),
            root@,
            text::texts_view(installed@),
        ),
        final(config).extra == old(config).extra,
{
    config.model = Some(name.to_owned());
    config.models = installed_models(&config.models, root, installed);
}

/// Forgets a model, and tells whether nothing is left that would have to be written.
pub fn remove_config(config: &mut ModelConfig, name: &str) -> (clear: bool)
    requires
        old(config).wf(),
    ensures
        final(config).wf(),
        final(config).shortcut == old(config).shortcut,
        text::optional_view(final(config).model) == (if text::optional_view(old(config).model)
            == Some(name@) {
            None
        } else {
            text::optional_view(old(config).model)
        }),
        final(config).models@ == old(config).models@.remove(name@),
        final(config).extra == old(config).extra,
        clear == final(config).nothing(),
{
    config.models.remove(name);
    if text::holds_text(&config.model, name) {
        config.model = None;
    }
    config.is_empty()
}

/// Records where a model was installed.
pub fn record_install(config: &mut ModelConfig, name: &str, directory: &str)
    requires
        old(config).wf(),
    ensures
        final(config).wf(),
        final(config).shortcut == old(config).shortcut,
        final(config).model == old(config).model,
        paths(final(config).models@) == paths(old(config).models@).insert(name@, directory@),
        final(config).extra == old(config).extra,
{
    config.models.insert(name.to_owned(), InstalledModel { path: directory.to_owned() });
    assert(paths(config.models@) =~= paths(old(config).models@).insert(name@, directory@));
}

/// An editor that is named by more than the empty text.
pub open spec fn named(editor: Option<Seq<char>>) -> Option<Seq<char>> {
    match editor {
        Some(name) if name.len() > 0 => Some(name),
        _ => None,
    }
}

/// The editor to use: `VISUAL`, else `EDITOR`, else what the desktop opens files with.
pub open spec fn chosen_editor(
    visual: Option<Seq<char>>,
    editor: Option<Seq<char>>,
    desktop: Option<Seq<char>>,
) -> Option<Seq<char>> {
    if named(visual) is Some {
        visual
    } else if named(editor) is Some {
        editor
    } else {
        desktop
    }
}

/// Whether an editor is named.
fn is_named(editor: &Option<String>) -> (found: bool)
    ensures
        found == (named(text::optional_view(*editor)) is Some),
{
    match editor {
        Some(name) => text::to_chars(name.as_str()).len() > 0,
        None => false,
    }
}

/// Chooses the editor for the configuration.
pub fn choose_editor(visual: Option<String>, editor: Option<String>, desktop: Option<String>) -> (
    chosen: Result<String, ModelError>)
    ensures
        match chosen_editor(
            text::optional_view(visual),
            text::optional_view(editor),
            text::optional_view(desktop),
        ) {
            Some(name) => chosen matches Ok(chosen) && chosen@ == name,
            None => chosen matches Err(ModelError::Operation(reason)) && reason@
                == "no text editor found; set VISUAL or EDITOR and retry"@,
        },
{
    let choice = if is_named(&visual) {
        visual
    } else if is_named(&editor) {
        editor
    } else {
        desktop
    };
    match choice {
        Some(name) => Ok(name),
        None => Err(
            ModelError::Operation(
                "no text editor found; set VISUAL or EDITOR and retry".to_owned(),
            ),
        ),
    }
}

/// What comes of an editor that ended with a status.
pub fn edited(editor: &str, success: bool, status: &str) -> (outcome: Result<(), ModelError>)
    ensures
        outcome is Ok <==> success,
        outcome matches Err(error) ==> (error matches ModelError::Operation(reason) && reason@
            == "editor "@ + editor@ + " exited with "@ + status@),
{
    if success {
        Ok(())
    } else {
        Err(
            ModelError::Operation(
                text::concat(text::concat3("editor ", editor, " exited with ").as_str(), status),
            ),
        )
    }
}

/// What was brought up to date is up to date: doing it again changes nothing.
pub proof fn law_sync_settles(
    before: ModelConfig,
    after: ModelConfig,
    root: Seq<char>,
    installed: Seq<Seq<char>>,
)
    requires
        is_synced(before, after, root, installed),
    ensures
        !out_of_date(after, root, installed),
{
    let known = paths(before.models@);
    let listed = installed_paths(known, root, installed);
    assert(installed_paths(listed, root, installed) =~= listed) by {
        assert forall|name: Seq<char>| listed.contains_key(name) implies path_of(
            listed,
            root,
            name,
        ) == listed[name] by {}
    }
    if installed.len() > 0 {
        assert(installed.contains(installed[0]));
    }
}

/// Bringing a configuration up to date keeps the shortcuts that are set, the directories that are
/// recorded of installed models, and a selection that is installed.
pub proof fn law_sync_keeps_choices(
    before: ModelConfig,
    after: ModelConfig,
    root: Seq<char>,
    installed: Seq<Seq<char>>,
)
    requires
        is_synced(before, after, root, installed),
    ensures
        effective(setting_view(after.shortcut)) == effective(setting_view(before.shortcut)),
        configured_shortcut(setting_view(before.shortcut)) matches Some(name) ==>
            configured_shortcut(setting_view(after.shortcut)) == Some(name),
        forall|name: Seq<char>|
            installed.contains(name) && paths(before.models@).contains_key(name) ==>
                #[trigger] paths(after.models@)[name] == paths(before.models@)[name],
        text::optional_view(before.model) matches Some(name) ==> (installed.contains(name) ==>
            text::optional_view(after.model) == Some(name)),
{
    assert forall|name: Seq<char>|
        installed.contains(name) && paths(before.models@).contains_key(
            name,
        ) implies #[trigger] paths(after.models@)[name] == paths(before.models@)[name] by {
        assert(paths(after.models@).contains_key(name));
    }
}

/// After a configuration was brought up to date, the model in use is the selected one, exactly the
/// installed models are recorded, and a shortcut is configured.
pub proof fn law_synced_selection(
    index: models::ModelIndex,
    before: ModelConfig,
    after: ModelConfig,
    root: Seq<char>,
    installed: Seq<Seq<char>>,
)
    requires
        is_synced(before, after, root, installed),
    ensures
        models::selection(index, text::optional_view(after.model), installed)
            == text::optional_view(after.model),
        forall|name: Seq<char>| #[trigger]
            paths(after.models@).contains_key(name) == installed.contains(name),
        configured_shortcut(setting_view(after.shortcut)) is Some,
{
    if installed.len() > 0 {
        assert(installed.contains(installed[0]));
    }
}

/// A model that was selected and is installed is the one in use, also once the configuration was
/// brought up to date again.
pub proof fn law_selected_model_is_used(
    index: models::ModelIndex,
    written: ModelConfig,
    later: ModelConfig,
    name: Seq<char>,
    root: Seq<char>,
    installed: Seq<Seq<char>>,
)
    requires
        text::optional_view(written.model) == Some(name),
        installed.contains(name),
        is_synced(written, later, root, installed),
    ensures
        models::selection(index, text::optional_view(written.model), installed) == Some(name),
        models::selection(index, text::optional_view(later.model), installed) == Some(name),
{
}

/// A model that was recorded at a place is looked for there, also once the configuration was
/// brought up to date, as long as it is installed.
pub proof fn law_recorded_place_is_kept(
    recorded: ModelConfig,
    later: ModelConfig,
    name: Seq<char>,
    place: Seq<char>,
    root: Seq<char>,
    installed: Seq<Seq<char>>,
)
    requires
        paths(recorded.models@).contains_key(name),
        paths(recorded.models@)[name] == place,
        installed.contains(name),
        is_synced(recorded, later, root, installed),
    ensures
        path_of(paths(recorded.models@), root, name) == place,
        path_of(paths(later.models@), root, name) == place,
{
}

/// What is shown in place of a missing text is another, and a text that is there stays.
pub proof fn law_missing_text_is_replaced(given: Seq<char>, fallback: Seq<char>)
    ensures
        text_or(Some(given), fallback) == given,
        text_or(None, fallback) == fallback,
{
}

/// Without a setting `Alt+1` copies the picture and `Alt+2` recognizes its text. A single shortcut is
/// for recognition alone. Of two shortcuts each is for its own action, and each that is missing has
/// its default; the empty text disables an action.
pub proof fn law_each_action_has_its_shortcut(
    name: Seq<char>,
    copy: Option<Seq<char>>,
    ocr: Option<Seq<char>>,
)
    ensures
        effective(None) == (Some("Alt+1"@), Some("Alt+2"@)),
        name.len() > 0 ==> effective(Some(SettingView::Single(name))) == (
            None::<Seq<char>>,
            Some(name),
        ),
        name.len() == 0 ==> effective(Some(SettingView::Single(name))) == (
            None::<Seq<char>>,
            None::<Seq<char>>,
        ),
        ({
            let effect = effective(Some(SettingView::PerAction(copy, ocr)));
            &&& copy is None ==> effect.0 == Some("Alt+1"@)
            &&& ocr is None ==> effect.1 == Some("Alt+2"@)
            &&& copy matches Some(shortcut) ==> effect.0 == (if shortcut.len() > 0 {
                copy
            } else {
                None
            })
            &&& ocr matches Some(shortcut) ==> effect.1 == (if shortcut.len() > 0 {
                ocr
            } else {
                None
            })
        }),
{
    reveal_strlit("Alt+1");
    reveal_strlit("Alt+2");
}

/// Completing a setting changes nothing that is set, and puts the defaults in where nothing is.
pub proof fn law_completing_keeps_what_is_set(
    name: Seq<char>,
    copy: Option<Seq<char>>,
    ocr: Option<Seq<char>>,
)
    ensures
        completed(None) == SettingView::PerAction(Some("Alt+1"@), Some("Alt+2"@)),
        completed(Some(SettingView::Single(name))) == SettingView::Single(name),
        ({
            let complete = completed(Some(SettingView::PerAction(copy, ocr)));
            &&& complete matches SettingView::PerAction(first, second) && {
                &&& first == (if copy is Some {
                    copy
                } else {
                    Some("Alt+1"@)
                })
                &&& second == (if ocr is Some {
                    ocr
                } else {
                    Some("Alt+2"@)
                })
            }
        }),
        configured_shortcut(Some(SettingView::Single(name))) == Some(name),
        configured_shortcut(Some(SettingView::PerAction(copy, ocr))) == ocr,
        configured_shortcut(None) is None,
{
}

/// A directory of the user is the one that is set; else it is below the home directory, or below the
/// current one where that is not known.
pub proof fn law_set_directory_comes_first(
    own: Seq<char>,
    home: Option<Seq<char>>,
    known: Seq<char>,
    below: Seq<char>,
)
    ensures
        user_directory(Some(own), home, below) == own,
        user_directory(None, Some(known), below) == path::joined_path(known, below),
        user_directory(None, None, below) == path::joined_path(seq!['.'], below),
        model_directory(Some(own), home) == path::joined_path(own, "kdeocr/models"@),
        model_directory(None, Some(known)) == path::joined_path(
            path::joined_path(known, ".local/share"@),
            "kdeocr/models"@,
        ),
{
    reveal_strlit(".");
    assert("."@ == seq!['.']);
}

/// A model is where it is recorded to be; one that is not recorded is in the directory of its own
/// name below the root.
pub proof fn law_model_is_where_it_is_recorded(
    recorded: Map<Seq<char>, Seq<char>>,
    root: Seq<char>,
    name: Seq<char>,
)
    ensures
        recorded.contains_key(name) ==> path_of(recorded, root, name) == recorded[name],
        !recorded.contains_key(name) ==> path_of(recorded, root, name) == path::joined_path(
            root,
            name,
        ),
{
}

/// What is recorded of the installed models are exactly these models, each with the place where it
/// is: the recorded one, else the one below the root.
pub proof fn law_installed_models_are_recorded(
    before: ModelConfig,
    after: ModelConfig,
    root: Seq<char>,
    installed: Seq<Seq<char>>,
    name: Seq<char>,
)
    requires
        is_synced(before, after, root, installed),
    ensures
        paths(after.models@).contains_key(name) == installed.contains(name),
        installed.contains(name) && paths(before.models@).contains_key(name) ==> paths(
            after.models@,
        )[name] == paths(before.models@)[name],
        installed.contains(name) && !paths(before.models@).contains_key(name) ==> paths(
            after.models@,
        )[name] == path::joined_path(root, name),
        after.extra == before.extra,
{
}

/// The selected model stays selected as long as it is installed; else the first installed one is
/// selected, and none where no model is installed.
pub proof fn law_selection_is_kept_while_installed(
    selected: Option<Seq<char>>,
    installed: Seq<Seq<char>>,
)
    ensures
        selected matches Some(name) && installed.contains(name) ==> kept_model(selected, installed)
            == selected,
        (selected is None || !installed.contains(selected->0)) && installed.len() > 0 ==> kept_model(
            selected,
            installed,
        ) == Some(installed[0]),
        installed.len() == 0 ==> kept_model(selected, installed) is None,
{
}

/// A configuration is out of date exactly if bringing it up to date changes its shortcuts, its
/// selection or the places of its models.
pub proof fn law_out_of_date_means_changed(
    before: ModelConfig,
    after: ModelConfig,
    root: Seq<char>,
    installed: Seq<Seq<char>>,
)
    requires
        is_synced(before, after, root, installed),
    ensures
        out_of_date(before, root, installed) <==> {
            ||| setting_view(after.shortcut) != setting_view(before.shortcut)
            ||| text::optional_view(after.model) != text::optional_view(before.model)
            ||| paths(after.models@) != paths(before.models@)
        },
{
}

/// The places of models are the texts of their paths, under the same names.
pub proof fn law_paths_keep_names(models: Map<Seq<char>, InstalledModel>, name: Seq<char>)
    ensures
        paths(models).contains_key(name) == models.contains_key(name),
        models.contains_key(name) ==> paths(models)[name] == models[name].path@,
{
}

/// `VISUAL` is used if it names an editor, else `EDITOR` is if it does, else what the desktop has;
/// the empty text names none.
pub proof fn law_first_named_editor_is_used(
    visual: Option<Seq<char>>,
    editor: Option<Seq<char>>,
    desktop: Option<Seq<char>>,
)
    ensures
        visual is Some && visual->0.len() > 0 ==> chosen_editor(visual, editor, desktop) == visual,
        (visual is None || visual->0.len() == 0) && editor is Some && editor->0.len() > 0
            ==> chosen_editor(visual, editor, desktop) == editor,
        (visual is None || visual->0.len() == 0) && (editor is None || editor->0.len() == 0)
            ==> chosen_editor(visual, editor, desktop) == desktop,
{
}

/// Nothing is configured exactly if there is no shortcut, no selection, no model and no other entry.
pub proof fn law_nothing_is_configured(config: ModelConfig)
    ensures
        config.nothing() <==> {
            &&& config.shortcut is None
            &&& config.model is None
            &&& config.models.entries@.len() == 0
            &&& config.extra.entries@.len() == 0
        },
{
    if config.models.entries@.len() > 0 {
        assert(config.models.names().contains(config.models.names()[0]));
        assert(config.models@.contains_key(config.models.names()[0]));
    } else {
        assert(config.models@ =~= Map::<Seq<char>, InstalledModel>::empty());
    }
    if config.extra.entries@.len() > 0 {
        assert(config.extra.names().contains(config.extra.names()[0]));
        assert(config.extra@.contains_key(config.extra.names()[0]));
    } else {
        assert(config.extra@ =~= Map::<Seq<char>, toml::Value>::empty());
    }
}

/// The view of a setting says which shortcut is for which action.
pub proof fn law_setting_view_keeps_actions(name: String, copy: String, ocr: String)
    ensures
        ShortcutSetting::Single(name)@ == SettingView::Single(name@),
        ShortcutSetting::PerAction(Shortcuts { copy: Some(copy), ocr: Some(ocr) })@
            == SettingView::PerAction(Some(copy@), Some(ocr@)),
        ShortcutSetting::PerAction(Shortcuts { copy: None, ocr: Some(ocr) })@
            == SettingView::PerAction(None, Some(ocr@)),
        ShortcutSetting::PerAction(Shortcuts { copy: Some(copy), ocr: None })@
            == SettingView::PerAction(Some(copy@), None),
        setting_view(Some(ShortcutSetting::Single(name))) == Some(SettingView::Single(name@)),
        setting_view(None) is None,
{
}

} // verus!
