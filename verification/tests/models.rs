use kdeocr::models::config::{
    choose_editor, config_path, default_model_path, edited, manifest_path, model_path, model_root,
    read_config, record_install, remove_config, shortcut, shortcuts, sync_config, write_config,
    InstalledModel, ModelConfig, ShortcutSetting, Shortcuts,
};
use kdeocr::models::install::{
    check_destination, choose_destination, download_arguments, install_directory, install_step,
    installed_message, path_message, single_directory, Entry, Progress, Reply, Task,
};
use kdeocr::models::list::{align_right, model_table};
use kdeocr::models::uninstall::{
    check_installed, check_removal, forget_model, uninstalled_message, using_message,
};
use kdeocr::models::{
    installed_profiles, load_index, model_index, next_profile, operation, resolve_profile,
    selected_profile, validate_index, ModelError, ModelIndex, ModelProfile,
};
use kdeocr::names::NameMap;

fn profile(id: u32) -> ModelProfile {
    ModelProfile {
        id,
        url: format!("https://example.org/{id}.tar.zst"),
        sha256: "ba7816bf8f01cfea414140de5dae2223b00361a396177a9cb410ff61f20015ad".to_owned(),
    }
}

fn index_of(entries: &[(&str, u32)]) -> ModelIndex {
    model_index(
        1,
        entries
            .iter()
            .map(|(name, id)| ((*name).to_owned(), profile(*id)))
            .collect(),
    )
}

fn texts(list: &[&str]) -> Vec<String> {
    list.iter().map(|text| (*text).to_owned()).collect()
}

#[test]
fn resolves_id() {
    let index = index_of(&[("ppocrv6-small-r1", 1)]);
    let (name, _) = resolve_profile(&index, "1").unwrap();
    assert_eq!(name, "ppocrv6-small-r1");
}

#[test]
fn resolves_name() {
    let index = index_of(&[("ppocrv6-small-r1", 1)]);
    let (name, _) = resolve_profile(&index, "ppocrv6-small-r1").unwrap();
    assert_eq!(name, "ppocrv6-small-r1");
}

#[test]
fn keeps_shortcut_config() {
    assert!(!ModelConfig::default().is_empty());
}

#[test]
fn unknown_models_are_refused() {
    let index = index_of(&[("small", 1), ("large", 20)]);
    assert_eq!(resolve_profile(&index, "+20").unwrap().1.id, 20);
    assert_eq!(resolve_profile(&index, "020").unwrap().0, "large");
    assert_eq!(
        resolve_profile(&index, "3").unwrap_err().message(),
        "unknown model ID: 3"
    );
    assert_eq!(
        resolve_profile(&index, "medium").unwrap_err().message(),
        "unknown model profile: medium"
    );
    assert_eq!(
        resolve_profile(&index, "4294967296").unwrap_err().message(),
        "unknown model profile: 4294967296"
    );
}

#[test]
fn number_and_name_agree() {
    let index = index_of(&[("b", 2), ("a", 7), ("c", 1)]);
    for (name, id) in [("a", "7"), ("b", "2"), ("c", "1")] {
        let by_name = resolve_profile(&index, name).unwrap();
        let by_id = resolve_profile(&index, id).unwrap();
        assert_eq!(by_name.0, by_id.0);
        assert_eq!(by_name.1.id, by_id.1.id);
    }
}

#[test]
fn index_is_checked() {
    assert!(load_index(index_of(&[("a", 1), ("b", 2)])).is_ok());
    assert_eq!(
        load_index(model_index(2, vec![])).unwrap_err().message(),
        "unsupported model index format 2"
    );
    assert_eq!(
        validate_index(&index_of(&[("a", 1), ("b", 0)]))
            .unwrap_err()
            .message(),
        "model ID must be positive: b"
    );
    assert_eq!(
        validate_index(&index_of(&[("a", 3), ("b", 3)]))
            .unwrap_err()
            .message(),
        "duplicate model ID: 3"
    );
    let repeated = index_of(&[("a", 1), ("a", 2)]);
    assert_eq!(repeated.profiles.len(), 1);
    assert_eq!(repeated.profiles.get("a").unwrap().id, 2);
}

#[test]
fn installed_models_go_by_number() {
    let index = index_of(&[("a", 3), ("b", 1), ("c", 2)]);
    assert_eq!(
        installed_profiles(&index, &texts(&["c", "a", "b", "d"])),
        vec!["b", "c", "a"]
    );
    assert_eq!(installed_profiles(&index, &texts(&["a"])), vec!["a"]);
    assert!(installed_profiles(&index, &texts(&["d"])).is_empty());
}

#[test]
fn selection_falls_to_the_next_model() {
    let index = index_of(&[("a", 1), ("b", 2), ("c", 3)]);
    let chosen = |configured: Option<&str>, installed: &[&str]| {
        selected_profile(&index, &configured.map(str::to_owned), &texts(installed))
    };
    assert_eq!(chosen(Some("c"), &["a", "c"]).unwrap(), "c");
    assert_eq!(chosen(Some("b"), &["a", "c"]).unwrap(), "c");
    assert_eq!(chosen(Some("c"), &["a", "b"]).unwrap(), "a");
    assert_eq!(chosen(Some("unknown"), &["b", "c"]).unwrap(), "b");
    assert_eq!(chosen(None, &["b", "c"]).unwrap(), "b");
    assert_eq!(
        chosen(Some("a"), &[]).unwrap_err().message(),
        "no model profile is installed"
    );
    assert_eq!(
        next_profile(&index, &texts(&["a", "c"]), 2).unwrap(),
        "c"
    );
    assert!(next_profile(&index, &texts(&[]), 2).is_none());
}

#[test]
fn directories_of_the_user() {
    let some = |text: &str| Some(text.to_owned());
    assert_eq!(
        config_path(&None, &some("/home/user")),
        "/home/user/.config/kdeocr/config.toml"
    );
    assert_eq!(
        config_path(&some("/etc/xdg"), &some("/home/user")),
        "/etc/xdg/kdeocr/config.toml"
    );
    assert_eq!(config_path(&None, &None), "./.config/kdeocr/config.toml");
    assert_eq!(
        model_root(&None, &some("/home/user")),
        "/home/user/.local/share/kdeocr/models"
    );
    assert_eq!(model_root(&some("/data"), &None), "/data/kdeocr/models");
    assert_eq!(default_model_path("/m", "a"), "/m/a");
    assert_eq!(manifest_path("/m/a"), "/m/a/manifest.toml");
}

fn single(name: &str) -> ModelConfig {
    ModelConfig {
        shortcut: Some(ShortcutSetting::Single(name.to_owned())),
        model: None,
        models: NameMap::new(),
        extra: NameMap::new(),
    }
}

fn per_action(copy: Option<&str>, ocr: Option<&str>) -> ModelConfig {
    ModelConfig {
        shortcut: Some(ShortcutSetting::PerAction(Shortcuts {
            copy: copy.map(str::to_owned),
            ocr: ocr.map(str::to_owned),
        })),
        model: None,
        models: NameMap::new(),
        extra: NameMap::new(),
    }
}

#[test]
fn shortcuts_in_effect() {
    let effect = shortcuts(&ModelConfig::default());
    assert_eq!(effect.copy.unwrap(), "Alt+1");
    assert_eq!(effect.ocr.unwrap(), "Alt+2");
    let effect = shortcuts(&per_action(Some(""), None));
    assert!(effect.copy.is_none());
    assert_eq!(effect.ocr.unwrap(), "Alt+2");
    let effect = shortcuts(&single("F5"));
    assert!(effect.copy.is_none());
    assert_eq!(effect.ocr.unwrap(), "F5");
    assert!(shortcuts(&single("")).ocr.is_none());
}

#[test]
fn configured_shortcut() {
    assert_eq!(shortcut(&single("Alt+1")).unwrap(), "Alt+1");
    assert_eq!(shortcut(&per_action(None, Some("F2"))).unwrap(), "F2");
    assert_eq!(
        shortcut(&per_action(Some("F2"), None)).unwrap_err().message(),
        "shortcut is missing from config"
    );
}

#[test]
fn sync_records_installed_models() {
    let mut config = ModelConfig::default();
    let installed = texts(&["b", "a"]);
    assert!(sync_config(&mut config, false, "/m", &installed));
    assert_eq!(read_config(&config).unwrap(), "b");
    assert_eq!(config.models.get("a").unwrap().path, "/m/a");
    assert_eq!(config.models.get("b").unwrap().path, "/m/b");
    assert!(!sync_config(&mut config, true, "/m", &installed));
    assert!(sync_config(&mut config, true, "/m", &texts(&["a"])));
    assert_eq!(read_config(&config).unwrap(), "a");
    assert!(config.models.get("b").is_none());
    assert!(sync_config(&mut config, true, "/m", &texts(&[])));
    assert!(config.model.is_none());
}

#[test]
fn sync_writes_nothing_without_file_and_models() {
    let mut config = single("F5");
    config.shortcut = None;
    assert!(!sync_config(&mut config, false, "/m", &texts(&[])));
    assert_eq!(shortcut(&config).unwrap(), "Alt+2");
    config.shortcut = None;
    assert!(sync_config(&mut config, true, "/m", &texts(&[])));
}

#[test]
fn sync_keeps_what_was_chosen() {
    let mut config = single("Ctrl+F1");
    config.model = Some("b".to_owned());
    config.models.insert(
        "b".to_owned(),
        InstalledModel {
            path: "/elsewhere/b".to_owned(),
        },
    );
    config
        .extra
        .insert("ocr".to_owned(), toml::Value::Integer(5));
    assert!(sync_config(&mut config, true, "/m", &texts(&["a", "b"])));
    assert_eq!(shortcut(&config).unwrap(), "Ctrl+F1");
    assert_eq!(read_config(&config).unwrap(), "b");
    assert_eq!(model_path(&config, "/m", "b"), "/elsewhere/b");
    assert_eq!(model_path(&config, "/m", "a"), "/m/a");
    assert_eq!(model_path(&config, "/m", "c"), "/m/c");
    assert_eq!(
        config.extra.get("ocr").unwrap(),
        &toml::Value::Integer(5)
    );
}

#[test]
fn models_are_recorded_and_forgotten() {
    let mut config = ModelConfig::default();
    record_install(&mut config, "a", "/x/a");
    assert_eq!(config.models.get("a").unwrap().path, "/x/a");
    assert!(config.model.is_none());
    write_config(&mut config, "/m", &texts(&["a", "b"]), "b");
    assert_eq!(config.model.as_deref(), Some("b"));
    assert_eq!(config.models.get("a").unwrap().path, "/x/a");
    assert!(!remove_config(&mut config, "b"));
    assert!(config.model.is_none());
    assert_eq!(config.models.len(), 1);
    config.shortcut = None;
    assert!(remove_config(&mut config, "a"));
    assert!(config.is_empty());
}

#[test]
fn editors_are_chosen() {
    let some = |text: &str| Some(text.to_owned());
    assert_eq!(
        choose_editor(some("vi"), some("nano"), some("xdg-open")).unwrap(),
        "vi"
    );
    assert_eq!(
        choose_editor(some(""), some("nano"), some("xdg-open")).unwrap(),
        "nano"
    );
    assert_eq!(choose_editor(None, some(""), some("xdg-open")).unwrap(), "xdg-open");
    assert_eq!(
        choose_editor(None, None, None).unwrap_err().message(),
        "no text editor found; set VISUAL or EDITOR and retry"
    );
    assert!(edited("vi", true, "exit status: 0").is_ok());
    assert_eq!(
        edited("vi", false, "exit status: 1").unwrap_err().message(),
        "editor vi exited with exit status: 1"
    );
    assert_eq!(operation("could not read config", "gone").message(), "could not read config: gone");
}

#[test]
fn destinations_are_checked() {
    assert_eq!(choose_destination("a", false, None, "/m").unwrap(), "/m/a");
    assert_eq!(
        choose_destination("a", false, Some("/x/y".to_owned()), "/m").unwrap(),
        "/x/y"
    );
    assert_eq!(
        choose_destination("a", true, None, "/m").unwrap_err().message(),
        "a is already installed"
    );
    assert_eq!(install_directory("/x/y", false).unwrap(), "/x");
    assert_eq!(
        install_directory("/x/y", true).unwrap_err().message(),
        "model destination already exists: /x/y"
    );
    assert_eq!(
        install_directory("/", false).unwrap_err().message(),
        "invalid model path"
    );
    assert_eq!(
        check_destination("/x/y", false, Some("/x".to_owned())).unwrap(),
        "/x"
    );
    assert_eq!(
        download_arguments("/t/model.tar.zst", "https://example.org"),
        vec![
            "-fL",
            "--retry",
            "3",
            "--progress-bar",
            "--output",
            "/t/model.tar.zst",
            "https://example.org"
        ]
    );
}

fn directory(path: &str) -> Option<Entry> {
    Some(Entry {
        path: path.to_owned(),
        is_directory: true,
    })
}

#[test]
fn archives_hold_one_directory() {
    assert_eq!(single_directory(directory("/t/p"), false).unwrap(), "/t/p");
    assert_eq!(
        single_directory(None, false).unwrap_err().message(),
        "archive is empty"
    );
    let refused = "archive must contain one top-level directory";
    assert_eq!(
        single_directory(directory("/t/p"), true).unwrap_err().message(),
        refused
    );
    let file = Some(Entry {
        path: "/t/f".to_owned(),
        is_directory: false,
    });
    assert_eq!(single_directory(file, false).unwrap_err().message(), refused);
}

fn go(task: Task, reply: Reply) -> Task {
    match install_step(task, reply, &profile(1)) {
        Progress::Go(task) => task,
        other => panic!("{other:?}"),
    }
}

fn stop(task: Task, reply: Reply) -> String {
    match install_step(task, reply, &profile(1)) {
        Progress::Stopped(ModelError::Operation(reason)) => reason,
        other => panic!("{other:?}"),
    }
}

#[test]
fn installation_runs_to_the_end() {
    let task = go(Task::MakeParent, Reply::Done);
    let task = go(task, Reply::Done);
    let task = go(task, Reply::Program(Some("/usr/bin/curl".to_owned())));
    assert!(matches!(&task, Task::Download(program) if program == "/usr/bin/curl"));
    let task = go(task, Reply::Ended(true, "exit status: 0".to_owned()));
    let task = go(task, Reply::Content(b"abc".to_vec()));
    let task = go(task, Reply::Done);
    let task = go(task, Reply::Done);
    let task = go(task, Reply::Done);
    let task = go(task, Reply::Done);
    assert!(matches!(&task, Task::Inspect));
    let task = go(task, Reply::Listing(directory("/t/p"), false));
    let task = go(task, Reply::Present(true));
    assert!(matches!(&task, Task::Place(package) if package == "/t/p"));
    let task = go(task, Reply::Done);
    assert!(matches!(&task, Task::Record));
    assert!(matches!(
        install_step(task, Reply::Done, &profile(1)),
        Progress::Finished
    ));
    assert_eq!(installed_message("a"), "Installed a");
    assert_eq!(path_message("~/a"), "Path: ~/a");
}

#[test]
fn installation_stops_on_failure() {
    let failed = || Reply::Failed("why".to_owned());
    assert_eq!(
        stop(Task::MakeParent, failed()),
        "could not create model directory: why"
    );
    assert_eq!(
        stop(Task::MakeTemporary, failed()),
        "could not create temporary directory: why"
    );
    assert_eq!(
        stop(Task::FindDownloader, Reply::Program(None)),
        "curl not found in PATH"
    );
    assert_eq!(
        stop(Task::Download("curl".to_owned()), failed()),
        "could not start curl: why"
    );
    assert_eq!(
        stop(
            Task::Download("curl".to_owned()),
            Reply::Ended(false, "exit status: 22".to_owned())
        ),
        "download failed: exit status: 22"
    );
    assert_eq!(stop(Task::ReadArchive, failed()), "could not read archive: why");
    assert_eq!(
        stop(Task::ReadArchive, Reply::Content(b"abd".to_vec())),
        "SHA-256 mismatch: expected ba7816bf8f01cfea414140de5dae2223b00361a396177a9cb410ff61f20015ad, \
         got a52d159f262b2c6ddb724a61840befc36eb30c88877a4030b65cbe86298449c9"
    );
    assert_eq!(
        stop(Task::MakeExtraction, failed()),
        "could not create extraction directory: why"
    );
    assert_eq!(stop(Task::OpenArchive, failed()), "could not open archive: why");
    assert_eq!(stop(Task::Decode, failed()), "could not decode archive: why");
    assert_eq!(stop(Task::Unpack, failed()), "could not extract archive: why");
    assert_eq!(stop(Task::Inspect, failed()), "could not inspect archive: why");
    assert_eq!(
        stop(Task::Inspect, Reply::Listing(None, false)),
        "archive is empty"
    );
    assert_eq!(
        stop(Task::FindManifest("/t/p".to_owned()), Reply::Present(false)),
        "archive does not contain a model manifest"
    );
    assert_eq!(
        stop(Task::Place("/t/p".to_owned()), failed()),
        "could not install model profile: why"
    );
    let refused = ModelError::Operation("full".to_owned());
    let task = go(Task::Record, Reply::Refused(refused));
    assert_eq!(
        stop(task, failed()),
        "could not save model configuration: full; cleanup failed: why"
    );
    let refused = ModelError::Operation("full".to_owned());
    let task = go(Task::Record, Reply::Refused(refused));
    assert_eq!(stop(task, Reply::Done), "full");
    let task = go(
        Task::Record,
        Reply::Refused(ModelError::Index("bad".to_owned())),
    );
    assert!(matches!(
        install_step(task, Reply::Done, &profile(1)),
        Progress::Stopped(ModelError::Index(reason)) if reason == "bad"
    ));
}

#[test]
fn removal_is_checked() {
    assert!(check_removal("/m/a", true, false, true).is_ok());
    assert_eq!(
        check_removal("/m/a", true, true, true).unwrap_err().message(),
        "refusing to remove invalid model directory: /m/a"
    );
    assert_eq!(
        check_removal("/m/a", false, false, true).unwrap_err().message(),
        "refusing to remove invalid model directory: /m/a"
    );
    assert_eq!(
        check_removal("/m/a", true, false, false).unwrap_err().message(),
        "refusing to remove directory without a model manifest: /m/a"
    );
    assert!(check_installed("a", true).is_ok());
    assert_eq!(
        check_installed("a", false).unwrap_err().message(),
        "a is not installed"
    );
    assert_eq!(uninstalled_message("a"), "Uninstalled a");
    assert_eq!(using_message("a"), "Using a");
}

#[test]
fn removed_model_gives_way_to_the_next() {
    let index = index_of(&[("a", 1), ("b", 2), ("c", 3)]);
    let mut config = ModelConfig::default();
    sync_config(&mut config, true, "/m", &texts(&["a", "b", "c"]));
    write_config(&mut config, "/m", &texts(&["a", "b", "c"]), "b");
    let clear = forget_model(
        &mut config,
        &index,
        "/m",
        &texts(&["a", "c"]),
        "b",
        2,
        true,
    );
    assert!(!clear);
    assert_eq!(config.model.as_deref(), Some("c"));
    assert!(config.models.get("b").is_none());
    forget_model(&mut config, &index, "/m", &texts(&["c"]), "a", 1, false);
    assert_eq!(config.model.as_deref(), Some("c"));
    assert_eq!(config.models.len(), 1);
    config.shortcut = None;
    assert!(forget_model(&mut config, &index, "/m", &texts(&[]), "c", 3, true));
}

#[test]
fn table_lists_all_models() {
    let index = index_of(&[("alpha", 12), ("beta", 3)]);
    let table = model_table(
        &index,
        &Some("alpha".to_owned()),
        &vec![Some("~/m/alpha".to_owned()), None],
    );
    assert_eq!(table.row_iter().count(), 2);
    let cells: Vec<Vec<String>> = table
        .row_iter()
        .map(|row| row.cell_iter().map(|cell| cell.content()).collect())
        .collect();
    assert_eq!(cells[0], vec!["  3", "beta", "Not installed"]);
    assert_eq!(cells[1], vec!["*12", "alpha", "~/m/alpha"]);
    let header: Vec<String> = table
        .header()
        .unwrap()
        .cell_iter()
        .map(|cell| cell.content())
        .collect();
    assert_eq!(header, vec!["ID", "Model", "Location"]);
    let shown = table.to_string();
    assert!(shown.contains("Not installed"));
    assert!(shown.contains("~/m/alpha"));
    let empty = model_table(&index_of(&[]), &None, &vec![]);
    assert_eq!(empty.row_iter().count(), 0);
    assert_eq!(align_right("7", 3), "  7");
    assert_eq!(align_right("1234", 3), "1234");
}
