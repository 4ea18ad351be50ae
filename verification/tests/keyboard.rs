use kdeocr::keyboard::daemon::{
    action_id, begin_registration, check_assigned, no_model_message, notify_arguments, passes_on,
    react, register_step, shortcut_keys, signal_trigger, trigger_id, Action, Daemon, Event,
    RegisterProgress, RegisterReply, RegisterTask, Reload, Reloaded, Trigger,
};
use kdeocr::keyboard::{
    invalid_shortcut, load_bindings, operation, parse_binding, parse_key, parse_shortcut, Binding,
    Bindings, KeyboardError, QT_ALT, QT_CONTROL, QT_META, QT_SHIFT,
};
use kdeocr::models::config::Shortcuts;
use kdeocr::models::ModelError;

#[test]
fn parses_shortcut() {
    assert_eq!(parse_shortcut("Alt+1").unwrap(), QT_ALT | '1' as i32);
    assert_eq!(
        parse_shortcut("Mod+Shift+Slash").unwrap(),
        QT_META | QT_SHIFT | '/' as i32
    );
    assert!(parse_shortcut("Alt+Alt+1").is_err());
}

#[test]
fn accepts_disabled_binding() {
    assert!(parse_binding(None).unwrap().is_none());
}

fn reason(error: KeyboardError) -> String {
    error.message()
}

#[test]
fn key_names() {
    assert_eq!(parse_key("a").unwrap(), 'A' as i32);
    assert_eq!(parse_key("Z").unwrap(), 'Z' as i32);
    assert_eq!(parse_key("7").unwrap(), '7' as i32);
    assert_eq!(parse_key("F1").unwrap(), 0x0100_0030);
    assert_eq!(parse_key("F35").unwrap(), 0x0100_0052);
    assert_eq!(parse_key("F").unwrap(), 'F' as i32);
    assert_eq!(parse_key("Escape").unwrap(), 0x0100_0000);
    assert_eq!(parse_key("PageUp").unwrap(), parse_key("Page_Up").unwrap());
    assert_eq!(parse_key("XF86MonBrightnessDown").unwrap(), 0x0100_00b3);
    assert_eq!(
        reason(parse_key("F36").unwrap_err()),
        "unsupported shortcut key: F36"
    );
    assert_eq!(
        reason(parse_key("F0").unwrap_err()),
        "unsupported shortcut key: F0"
    );
    assert_eq!(
        reason(parse_key("é").unwrap_err()),
        "unsupported shortcut key: é"
    );
}

#[test]
fn shortcut_errors() {
    for shortcut in ["", "Alt", "Alt+", "+1", "1+Alt", "A+B", "Alt++1", "Alt+Shift"] {
        assert_eq!(
            reason(parse_shortcut(shortcut).unwrap_err()),
            format!("invalid shortcut: {shortcut}")
        );
    }
    assert_eq!(
        reason(parse_shortcut("Alt+Nothing").unwrap_err()),
        "unsupported shortcut key: Nothing"
    );
    assert_eq!(reason(invalid_shortcut("x")), "invalid shortcut: x");
    assert_eq!(reason(operation("could not start", "no")), "could not start: no");
}

#[test]
fn shortcut_order_and_spaces_do_not_matter() {
    let code = QT_CONTROL | QT_SHIFT | 'K' as i32;
    assert_eq!(parse_shortcut("Ctrl+Shift+K").unwrap(), code);
    assert_eq!(parse_shortcut("Shift+Control+k").unwrap(), code);
    assert_eq!(parse_shortcut(" Shift + Ctrl + k ").unwrap(), code);
    assert_eq!(
        parse_shortcut("Super+F5").unwrap(),
        parse_shortcut("Meta+F5").unwrap()
    );
    assert_ne!(
        parse_shortcut("Ctrl+K").unwrap(),
        parse_shortcut("Alt+K").unwrap()
    );
}

fn bindings(copy: Option<&str>, ocr: Option<&str>) -> Bindings {
    load_bindings(Ok(Shortcuts {
        copy: copy.map(str::to_owned),
        ocr: ocr.map(str::to_owned),
    }))
    .unwrap()
}

#[test]
fn bindings_are_read() {
    let both = bindings(Some("Alt+1"), Some("Alt+2"));
    assert_eq!(both.copy.as_ref().unwrap().name, "Alt+1");
    assert_eq!(both.copy.as_ref().unwrap().key, QT_ALT | '1' as i32);
    assert_eq!(both.ocr.as_ref().unwrap().key, QT_ALT | '2' as i32);
    assert!(bindings(None, Some("F5")).copy.is_none());
    let error = load_bindings(Ok(Shortcuts {
        copy: Some("Alt".to_owned()),
        ocr: Some("Bad".to_owned()),
    }))
    .unwrap_err();
    assert_eq!(reason(error), "invalid shortcut: Alt");
    let error = load_bindings(Err(ModelError::Operation("no file".to_owned()))).unwrap_err();
    assert_eq!(
        reason(error),
        "could not load shortcut configuration: no file"
    );
}

#[test]
fn actions_are_identified() {
    assert_eq!(
        action_id("copy", "Copies"),
        vec!["kocr", "copy", "KOCR", "Copies"]
    );
    assert_eq!(
        trigger_id(Trigger::Ocr),
        vec![
            "kocr",
            "capture-ocr",
            "KOCR",
            "Capture screenshot and recognize text"
        ]
    );
    assert_eq!(trigger_id(Trigger::Copy)[3], "Capture and copy screenshot");
}

#[test]
fn keys_are_set_and_checked() {
    let some = bindings(Some("Alt+1"), None);
    let key = QT_ALT | '1' as i32;
    assert_eq!(
        shortcut_keys(&some, Trigger::Copy),
        vec![vec![key, 0, 0, 0]]
    );
    assert!(shortcut_keys(&some, Trigger::Ocr).is_empty());
    assert!(check_assigned(&some, Trigger::Copy, &vec![vec![0, key]]).is_ok());
    assert!(check_assigned(&some, Trigger::Ocr, &vec![]).is_ok());
    assert_eq!(
        reason(check_assigned(&some, Trigger::Copy, &vec![vec![1, 2], vec![]]).unwrap_err()),
        "shortcut is unavailable: Alt+1"
    );
}

#[test]
fn registration_goes_through_both_actions() {
    let both = bindings(Some("Alt+1"), Some("Alt+2"));
    let mut task = begin_registration();
    let mut seen = Vec::new();
    loop {
        seen.push(task);
        let reply = match task {
            RegisterTask::Announce(_) => RegisterReply::Announced,
            RegisterTask::SetKeys(trigger) => {
                RegisterReply::Assigned(shortcut_keys(&both, trigger))
            }
        };
        match register_step(&both, task, reply) {
            RegisterProgress::Go(next) => task = next,
            RegisterProgress::Finished => break,
            RegisterProgress::Stopped(error) => panic!("{}", error.message()),
        }
    }
    assert_eq!(
        seen,
        vec![
            RegisterTask::Announce(Trigger::Copy),
            RegisterTask::SetKeys(Trigger::Copy),
            RegisterTask::Announce(Trigger::Ocr),
            RegisterTask::SetKeys(Trigger::Ocr),
        ]
    );
}

#[test]
fn registration_stops_on_failure() {
    let both = bindings(Some("Alt+1"), Some("Alt+2"));
    let stopped = |task, reply| match register_step(&both, task, reply) {
        RegisterProgress::Stopped(error) => error.message(),
        other => panic!("{other:?}"),
    };
    assert_eq!(
        stopped(
            RegisterTask::Announce(Trigger::Ocr),
            RegisterReply::Failed("gone".to_owned())
        ),
        "could not register shortcut action: gone"
    );
    assert_eq!(
        stopped(
            RegisterTask::SetKeys(Trigger::Ocr),
            RegisterReply::Failed("gone".to_owned())
        ),
        "could not set global shortcut: gone"
    );
    assert_eq!(
        stopped(
            RegisterTask::SetKeys(Trigger::Ocr),
            RegisterReply::Assigned(vec![])
        ),
        "shortcut is unavailable: Alt+2"
    );
}

#[test]
fn signals_become_triggers() {
    assert_eq!(signal_trigger("kocr", "copy"), Some(Trigger::Copy));
    assert_eq!(signal_trigger("kocr", "capture-ocr"), Some(Trigger::Ocr));
    assert_eq!(signal_trigger("kocr", "other"), None);
    assert_eq!(signal_trigger("kwin", "copy"), None);
    assert_eq!(passes_on(Some(Trigger::Ocr), false), Some(Trigger::Ocr));
    assert_eq!(passes_on(Some(Trigger::Ocr), true), None);
    assert_eq!(passes_on(None, false), None);
}

#[test]
fn daemon_reacts() {
    assert!(matches!(
        react(Event::Trigger(Trigger::Ocr), true),
        Action::Capture(true)
    ));
    assert!(matches!(
        react(Event::Trigger(Trigger::Copy), true),
        Action::Capture(false)
    ));
    assert!(matches!(
        react(Event::Trigger(Trigger::Copy), false),
        Action::NotifyNoModel
    ));
    assert!(matches!(react(Event::Reregister, false), Action::Register));
    assert!(matches!(react(Event::Timeout, true), Action::Wait));
    let Action::Stop(error) = react(Event::Disconnected, true) else {
        panic!("expected an end");
    };
    assert_eq!(reason(error), "shortcut listener stopped unexpectedly");
}

#[test]
fn daemon_follows_configuration() {
    let mut daemon = Daemon {
        content: Some("a".to_owned()),
        bindings: bindings(Some("Alt+1"), None),
    };
    assert!(!daemon.see_content(Some("a".to_owned())));
    assert!(daemon.see_content(None));
    assert!(!daemon.see_content(None));
    assert!(matches!(
        daemon.consider(Ok(bindings(Some("Alt+1"), None))),
        Reload::Keep
    ));
    let Reload::Report(message) =
        daemon.consider(Err(KeyboardError::Operation("bad".to_owned())))
    else {
        panic!("expected a report");
    };
    assert_eq!(message, "Shortcut reload failed: bad");
    let Reload::Register(fresh) = daemon.consider(Ok(bindings(Some("Alt+3"), None))) else {
        panic!("expected a registration");
    };
    let failed = daemon.conclude(
        fresh,
        Err(KeyboardError::Operation("taken".to_owned())),
    );
    assert!(matches!(failed, Reloaded::Restore(message) if message == "Shortcut reload failed: taken"));
    assert_eq!(daemon.bindings.copy.as_ref().unwrap().name, "Alt+1");
    let fresh = Bindings {
        copy: None,
        ocr: Some(Binding {
            name: "F5".to_owned(),
            key: 0x0100_0034,
        }),
    };
    let done = daemon.conclude(fresh, Ok(()));
    assert!(matches!(done, Reloaded::Report(message) if message == "Shortcuts reloaded"));
    assert!(daemon.bindings.copy.is_none());
    assert_eq!(daemon.bindings.ocr.as_ref().unwrap().name, "F5");
}

#[test]
fn missing_model_is_notified() {
    assert_eq!(
        notify_arguments(),
        vec![
            "--app-name",
            "KOCR",
            "KOCR",
            "No OCR model available. Install one with kocr install 1."
        ]
    );
    assert_eq!(notify_arguments()[3], no_model_message());
}
