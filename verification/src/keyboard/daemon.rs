//! The shortcut daemon: registering shortcuts, reacting to them, and following the configuration.
use crate::keyboard;
use crate::keyboard::{Binding, Bindings, KeyboardError};
use crate::text;
use vstd::prelude::*;

verus! {

/// The name that the daemon owns on the session bus.
pub const BUS_NAME: &'static str = "io.github.KercyDing.kocr";

/// The service that handles global shortcuts.
pub const SERVICE: &'static str = "org.kde.kglobalaccel";

/// Its object path.
pub const SERVICE_PATH: &'static str = "/kglobalaccel";

/// The component that the actions belong to.
pub const COMPONENT: &'static str = "kocr";

/// The action that copies the picture.
pub const COPY_ACTION: &'static str = "copy";

/// The action that recognizes and copies the text.
pub const OCR_ACTION: &'static str = "capture-ocr";

/// How long to wait for an event before the configuration is looked at, in milliseconds.
pub const POLL_INTERVAL_MILLIS: u64 = 500;

/// The flags for setting a shortcut: it is present, and is not replaced by a stored one.
pub const SET_PRESENT_NO_AUTOLOAD: u32 = 6;

/// An action that a shortcut triggers.
#[derive(Debug, Clone, Copy, PartialEq, Eq, Structural)]
pub enum Trigger {
    /// Capture and copy the picture.
    Copy,
    /// Capture, recognize and copy the text.
    Ocr,
}

/// The name of an action.
pub open spec fn action_name(trigger: Trigger) -> Seq<char> {
    match trigger {
        Trigger::Copy => COPY_ACTION@,
        Trigger::Ocr => OCR_ACTION@,
    }
}

/// The description of an action.
pub open spec fn action_description(trigger: Trigger) -> Seq<char> {
    match trigger {
        Trigger::Copy => "Capture and copy screenshot"@,
        Trigger::Ocr => "Capture screenshot and recognize text"@,
    }
}

/// The identification of an action: component, action, and both as they are shown.
pub fn action_id(action: &str, description: &str) -> (id: Vec<String>)
    ensures
        text::texts_view(id@) == seq![COMPONENT@, action@, "KOCR"@, description@],
{
    let id: Vec<String> = vec![
        COMPONENT.to_owned(),
        action.to_owned(),
        "KOCR".to_owned(),
        description.to_owned(),
    ];
    assert(text::texts_view(id@) =~= seq![COMPONENT@, action@, "KOCR"@, description@]);
    id
}

/// The identification of the action of a trigger.
pub fn trigger_id(trigger: Trigger) -> (id: Vec<String>)
    ensures
        text::texts_view(id@) == seq![
            COMPONENT@,
            action_name(trigger),
            "KOCR"@,
            action_description(trigger),
        ],
{
    match trigger {
        Trigger::Copy => action_id(COPY_ACTION, "Capture and copy screenshot"),
        Trigger::Ocr => action_id(OCR_ACTION, "Capture screenshot and recognize text"),
    }
}

/// The shortcut of an action.
pub open spec fn binding_of(bindings: Bindings, trigger: Trigger) -> Option<Binding> {
    match trigger {
        Trigger::Copy => bindings.copy,
        Trigger::Ocr => bindings.ocr,
    }
}

/// The shortcut of an action.
fn find_binding(bindings: &Bindings, trigger: Trigger) -> (binding: &Option<Binding>)
    ensures
        *binding == binding_of(*bindings, trigger),
{
    match trigger {
        Trigger::Copy => &bindings.copy,
        Trigger::Ocr => &bindings.ocr,
    }
}

/// Key sequences as the service has them: up to four keys each, padded with zeros.
pub open spec fn key_sequences(binding: Option<Binding>) -> Seq<Seq<i32>> {
    match binding {
        Some(binding) => seq![seq![binding.key, 0i32, 0i32, 0i32]],
        None => Seq::empty(),
    }
}

/// The contents of a list of key sequences.
pub open spec fn sequences_view(list: Seq<Vec<i32>>) -> Seq<Seq<i32>> {
    list.map_values(|keys: Vec<i32>| keys@)
}

/// The key sequences to set for an action: one with its shortcut, or none.
pub fn shortcut_keys(bindings: &Bindings, trigger: Trigger) -> (keys: Vec<Vec<i32>>)
    ensures
        sequences_view(keys@) == key_sequences(binding_of(*bindings, trigger)),
{
    let mut keys: Vec<Vec<i32>> = Vec::new();
    if let Some(binding) = find_binding(bindings, trigger) {
        let sequence: Vec<i32> = vec![binding.key, 0, 0, 0];
        assert(sequence@ =~= seq![binding.key, 0i32, 0i32, 0i32]);
        keys.push(sequence);
        assert(sequences_view(keys@) =~= seq![seq![binding.key, 0i32, 0i32, 0i32]]);
    }
    keys
}

/// Whether one of some key sequences holds a key.
pub open spec fn assigns(list: Seq<Seq<i32>>, key: i32) -> bool {
    exists|i: int| 0 <= i < list.len() && (#[trigger] list[i]).contains(key)
}

/// Whether the service assigned the shortcut that was asked for, if any was.
pub open spec fn is_assigned(binding: Option<Binding>, assigned: Seq<Seq<i32>>) -> bool {
    binding matches Some(binding) ==> assigns(assigned, binding.key)
}

/// Whether one of some key sequences holds a key.
fn holds_key(list: &Vec<Vec<i32>>, key: i32) -> (found: bool)
    ensures
        found == assigns(sequences_view(list@), key),
{
    let ghost shown = sequences_view(list@);
    for i in 0..list.len()
        invariant
            shown == sequences_view(list@),
            forall|j: int| 0 <= j < i ==> !(#[trigger] shown[j]).contains(key),
    {
        assert(shown[i as int] == list@[i as int]@);
        let keys = &list[i];
        for k in 0..keys.len()
            invariant
                i < list@.len(),
                shown == sequences_view(list@),
                shown[i as int] == keys@,
                forall|m: int| 0 <= m < k ==> keys@[m] != key,
        {
            if keys[k] == key {
                assert(shown[i as int].contains(key)) by {
                    assert(shown[i as int][k as int] == key);
                }
                return true;
            }
        }
    }
    false
}

/// Checks what the service assigned to an action.
pub fn check_assigned(bindings: &Bindings, trigger: Trigger, assigned: &Vec<Vec<i32>>) -> (checked:
    Result<(), KeyboardError>)
    ensures
        checked is Ok <==> is_assigned(
            binding_of(*bindings, trigger),
            sequences_view(assigned@),
        ),
        checked matches Err(error) ==> error.text() == "shortcut is unavailable: "@ + binding_of(
            *bindings,
            trigger,
        )->0.name@,
{
    if let Some(binding) = find_binding(bindings, trigger) {
        if !holds_key(assigned, binding.key) {
            return Err(
                KeyboardError::Operation(
                    text::concat("shortcut is unavailable: ", binding.name.as_str()),
                ),
            );
        }
    }
    Ok(())
}

/// What is to be done next to register the shortcuts.
#[derive(Debug, Clone, Copy, PartialEq, Eq, Structural)]
pub enum RegisterTask {
    /// Register the action.
    Announce(Trigger),
    /// Set the key sequences of the action.
    SetKeys(Trigger),
}

/// What came of it.
#[derive(Debug)]
pub enum RegisterReply {
    /// The action was registered.
    Announced,
    /// The key sequences that the service assigned.
    Assigned(Vec<Vec<i32>>),
    /// The call failed, for the reason given.
    Failed(String),
}

/// How the registration goes on.
#[derive(Debug)]
pub enum RegisterProgress {
    /// This is done next.
    Go(RegisterTask),
    /// All shortcuts are set.
    Finished,
    /// It is given up.
    Stopped(KeyboardError),
}

/// Whether a reply is one that the task can have.
pub open spec fn register_answers(task: RegisterTask, reply: RegisterReply) -> bool {
    match task {
        RegisterTask::Announce(_) => reply is Announced || reply is Failed,
        RegisterTask::SetKeys(_) => reply is Assigned || reply is Failed,
    }
}

/// What is said before the reason where a task fails.
pub open spec fn register_context(task: RegisterTask) -> Seq<char> {
    match task {
        RegisterTask::Announce(_) => "could not register shortcut action"@,
        RegisterTask::SetKeys(_) => "could not set global shortcut"@,
    }
}

/// Whether `progress` is what follows a reply to a task: each action is registered and then has
/// its keys set, first the one that copies the picture.
pub open spec fn register_follows(
    bindings: Bindings,
    task: RegisterTask,
    reply: RegisterReply,
    progress: RegisterProgress,
) -> bool {
    match reply {
        RegisterReply::Failed(reason) => progress matches RegisterProgress::Stopped(error)
            && error.text() == register_context(task) + ": "@ + reason@,
        RegisterReply::Announced => progress == RegisterProgress::Go(
            RegisterTask::SetKeys(task->Announce_0),
        ),
        RegisterReply::Assigned(assigned) => {
            let trigger = task->SetKeys_0;
            let binding = binding_of(bindings, trigger);
            if !is_assigned(binding, sequences_view(assigned@)) {
                progress matches RegisterProgress::Stopped(error) && error.text()
                    == "shortcut is unavailable: "@ + binding->0.name@
            } else if trigger == Trigger::Copy {
                progress == RegisterProgress::Go(RegisterTask::Announce(Trigger::Ocr))
            } else {
                progress is Finished
            }
        },
    }
}

/// The first task of a registration.
pub open spec fn first_task() -> RegisterTask {
    RegisterTask::Announce(Trigger::Copy)
}

/// The first task of a registration.
pub fn begin_registration() -> (task: RegisterTask)
    ensures
        task == first_task(),
{
    RegisterTask::Announce(Trigger::Copy)
}

/// Decides what follows a reply to a task of a registration.
pub fn register_step(bindings: &Bindings, task: RegisterTask, reply: RegisterReply) -> (progress:
    RegisterProgress)
    requires
        register_answers(task, reply),
    ensures
        register_follows(*bindings, task, reply, progress),
{
    match (task, reply) {
        (RegisterTask::Announce(_), RegisterReply::Failed(reason)) => RegisterProgress::Stopped(
            keyboard::operation("could not register shortcut action", reason.as_str()),
        ),
        (RegisterTask::SetKeys(_), RegisterReply::Failed(reason)) => RegisterProgress::Stopped(
            keyboard::operation("could not set global shortcut", reason.as_str()),
        ),
        (RegisterTask::SetKeys(trigger), RegisterReply::Assigned(assigned)) => match check_assigned(
            bindings,
            trigger,
            &assigned,
        ) {
            Err(error) => RegisterProgress::Stopped(error),
            Ok(()) => if trigger == Trigger::Copy {
                RegisterProgress::Go(RegisterTask::Announce(Trigger::Ocr))
            } else {
                RegisterProgress::Finished
            },
        },
        (RegisterTask::Announce(trigger), _) => RegisterProgress::Go(
            RegisterTask::SetKeys(trigger),
        ),
        (RegisterTask::SetKeys(_), RegisterReply::Announced) => RegisterProgress::Finished,
    }
}

/// Whether a run of tasks with their replies is one of a registration.
pub open spec fn is_registration(bindings: Bindings, run: Seq<(RegisterTask, RegisterReply)>) -> bool {
    &&& run.len() > 0 ==> run[0].0 == first_task()
    &&& forall|i: int| 0 <= i < run.len() ==> register_answers((#[trigger] run[i]).0, run[i].1)
    &&& forall|i: int|
        0 <= i < run.len() - 1 ==> register_follows(
            bindings,
            run[i].0,
            run[i].1,
            RegisterProgress::Go((#[trigger] run[i + 1]).0),
        )
}

/// Whether the service assigned the shortcut of an action in a run.
pub open spec fn assigned_in(
    bindings: Bindings,
    run: Seq<(RegisterTask, RegisterReply)>,
    trigger: Trigger,
) -> bool {
    exists|i: int|
        0 <= i < run.len() && (#[trigger] run[i]).0 == RegisterTask::SetKeys(trigger) && (
        run[i].1 matches RegisterReply::Assigned(assigned) && is_assigned(
            binding_of(bindings, trigger),
            sequences_view(assigned@),
        ))
}

/// A registration that finishes took four calls, and the service assigned the shortcuts of both
/// actions.
pub proof fn law_finished_registration_is_complete(
    bindings: Bindings,
    run: Seq<(RegisterTask, RegisterReply)>,
)
    requires
        is_registration(bindings, run),
        run.len() > 0,
        register_follows(bindings, run.last().0, run.last().1, RegisterProgress::Finished),
    ensures
        run.len() == 4,
        assigned_in(bindings, run, Trigger::Copy),
        assigned_in(bindings, run, Trigger::Ocr),
{
    let n = run.len() as int;
    assert(run[n - 1] == run.last());
    lemma_registration_step(bindings, run, 0);
    if n > 1 {
        lemma_registration_step(bindings, run, 1);
    }
    if n > 2 {
        lemma_registration_step(bindings, run, 2);
    }
    if n > 3 {
        lemma_registration_step(bindings, run, 3);
    }
}

proof fn lemma_registration_step(
    bindings: Bindings,
    run: Seq<(RegisterTask, RegisterReply)>,
    i: int,
)
    requires
        is_registration(bindings, run),
        0 <= i < run.len(),
    ensures
        register_answers(run[i].0, run[i].1),
        i + 1 < run.len() ==> register_follows(
            bindings,
            run[i].0,
            run[i].1,
            RegisterProgress::Go(run[i + 1].0),
        ),
{
}

/// The action that a signal of the service is about.
pub open spec fn signalled(component: Seq<char>, action: Seq<char>) -> Option<Trigger> {
    if component != COMPONENT@ {
        None
    } else if action == COPY_ACTION@ {
        Some(Trigger::Copy)
    } else if action == OCR_ACTION@ {
        Some(Trigger::Ocr)
    } else {
        None
    }
}

/// The action that a signal of the service is about.
pub fn signal_trigger(component: &str, action: &str) -> (trigger: Option<Trigger>)
    ensures
        trigger == signalled(component@, action@),
{
    if !text::same_text(component, COMPONENT) {
        None
    } else if text::same_text(action, COPY_ACTION) {
        Some(Trigger::Copy)
    } else if text::same_text(action, OCR_ACTION) {
        Some(Trigger::Ocr)
    } else {
        None
    }
}

/// Whether a trigger is passed on: only where none is pending.
pub fn passes_on(trigger: Option<Trigger>, pending: bool) -> (passed: Option<Trigger>)
    ensures
        passed == (if pending {
            None
        } else {
            trigger
        }),
{
    if pending {
        None
    } else {
        trigger
    }
}

/// What the daemon wakes up for.
#[derive(Debug, Clone, Copy, PartialEq, Eq, Structural)]
pub enum Event {
    /// A shortcut was pressed.
    Trigger(Trigger),
    /// The listener was restarted, so that the shortcuts have to be registered again.
    Reregister,
    /// Nothing happened for a while.
    Timeout,
    /// The listener is gone.
    Disconnected,
}

/// What the daemon does.
#[derive(Debug)]
pub enum Action {
    /// Tell that no model is installed.
    NotifyNoModel,
    /// Capture, and recognize the text if so told.
    Capture(bool),
    /// Register the shortcuts.
    Register,
    /// Nothing.
    Wait,
    /// End.
    Stop(KeyboardError),
}

/// Whether an action is what the daemon does about an event, told whether a model can be used.
pub open spec fn is_reaction(event: Event, model_available: bool, action: Action) -> bool {
    match event {
        Event::Trigger(trigger) => action == (if model_available {
            Action::Capture(trigger == Trigger::Ocr)
        } else {
            Action::NotifyNoModel
        }),
        Event::Reregister => action is Register,
        Event::Timeout => action is Wait,
        Event::Disconnected => action matches Action::Stop(error) && error.text()
            == "shortcut listener stopped unexpectedly"@,
    }
}

/// Decides what the daemon does, told whether a model can be used.
pub fn react(event: Event, model_available: bool) -> (action: Action)
    ensures
        is_reaction(event, model_available, action),
{
    match event {
        Event::Trigger(trigger) => if model_available {
            Action::Capture(trigger == Trigger::Ocr)
        } else {
            Action::NotifyNoModel
        },
        Event::Reregister => Action::Register,
        Event::Timeout => Action::Wait,
        Event::Disconnected => Action::Stop(
            KeyboardError::Operation("shortcut listener stopped unexpectedly".to_owned()),
        ),
    }
}

/// What the daemon knows: the configuration that it has seen last, and the shortcuts that are
/// registered.
#[derive(Debug)]
pub struct Daemon {
    /// The content of the configuration file, if it could be read.
    pub content: Option<String>,
    /// The shortcuts.
    pub bindings: Bindings,
}

/// What the daemon does about a configuration that changed.
#[derive(Debug)]
pub enum Reload {
    /// Nothing.
    Keep,
    /// Tell that it cannot be used.
    Report(String),
    /// Register these shortcuts in place of the current ones.
    Register(Bindings),
}

/// What the daemon does once shortcuts were registered, or not.
#[derive(Debug)]
pub enum Reloaded {
    /// Tell that they are in effect.
    Report(String),
    /// Tell that they are not, and register the current ones again.
    Restore(String),
}

/// Whether two optional shortcuts are equal.
fn same_binding(left: &Option<Binding>, right: &Option<Binding>) -> (same: bool)
    ensures
        same == (keyboard::binding_view(*left) == keyboard::binding_view(*right)),
{
    match (left, right) {
        (Some(left), Some(right)) => left.key == right.key && text::same_text(
            left.name.as_str(),
            right.name.as_str(),
        ),
        (None, None) => true,
        _ => false,
    }
}

/// What is said of a reload that failed.
pub open spec fn reload_failure(reason: Seq<char>) -> Seq<char> {
    "Shortcut reload failed: "@ + reason
}

impl Daemon {
    /// Takes note of the configuration file, and tells whether it changed.
    pub fn see_content(&mut self, content: Option<String>) -> (changed: bool)
        ensures
            changed == (text::optional_view(content) != text::optional_view(old(self).content)),
            text::optional_view(final(self).content) == text::optional_view(content),
            final(self).bindings == old(self).bindings,
    {
        if text::same_optional(&content, &self.content) {
            return false;
        }
        self.content = content;
        true
    }

    /// Decides what to do about the shortcuts of a configuration that changed.
    pub fn consider(&self, loaded: Result<Bindings, KeyboardError>) -> (reload: Reload)
        ensures
            match loaded {
                Err(error) => reload matches Reload::Report(message) && message@ == reload_failure(
                    error.text(),
                ),
                Ok(bindings) => if bindings@ == self.bindings@ {
                    reload is Keep
                } else {
                    reload == Reload::Register(bindings)
                },
            },
    {
        match loaded {
            Err(error) => Reload::Report(
                text::concat("Shortcut reload failed: ", error.message().as_str()),
            ),
            Ok(bindings) => if same_binding(&bindings.copy, &self.bindings.copy) && same_binding(
                &bindings.ocr,
                &self.bindings.ocr,
            ) {
                Reload::Keep
            } else {
                Reload::Register(bindings)
            },
        }
    }

    /// Takes over the shortcuts that were registered, or keeps the current ones if that failed.
    pub fn conclude(&mut self, bindings: Bindings, outcome: Result<(), KeyboardError>) -> (next:
        Reloaded)
        ensures
            final(self).content == old(self).content,
            match outcome {
                Ok(_) => final(self).bindings == bindings && (next matches Reloaded::Report(message)
                    && message@ == "Shortcuts reloaded"@),
                Err(error) => final(self).bindings == old(self).bindings && (next matches
                    Reloaded::Restore(message) && message@ == reload_failure(error.text())),
            },
    {
        match outcome {
            Ok(()) => {
                self.bindings = bindings;
                Reloaded::Report("Shortcuts reloaded".to_owned())
            },
            Err(error) => Reloaded::Restore(
                text::concat("Shortcut reload failed: ", error.message().as_str()),
            ),
        }
    }
}

/// What is said where no model is installed.
pub open spec fn no_model_text() -> Seq<char> {
    "No OCR model available. Install one with kocr install 1."@
}

/// What is said where no model is installed.
pub fn no_model_message() -> (message: String)
    ensures
        message@ == no_model_text(),
{
    "No OCR model available. Install one with kocr install 1.".to_owned()
}

/// The arguments that `notify-send` is started with where no model is installed.
pub fn notify_arguments() -> (arguments: Vec<String>)
    ensures
        text::texts_view(arguments@) == seq!["--app-name"@, "KOCR"@, "KOCR"@, no_model_text()],
{
    let arguments: Vec<String> = vec![
        "--app-name".to_owned(),
        "KOCR".to_owned(),
        "KOCR".to_owned(),
        no_model_message(),
    ];
    assert(text::texts_view(arguments@) =~= seq![
        "--app-name"@,
        "KOCR"@,
        "KOCR"@,
        no_model_text(),
    ]);
    arguments
}

/// A signal of the component about an action is about the trigger with the name of this action;
/// signals of other components and about other actions are about none.
pub proof fn law_signal_names_its_action(trigger: Trigger, component: Seq<char>, action: Seq<char>)
    ensures
        signalled(COMPONENT@, action_name(trigger)) == Some(trigger),
        component != COMPONENT@ ==> signalled(component, action) is None,
        signalled(component, action) matches Some(found) ==> component == COMPONENT@ && action
            == action_name(found),
        action_name(Trigger::Copy) == "copy"@,
        action_name(Trigger::Ocr) == "capture-ocr"@,
        COMPONENT@ == "kocr"@,
{
    reveal_strlit("copy");
    reveal_strlit("capture-ocr");
    assert(COPY_ACTION@ == "copy"@ && OCR_ACTION@ == "capture-ocr"@);
    assert("copy"@.len() != "capture-ocr"@.len());
}

/// The keys that are set for an action are those of its own shortcut: one sequence that begins with
/// the key and is filled up to four with zeros, or none for an action without a shortcut.
pub proof fn law_keys_of_the_action_are_set(bindings: Bindings, trigger: Trigger)
    ensures
        binding_of(bindings, Trigger::Copy) == bindings.copy,
        binding_of(bindings, Trigger::Ocr) == bindings.ocr,
        binding_of(bindings, trigger) is None ==> key_sequences(
            binding_of(bindings, trigger),
        ).len() == 0,
        binding_of(bindings, trigger) matches Some(binding) ==> {
            let keys = key_sequences(Some(binding));
            &&& keys.len() == 1
            &&& keys[0].len() == 4
            &&& keys[0][0] == binding.key
            &&& keys[0][1] == 0 && keys[0][2] == 0 && keys[0][3] == 0
        },
{
}

/// What was assigned is what was asked for exactly if the key stands somewhere in one of the
/// sequences; where nothing was asked for, anything will do.
pub proof fn law_assigned_key_stands_in_a_sequence(
    binding: Option<Binding>,
    assigned: Seq<Seq<i32>>,
)
    ensures
        binding is None ==> is_assigned(binding, assigned),
        binding matches Some(wanted) ==> (is_assigned(binding, assigned) <==> exists|
            i: int,
            k: int,
        |
            0 <= i < assigned.len() && 0 <= k < assigned[i].len() && #[trigger] assigned[i][k]
                == wanted.key),
{
    if binding is Some {
        let key = binding->0.key;
        if assigns(assigned, key) {
            let i = choose|i: int| 0 <= i < assigned.len() && (#[trigger] assigned[i]).contains(key);
            let k = choose|k: int| 0 <= k < assigned[i].len() && assigned[i][k] == key;
            assert(assigned[i][k] == key);
        }
        if exists|i: int, k: int|
            0 <= i < assigned.len() && 0 <= k < assigned[i].len() && #[trigger] assigned[i][k]
                == key {
            let (i, k) = choose|i: int, k: int|
                0 <= i < assigned.len() && 0 <= k < assigned[i].len() && #[trigger] assigned[i][k]
                    == key;
            assert(assigned[i].contains(key));
        }
    }
}

/// A registration that finishes announced the action that copies and set its keys, and then did the
/// same for the action that recognizes.
pub proof fn law_registration_goes_action_by_action(
    bindings: Bindings,
    run: Seq<(RegisterTask, RegisterReply)>,
)
    requires
        is_registration(bindings, run),
        run.len() > 0,
        register_follows(bindings, run.last().0, run.last().1, RegisterProgress::Finished),
    ensures
        run.len() == 4,
        run[0].0 == RegisterTask::Announce(Trigger::Copy),
        run[1].0 == RegisterTask::SetKeys(Trigger::Copy),
        run[2].0 == RegisterTask::Announce(Trigger::Ocr),
        run[3].0 == RegisterTask::SetKeys(Trigger::Ocr),
{
    law_finished_registration_is_complete(bindings, run);
    lemma_registration_step(bindings, run, 0);
    lemma_registration_step(bindings, run, 1);
    lemma_registration_step(bindings, run, 2);
}

/// A call that fails ends a registration, and so does a shortcut that was not assigned.
pub proof fn law_failed_registration_ends(
    bindings: Bindings,
    task: RegisterTask,
    reply: RegisterReply,
    progress: RegisterProgress,
)
    requires
        register_answers(task, reply),
        register_follows(bindings, task, reply, progress),
    ensures
        reply is Failed ==> progress is Stopped,
        reply matches RegisterReply::Assigned(assigned) ==> (progress is Stopped <==> !is_assigned(
            binding_of(bindings, task->SetKeys_0),
            sequences_view(assigned@),
        )),
        reply is Announced ==> progress is Go,
{
}

/// A shortcut captures the screen, and has the text recognized exactly if it is the one for that;
/// without a model it only says so. Nothing else makes the daemon capture, and only the loss of its
/// listener makes it end.
pub proof fn law_shortcut_captures(event: Event, model_available: bool, action: Action)
    requires
        is_reaction(event, model_available, action),
    ensures
        event == Event::Trigger(Trigger::Ocr) && model_available ==> action == Action::Capture(true),
        event == Event::Trigger(Trigger::Copy) && model_available ==> action == Action::Capture(
            false,
        ),
        event is Trigger && !model_available <==> action is NotifyNoModel,
        action is Capture ==> event is Trigger && model_available,
        action is Register <==> event is Reregister,
        action is Wait <==> event is Timeout,
        action is Stop <==> event is Disconnected,
{
}

/// The view of key sequences has the keys of each sequence in its place.
pub proof fn law_view_keeps_sequences(list: Seq<Vec<i32>>, i: int)
    requires
        0 <= i < list.len(),
    ensures
        sequences_view(list).len() == list.len(),
        sequences_view(list)[i] == list[i]@,
{
}

/// The actions have descriptions of their own, and a task that fails is named by what it was about to
/// do.
pub proof fn law_actions_and_tasks_are_named(trigger: Trigger, reason: Seq<char>)
    ensures
        action_description(Trigger::Copy) == "Capture and copy screenshot"@,
        action_description(Trigger::Ocr) == "Capture screenshot and recognize text"@,
        register_context(RegisterTask::Announce(trigger)) == "could not register shortcut action"@,
        register_context(RegisterTask::SetKeys(trigger)) == "could not set global shortcut"@,
        reload_failure(reason) == "Shortcut reload failed: "@ + reason,
{
}

} // verus!
