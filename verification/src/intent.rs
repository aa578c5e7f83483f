//! Android intents that the launcher starts, described as plain values; the
//! platform layer turns them into `android.content.Intent` objects.
use vstd::prelude::*;

use crate::launcher::Action;

verus! {

/// `android.content.Intent.FLAG_ACTIVITY_NEW_TASK`.
pub const FLAG_ACTIVITY_NEW_TASK: i32 = 0x1000_0000i32;

/// An intent to start: an action, an optional data URI, and launch flags.
pub struct Intent {
    pub action: String,
    pub data_uri: Option<String>,
    pub flags: i32,
}

/// The intent that opens the system settings.
pub open spec fn settings_action() -> Seq<char> {
    "android.settings.SETTINGS"@
}

/// The intent action that opens the camera for a still image.
pub open spec fn camera_action() -> Seq<char> {
    "android.media.action.STILL_IMAGE_CAMERA"@
}

/// The VIEW intent action.
pub open spec fn view_action() -> Seq<char> {
    "android.intent.action.VIEW"@
}

/// The URI of the contacts list.
pub open spec fn contacts_uri() -> Seq<char> {
    "content://contacts/people"@
}

/// Adds `FLAG_ACTIVITY_NEW_TASK` to the intent, so that it can be started from
/// outside an activity.
pub fn add_new_task_flag(intent: &mut Intent)
    ensures
        final(intent).flags == old(intent).flags | FLAG_ACTIVITY_NEW_TASK,
        final(intent).action@ == old(intent).action@,
        final(intent).data_uri == old(intent).data_uri,
{
    intent.flags = intent.flags | FLAG_ACTIVITY_NEW_TASK;
}

/// The intent for the given intent action, started as a new task.
fn start_action(action: &str) -> (intent: Intent)
    ensures
        intent.action@ == action@,
        intent.data_uri is None,
        intent.flags == FLAG_ACTIVITY_NEW_TASK,
{
    let mut intent = Intent { action: String::from_str(action), data_uri: None, flags: 0 };
    add_new_task_flag(&mut intent);
    assert(0i32 | FLAG_ACTIVITY_NEW_TASK == FLAG_ACTIVITY_NEW_TASK) by (bit_vector);
    intent
}

/// The VIEW intent for `uri`, started as a new task.
pub fn start_view_uri(uri: &str) -> (intent: Intent)
    ensures
        intent.action@ == view_action(),
        intent.flags == FLAG_ACTIVITY_NEW_TASK,
        intent.data_uri matches Some(u) && u@ == uri@,
{
    let mut intent = Intent {
        action: String::from_str("android.intent.action.VIEW"),
        data_uri: Some(String::from_str(uri)),
        flags: 0,
    };
    add_new_task_flag(&mut intent);
    assert(0i32 | FLAG_ACTIVITY_NEW_TASK == FLAG_ACTIVITY_NEW_TASK) by (bit_vector);
    intent
}

/// The intent that launches a system action: the settings, the contacts list
/// or the camera. Other actions are not launched through an intent.
pub fn launch_action(action: &Action) -> (intent: Option<Intent>)
    ensures
        match action {
            Action::OpenSettings => intent matches Some(i) && i.action@ == settings_action()
                && i.data_uri is None && i.flags == FLAG_ACTIVITY_NEW_TASK,
            Action::OpenContacts => intent matches Some(i) && i.action@ == view_action()
                && i.flags == FLAG_ACTIVITY_NEW_TASK && (i.data_uri matches Some(u) && u@
                == contacts_uri()),
            Action::OpenCamera => intent matches Some(i) && i.action@ == camera_action()
                && i.data_uri is None && i.flags == FLAG_ACTIVITY_NEW_TASK,
            _ => intent is None,
        },
{
    match action {
        Action::OpenSettings => Some(start_action("android.settings.SETTINGS")),
        Action::OpenContacts => Some(start_view_uri("content://contacts/people")),
        Action::OpenCamera => Some(start_action("android.media.action.STILL_IMAGE_CAMERA")),
        _ => None,
    }
}

} // verus!
