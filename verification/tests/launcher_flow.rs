use snifferlauncher::input::keycode_to_char;
use snifferlauncher::intent::{add_new_task_flag, launch_action, start_view_uri, Intent, FLAG_ACTIVITY_NEW_TASK};
use snifferlauncher::launcher::{Action, ButtonId, LauncherApp, LauncherMessage, LauncherState};

#[test]
fn hover_then_click() {
    let mut state = LauncherState::default();
    assert_eq!(state.hovered, None);
    assert!(LauncherApp::update(&mut state, LauncherMessage::ButtonHovered(Some(ButtonId::Camera))).is_none());
    assert_eq!(state.hovered, Some(ButtonId::Camera));
    assert!(LauncherApp::update(&mut state, LauncherMessage::PointerMoved).is_none());
    assert_eq!(state.hovered, Some(ButtonId::Camera));
    let a = LauncherApp::update(&mut state, LauncherMessage::ButtonClicked(ButtonId::Settings));
    assert!(matches!(a, Some(Action::OpenSettings)));
    assert_eq!(state.hovered, Some(ButtonId::Camera));
    assert!(LauncherApp::update(&mut state, LauncherMessage::ButtonHovered(None)).is_none());
    assert_eq!(state.hovered, None);
}

#[test]
fn every_button_asks_for_its_action() {
    let mut state = LauncherState::default();
    assert!(matches!(
        LauncherApp::update(&mut state, LauncherMessage::ButtonClicked(ButtonId::Contacts)),
        Some(Action::OpenContacts)
    ));
    assert!(matches!(
        LauncherApp::update(&mut state, LauncherMessage::ButtonClicked(ButtonId::Camera)),
        Some(Action::OpenCamera)
    ));
}

#[test]
fn launch_action_intents() {
    let i = launch_action(&Action::OpenSettings).unwrap();
    assert_eq!(i.action, "android.settings.SETTINGS");
    assert_eq!(i.data_uri, None);
    assert_eq!(i.flags, FLAG_ACTIVITY_NEW_TASK);
    let i = launch_action(&Action::OpenContacts).unwrap();
    assert_eq!(i.action, "android.intent.action.VIEW");
    assert_eq!(i.data_uri.as_deref(), Some("content://contacts/people"));
    assert_eq!(i.flags, 0x1000_0000);
    let i = launch_action(&Action::OpenCamera).unwrap();
    assert_eq!(i.action, "android.media.action.STILL_IMAGE_CAMERA");
    assert!(launch_action(&Action::BlurTextInput).is_none());
    assert!(launch_action(&Action::FocusTextInput("search".to_string())).is_none());
}

#[test]
fn view_uri_and_new_task_flag() {
    let i = start_view_uri("https://example.org");
    assert_eq!(i.action, "android.intent.action.VIEW");
    assert_eq!(i.data_uri.as_deref(), Some("https://example.org"));
    let mut j = Intent { action: "a".to_string(), data_uri: None, flags: 0x4 };
    add_new_task_flag(&mut j);
    assert_eq!(j.flags, 0x1000_0004);
    add_new_task_flag(&mut j);
    assert_eq!(j.flags, 0x1000_0004);
    assert_eq!(j.action, "a");
}

#[test]
fn keycodes_type_characters() {
    assert_eq!(keycode_to_char(29), Some('a'));
    assert_eq!(keycode_to_char(54), Some('z'));
    assert_eq!(keycode_to_char(7), Some('0'));
    assert_eq!(keycode_to_char(16), Some('9'));
    assert_eq!(keycode_to_char(62), Some(' '));
    assert_eq!(keycode_to_char(56), Some('.'));
    assert_eq!(keycode_to_char(55), Some(','));
    assert_eq!(keycode_to_char(69), Some('-'));
    assert_eq!(keycode_to_char(67), None); // delete
    assert_eq!(keycode_to_char(0), None);
    assert_eq!(keycode_to_char(17), None);
}

#[test]
fn button_backgrounds_follow_hover() {
    let mut state = LauncherState::default();
    assert_eq!(LauncherApp::button_background(&state, ButtonId::Settings), "bg-settings");
    state.hovered = Some(ButtonId::Settings);
    assert_eq!(LauncherApp::button_background(&state, ButtonId::Settings), "bg-settings-hover");
    assert_eq!(LauncherApp::button_background(&state, ButtonId::Camera), "bg-camera");
    state.hovered = Some(ButtonId::Contacts);
    assert_eq!(LauncherApp::button_background(&state, ButtonId::Contacts), "bg-contacts-hover");
}
