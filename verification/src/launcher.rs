//! The launcher's actions and its hover/click state machine.
use vstd::prelude::*;

verus! {

/// The launcher's buttons.
#[derive(Clone, Copy, Debug, PartialEq, Eq, Structural)]
pub enum ButtonId {
    Settings,
    Contacts,
    Camera,
}

/// A high-level action dispatched by the host or by plugins.
#[derive(Debug)]
pub enum Action {
    OpenSettings,
    OpenContacts,
    OpenCamera,
    LoadImage { id: String, src: String },
    FocusTextInput(String),
    BlurTextInput,
}

/// The launcher's UI state: which button the pointer is over.
#[derive(Debug)]
pub struct LauncherState {
    pub hovered: Option<ButtonId>,
}

impl Default for LauncherState {
    fn default() -> (s: Self)
        ensures
            s.hovered is None,
    {
        LauncherState { hovered: None }
    }
}

/// Messages that drive the launcher state machine.
#[derive(Clone, Copy, Debug)]
pub enum LauncherMessage {
    /// The pointer moved; the position plays no part in the state machine.
    PointerMoved,
    /// The pointer is now over this button, or over none.
    ButtonHovered(Option<ButtonId>),
    /// This button was clicked.
    ButtonClicked(ButtonId),
}

/// The action that clicking a button asks for.
pub open spec fn button_action(id: ButtonId) -> Action {
    match id {
        ButtonId::Settings => Action::OpenSettings,
        ButtonId::Contacts => Action::OpenContacts,
        ButtonId::Camera => Action::OpenCamera,
    }
}

/// The platform-agnostic launcher application.
pub struct LauncherApp;

impl LauncherApp {
    /// Applies a message: hovering records the hovered button, a click asks
    /// for the button's action, a pointer move changes nothing.
    pub fn update(state: &mut LauncherState, msg: LauncherMessage) -> (action: Option<Action>)
        ensures
            match msg {
                LauncherMessage::PointerMoved => final(state).hovered == old(state).hovered
                    && action is None,
                LauncherMessage::ButtonHovered(b) => final(state).hovered == b && action is None,
                LauncherMessage::ButtonClicked(b) => final(state).hovered == old(state).hovered
                    && action == Some(button_action(b)),
            },
    {
        match msg {
            LauncherMessage::PointerMoved => None,
            LauncherMessage::ButtonHovered(btn_id) => {
                state.hovered = btn_id;
                None
            },
            LauncherMessage::ButtonClicked(btn_id) => match btn_id {
                ButtonId::Settings => Some(Action::OpenSettings),
                ButtonId::Contacts => Some(Action::OpenContacts),
                ButtonId::Camera => Some(Action::OpenCamera),
            },
        }
    }
}

/// The background class of a launcher button's card: the lighter `-hover`
/// variant while the pointer is over it.
pub open spec fn button_background_spec(id: ButtonId, hovered: bool) -> Seq<char> {
    match id {
        ButtonId::Settings => if hovered { "bg-settings-hover"@ } else { "bg-settings"@ },
        ButtonId::Contacts => if hovered { "bg-contacts-hover"@ } else { "bg-contacts"@ },
        ButtonId::Camera => if hovered { "bg-camera-hover"@ } else { "bg-camera"@ },
    }
}

impl LauncherApp {
    /// The background class of button `id` in state `state`.
    pub fn button_background(state: &LauncherState, id: ButtonId) -> (class: &'static str)
        ensures
            class@ == button_background_spec(id, state.hovered == Some(id)),
    {
        let hovered = match state.hovered {
            Some(h) => h == id,
            None => false,
        };
        match id {
            ButtonId::Settings => if hovered { "bg-settings-hover" } else { "bg-settings" },
            ButtonId::Contacts => if hovered { "bg-contacts-hover" } else { "bg-contacts" },
            ButtonId::Camera => if hovered { "bg-camera-hover" } else { "bg-camera" },
        }
    }
}


/// A button's background class is `bg-` followed by the button's name, and
/// while the pointer is over the button it is that class followed by `-hover`:
/// the hovered and the resting classes always differ.
pub proof fn hovered_background_is_the_hover_variant(id: ButtonId)
    ensures
        id == ButtonId::Settings ==> button_background_spec(id, false) == "bg-settings"@,
        id == ButtonId::Contacts ==> button_background_spec(id, false) == "bg-contacts"@,
        id == ButtonId::Camera ==> button_background_spec(id, false) == "bg-camera"@,
        button_background_spec(id, true) == button_background_spec(id, false) + "-hover"@,
        button_background_spec(id, true) != button_background_spec(id, false),
{
    reveal_strlit("bg-settings");
    reveal_strlit("bg-contacts");
    reveal_strlit("bg-camera");
    reveal_strlit("bg-settings-hover");
    reveal_strlit("bg-contacts-hover");
    reveal_strlit("bg-camera-hover");
    reveal_strlit("-hover");
    assert("bg-settings-hover"@ =~= "bg-settings"@ + "-hover"@);
    assert("bg-contacts-hover"@ =~= "bg-contacts"@ + "-hover"@);
    assert("bg-camera-hover"@ =~= "bg-camera"@ + "-hover"@);
    assert(button_background_spec(id, true).len() > button_background_spec(id, false).len());
}

} // verus!
