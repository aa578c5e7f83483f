//! Layout enums, the colour palette, and the tailwind-like class language that
//! styles are written in.
use vstd::prelude::*;

verus! {

/// Default window width of the desktop preview, in pixels.
pub const WINDOW_WIDTH: usize = 420;

/// Default window height of the desktop preview, in pixels.
pub const WINDOW_HEIGHT: usize = 760;

pub const BACKGROUND: u32 = 0x0010_1820;
pub const BUTTON_TEXT: u32 = 0x00F2_F5F7;
pub const BUTTON_MUTED: u32 = 0x00AF_C4CC;
pub const SHADOW: u32 = 0x000B_1116;
pub const CARD_SETTINGS: u32 = 0x001B_9AAA;
pub const CARD_CONTACTS: u32 = 0x002C_8FA3;
pub const CARD_CAMERA: u32 = 0x0024_6E7D;
pub const CARD_SETTINGS_HOVER: u32 = 0x0023_AFC4;
pub const CARD_CONTACTS_HOVER: u32 = 0x0036_A3B8;
pub const CARD_CAMERA_HOVER: u32 = 0x002D_8091;
pub const ICON_SURFACE: u32 = 0x000F_3940;
pub const HEADER_SURFACE: u32 = 0x0015_232C;

/// Card corner radius, in pixels.
pub const CARD_RADIUS: u32 = 18;

/// Whether a node takes part in layout.
#[derive(Clone, Copy, Debug, PartialEq, Eq, Structural)]
pub enum Display {
    Flex,
    /// Neither laid out nor drawn (`display: none`).
    Hidden,
}

impl Default for Display {
    fn default() -> (d: Self)
        ensures
            d == Display::Flex,
    {
        Display::Flex
    }
}

/// The main axis of a flex container.
#[derive(Clone, Copy, Debug, PartialEq, Eq, Structural)]
pub enum FlexDirection {
    Column,
    Row,
}

impl Default for FlexDirection {
    fn default() -> (d: Self)
        ensures
            d == FlexDirection::Column,
    {
        FlexDirection::Column
    }
}

/// Placement of children along the main axis.
#[derive(Clone, Copy, Debug, PartialEq, Eq, Structural)]
pub enum JustifyContent {
    Start,
    Center,
    End,
    SpaceBetween,
}

impl Default for JustifyContent {
    fn default() -> (j: Self)
        ensures
            j == JustifyContent::Start,
    {
        JustifyContent::Start
    }
}

/// Placement of children along the cross axis.
#[derive(Clone, Copy, Debug, PartialEq, Eq, Structural)]
pub enum AlignItems {
    Stretch,
    Start,
    Center,
    End,
}

impl Default for AlignItems {
    fn default() -> (a: Self)
        ensures
            a == AlignItems::Stretch,
    {
        AlignItems::Stretch
    }
}

/// How an image fills its box.
#[derive(Clone, Copy, Debug, PartialEq, Eq, Structural)]
pub enum ObjectFit {
    Fill,
    Contain,
    Cover,
}

impl Default for ObjectFit {
    fn default() -> (o: Self)
        ensures
            o == ObjectFit::Fill,
    {
        ObjectFit::Fill
    }
}

} // verus!
