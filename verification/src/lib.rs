//! Verified core of the Sniffer launcher: widget identifiers, runtime data and
//! style override maps, the application data vault with its paged app search,
//! the launcher state machine and its Android intents, the UI element tree and
//! its edits, the tailwind-like class language of styles, colours written as
//! text, hardware-key text entry, RGBA pixel buffers and the integer part of
//! glyph distance fields.

pub mod apps;
pub mod atlas;
pub mod color;
pub mod data_map;
pub mod element;
pub mod event;
pub mod input;
pub mod intent;
pub mod launcher;
pub mod raster;
pub mod sdf;
pub mod style;
pub mod style_map;
pub mod tailwind;
pub mod text;
pub mod texture_cache;
pub mod vault;
pub mod widget;
