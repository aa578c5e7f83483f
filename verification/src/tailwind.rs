//! The tailwind-like class language of styles: a class string is split at
//! whitespace and each class is read as one style utility.
//!
//! Sizes are left as the text that follows the class prefix; turning that text
//! into a length is the style builder's work.
use vstd::prelude::*;

use crate::style::{
    AlignItems, Display, FlexDirection, JustifyContent, BACKGROUND, BUTTON_MUTED, BUTTON_TEXT,
    CARD_CAMERA, CARD_CAMERA_HOVER, CARD_CONTACTS, CARD_CONTACTS_HOVER, CARD_RADIUS,
    CARD_SETTINGS, CARD_SETTINGS_HOVER, HEADER_SURFACE, ICON_SURFACE,
};
use crate::text::{chars_eq, chars_of, is_white_space, push_char, starts_with, white_space};

verus! {

/// The length of the run of non-whitespace characters at the start of `s`.
pub open spec fn word_len(s: Seq<char>) -> nat
    decreases s.len(),
{
    if s.len() == 0 || white_space(s[0]) {
        0
    } else {
        1 + word_len(s.drop_first())
    }
}

/// The maximal runs of non-whitespace characters of `s`, in order (what
/// `str::split_whitespace` yields).
pub open spec fn words(s: Seq<char>) -> Seq<Seq<char>>
    decreases s.len(),
{
    if s.len() == 0 {
        Seq::empty()
    } else if white_space(s[0]) {
        words(s.drop_first())
    } else {
        proof {
            lemma_word_len_bounds(s);
        }
        seq![s.take(word_len(s) as int)] + words(s.skip(word_len(s) as int))
    }
}

/// A word of a non-empty string that starts with a non-whitespace character is
/// at least one and at most all of its characters long.
pub proof fn lemma_word_len_bounds(s: Seq<char>)
    ensures
        word_len(s) <= s.len(),
        s.len() > 0 && !white_space(s[0]) ==> word_len(s) >= 1,
    decreases s.len(),
{
    if s.len() > 0 && !white_space(s[0]) {
        lemma_word_len_bounds(s.drop_first());
    }
}

/// A run of `m` non-whitespace characters that ends at a whitespace character
/// or at the end is a word of length `m`.
proof fn lemma_word_len_run(t: Seq<char>, m: int)
    requires
        0 <= m <= t.len(),
        forall|k: int| 0 <= k < m ==> !white_space(#[trigger] t[k]),
        m == t.len() || white_space(t[m]),
    ensures
        word_len(t) == m,
    decreases m,
{
    if m > 0 {
        lemma_word_len_run(t.drop_first(), m - 1);
    }
}

/// The whitespace-separated words of `s`.
pub fn split_words(s: &[char]) -> (r: Vec<Vec<char>>)
    ensures
        r@.len() == words(s@).len(),
        forall|k: int| 0 <= k < r@.len() ==> (#[trigger] r@[k])@ == words(s@)[k],
{
    let n = s.len();
    let mut out: Vec<Vec<char>> = Vec::new();
    let ghost mut done: Seq<Seq<char>> = Seq::empty();
    let mut i: usize = 0;
    proof {
        assert(s@.skip(0) =~= s@);
    }
    while i < n
        invariant
            n == s@.len(),
            i <= n,
            out@.len() == done.len(),
            forall|k: int| 0 <= k < out@.len() ==> (#[trigger] out@[k])@ == done[k],
            words(s@) == done + words(s@.skip(i as int)),
        decreases n - i,
    {
        if is_white_space(s[i]) {
            proof {
                assert(s@.skip(i as int).drop_first() =~= s@.skip(i as int + 1));
            }
            i += 1;
        } else {
            let mut word: Vec<char> = Vec::new();
            let mut j: usize = i;
            while j < n && !is_white_space(s[j])
                invariant
                    n == s@.len(),
                    i <= j <= n,
                    word@ == s@.subrange(i as int, j as int),
                    forall|k: int| i <= k < j ==> !white_space(#[trigger] s@[k]),
                decreases n - j,
            {
                word.push(s[j]);
                j += 1;
                proof {
                    assert(word@ =~= s@.subrange(i as int, j as int));
                }
            }
            let ghost t = s@.skip(i as int);
            let ghost m = (j - i) as int;
            proof {
                assert forall|k: int| 0 <= k < m implies !white_space(#[trigger] t[k]) by {
                    assert(t[k] == s@[i + k]);
                }
                if j < n {
                    assert(t[m] == s@[j as int]);
                }
                lemma_word_len_run(t, m);
                assert(t.take(m) =~= s@.subrange(i as int, j as int));
                assert(t.skip(m) =~= s@.skip(j as int));
                assert(words(s@) == done + (seq![t.take(m)] + words(t.skip(m))));
                assert(done + (seq![word@] + words(s@.skip(j as int))) =~= done.push(word@) + words(
                    s@.skip(j as int),
                ));
                done = done.push(word@);
            }
            out.push(word);
            i = j;
        }
    }
    proof {
        assert(s@.skip(n as int) =~= Seq::<char>::empty());
        assert(done + Seq::<Seq<char>>::empty() =~= done);
    }
    out
}

/// A style utility named by one class.
pub enum Utility {
    Display(Display),
    Direction(FlexDirection),
    Justify(JustifyContent),
    Align(AlignItems),
    /// Width of the whole parent.
    FullWidth,
    /// Height of the whole parent.
    FullHeight,
    AutoWidth,
    AutoHeight,
    /// Background colour (0xRRGGBB).
    Background(u32),
    /// Text colour (0xRRGGBB).
    TextColor(u32),
    /// The card shadow.
    CardShadow,
    /// Corner radius, in pixels.
    Radius(u32),
    /// Padding on all sides, in units of four pixels, as written.
    Padding(String),
    /// Left and right padding, in units of four pixels, as written.
    PaddingX(String),
    /// Top and bottom padding, in units of four pixels, as written.
    PaddingY(String),
    /// Margin on all sides, in units of four pixels, as written.
    Margin(String),
    /// Gap between children, in units of four pixels, as written.
    Gap(String),
    /// Width in pixels, as written.
    Width(String),
    /// Height in pixels, as written.
    Height(String),
    /// Text size in pixels, as written.
    TextSize(String),
}

/// A utility with its texts as character sequences.
pub enum UtilityView {
    Display(Display),
    Direction(FlexDirection),
    Justify(JustifyContent),
    Align(AlignItems),
    FullWidth,
    FullHeight,
    AutoWidth,
    AutoHeight,
    Background(u32),
    TextColor(u32),
    CardShadow,
    Radius(u32),
    Padding(Seq<char>),
    PaddingX(Seq<char>),
    PaddingY(Seq<char>),
    Margin(Seq<char>),
    Gap(Seq<char>),
    Width(Seq<char>),
    Height(Seq<char>),
    TextSize(Seq<char>),
}

impl View for Utility {
    type V = UtilityView;

    open spec fn view(&self) -> UtilityView {
        match self {
            Utility::Display(d) => UtilityView::Display(*d),
            Utility::Direction(d) => UtilityView::Direction(*d),
            Utility::Justify(j) => UtilityView::Justify(*j),
            Utility::Align(a) => UtilityView::Align(*a),
            Utility::FullWidth => UtilityView::FullWidth,
            Utility::FullHeight => UtilityView::FullHeight,
            Utility::AutoWidth => UtilityView::AutoWidth,
            Utility::AutoHeight => UtilityView::AutoHeight,
            Utility::Background(c) => UtilityView::Background(*c),
            Utility::TextColor(c) => UtilityView::TextColor(*c),
            Utility::CardShadow => UtilityView::CardShadow,
            Utility::Radius(r) => UtilityView::Radius(*r),
            Utility::Padding(t) => UtilityView::Padding(t@),
            Utility::PaddingX(t) => UtilityView::PaddingX(t@),
            Utility::PaddingY(t) => UtilityView::PaddingY(t@),
            Utility::Margin(t) => UtilityView::Margin(t@),
            Utility::Gap(t) => UtilityView::Gap(t@),
            Utility::Width(t) => UtilityView::Width(t@),
            Utility::Height(t) => UtilityView::Height(t@),
            Utility::TextSize(t) => UtilityView::TextSize(t@),
        }
    }
}

/// The text inside `w` after `prefix` and before a closing `]`, if `w` ends so.
pub open spec fn bracketed(w: Seq<char>, prefix: Seq<char>) -> Option<Seq<char>> {
    let rest = w.skip(prefix.len() as int);
    if rest.len() > 0 && rest.last() == ']' {
        Some(rest.drop_last())
    } else {
        None
    }
}

/// The utility that the class `w` names, if any.
pub open spec fn utility_of(w: Seq<char>) -> Option<UtilityView> {
    if w == "flex"@ {
        Some(UtilityView::Display(Display::Flex))
    } else if w == "hidden"@ {
        Some(UtilityView::Display(Display::Hidden))
    } else if w == "flex-row"@ || w == "row"@ {
        Some(UtilityView::Direction(FlexDirection::Row))
    } else if w == "flex-col"@ || w == "col"@ {
        Some(UtilityView::Direction(FlexDirection::Column))
    } else if w == "justify-start"@ {
        Some(UtilityView::Justify(JustifyContent::Start))
    } else if w == "justify-center"@ {
        Some(UtilityView::Justify(JustifyContent::Center))
    } else if w == "justify-end"@ {
        Some(UtilityView::Justify(JustifyContent::End))
    } else if w == "justify-between"@ {
        Some(UtilityView::Justify(JustifyContent::SpaceBetween))
    } else if w == "items-start"@ {
        Some(UtilityView::Align(AlignItems::Start))
    } else if w == "items-center"@ {
        Some(UtilityView::Align(AlignItems::Center))
    } else if w == "items-end"@ {
        Some(UtilityView::Align(AlignItems::End))
    } else if w == "items-stretch"@ {
        Some(UtilityView::Align(AlignItems::Stretch))
    } else if w == "w-full"@ {
        Some(UtilityView::FullWidth)
    } else if w == "h-full"@ {
        Some(UtilityView::FullHeight)
    } else if w == "w-auto"@ {
        Some(UtilityView::AutoWidth)
    } else if w == "h-auto"@ {
        Some(UtilityView::AutoHeight)
    } else if w == "bg-background"@ {
        Some(UtilityView::Background(BACKGROUND))
    } else if w == "bg-header"@ {
        Some(UtilityView::Background(HEADER_SURFACE))
    } else if w == "bg-settings"@ {
        Some(UtilityView::Background(CARD_SETTINGS))
    } else if w == "bg-contacts"@ {
        Some(UtilityView::Background(CARD_CONTACTS))
    } else if w == "bg-camera"@ {
        Some(UtilityView::Background(CARD_CAMERA))
    } else if w == "bg-settings-hover"@ {
        Some(UtilityView::Background(CARD_SETTINGS_HOVER))
    } else if w == "bg-contacts-hover"@ {
        Some(UtilityView::Background(CARD_CONTACTS_HOVER))
    } else if w == "bg-camera-hover"@ {
        Some(UtilityView::Background(CARD_CAMERA_HOVER))
    } else if w == "bg-icon-surface"@ {
        Some(UtilityView::Background(ICON_SURFACE))
    } else if w == "bg-text"@ {
        Some(UtilityView::Background(BUTTON_TEXT))
    } else if w == "bg-muted"@ {
        Some(UtilityView::Background(BUTTON_MUTED))
    } else if w == "text-main"@ {
        Some(UtilityView::TextColor(BUTTON_TEXT))
    } else if w == "text-muted"@ {
        Some(UtilityView::TextColor(BUTTON_MUTED))
    } else if w == "shadow-card"@ {
        Some(UtilityView::CardShadow)
    } else if w == "rounded"@ {
        Some(UtilityView::Radius(4))
    } else if w == "rounded-md"@ {
        Some(UtilityView::Radius(8))
    } else if w == "rounded-lg"@ {
        Some(UtilityView::Radius(CARD_RADIUS))
    } else if w == "rounded-2xl"@ {
        Some(UtilityView::Radius(24))
    } else if w == "rounded-full"@ {
        Some(UtilityView::Radius(9999))
    } else if "p-"@.is_prefix_of(w) {
        Some(UtilityView::Padding(w.skip("p-"@.len() as int)))
    } else if "px-"@.is_prefix_of(w) {
        Some(UtilityView::PaddingX(w.skip("px-"@.len() as int)))
    } else if "py-"@.is_prefix_of(w) {
        Some(UtilityView::PaddingY(w.skip("py-"@.len() as int)))
    } else if "m-"@.is_prefix_of(w) {
        Some(UtilityView::Margin(w.skip("m-"@.len() as int)))
    } else if "gap-"@.is_prefix_of(w) {
        Some(UtilityView::Gap(w.skip("gap-"@.len() as int)))
    } else if "w-["@.is_prefix_of(w) {
        match bracketed(w, "w-["@) {
            Some(t) => Some(UtilityView::Width(t)),
            None => None,
        }
    } else if "h-["@.is_prefix_of(w) {
        match bracketed(w, "h-["@) {
            Some(t) => Some(UtilityView::Height(t)),
            None => None,
        }
    } else if "text-["@.is_prefix_of(w) {
        match bracketed(w, "text-["@) {
            Some(t) => Some(UtilityView::TextSize(t)),
            None => None,
        }
    } else {
        None
    }
}

/// Each named class of the style language names the utility of its table
/// entry: display, direction, alignment, sizing keywords, the palette's
/// background and text colours (by their RGB values), the card shadow, and
/// the corner radii in pixels.
#[verifier::rlimit(100)]
pub proof fn named_classes_name_their_utilities()
    ensures
        utility_of("flex"@) == Some(UtilityView::Display(Display::Flex)),
        utility_of("hidden"@) == Some(UtilityView::Display(Display::Hidden)),
        utility_of("flex-row"@) == Some(UtilityView::Direction(FlexDirection::Row)),
        utility_of("row"@) == Some(UtilityView::Direction(FlexDirection::Row)),
        utility_of("flex-col"@) == Some(UtilityView::Direction(FlexDirection::Column)),
        utility_of("col"@) == Some(UtilityView::Direction(FlexDirection::Column)),
        utility_of("justify-start"@) == Some(UtilityView::Justify(JustifyContent::Start)),
        utility_of("justify-center"@) == Some(UtilityView::Justify(JustifyContent::Center)),
        utility_of("justify-end"@) == Some(UtilityView::Justify(JustifyContent::End)),
        utility_of("justify-between"@) == Some(UtilityView::Justify(JustifyContent::SpaceBetween)),
        utility_of("items-start"@) == Some(UtilityView::Align(AlignItems::Start)),
        utility_of("items-center"@) == Some(UtilityView::Align(AlignItems::Center)),
        utility_of("items-end"@) == Some(UtilityView::Align(AlignItems::End)),
        utility_of("items-stretch"@) == Some(UtilityView::Align(AlignItems::Stretch)),
        utility_of("w-full"@) == Some(UtilityView::FullWidth),
        utility_of("h-full"@) == Some(UtilityView::FullHeight),
        utility_of("w-auto"@) == Some(UtilityView::AutoWidth),
        utility_of("h-auto"@) == Some(UtilityView::AutoHeight),
        utility_of("bg-background"@) == Some(UtilityView::Background(0x0010_1820)),
        utility_of("bg-header"@) == Some(UtilityView::Background(0x0015_232C)),
        utility_of("bg-settings"@) == Some(UtilityView::Background(0x001B_9AAA)),
        utility_of("bg-contacts"@) == Some(UtilityView::Background(0x002C_8FA3)),
        utility_of("bg-camera"@) == Some(UtilityView::Background(0x0024_6E7D)),
        utility_of("bg-settings-hover"@) == Some(UtilityView::Background(0x0023_AFC4)),
        utility_of("bg-contacts-hover"@) == Some(UtilityView::Background(0x0036_A3B8)),
        utility_of("bg-camera-hover"@) == Some(UtilityView::Background(0x002D_8091)),
        utility_of("bg-icon-surface"@) == Some(UtilityView::Background(0x000F_3940)),
        utility_of("bg-text"@) == Some(UtilityView::Background(0x00F2_F5F7)),
        utility_of("bg-muted"@) == Some(UtilityView::Background(0x00AF_C4CC)),
        utility_of("text-main"@) == Some(UtilityView::TextColor(0x00F2_F5F7)),
        utility_of("text-muted"@) == Some(UtilityView::TextColor(0x00AF_C4CC)),
        utility_of("shadow-card"@) == Some(UtilityView::CardShadow),
        utility_of("rounded"@) == Some(UtilityView::Radius(4)),
        utility_of("rounded-md"@) == Some(UtilityView::Radius(8)),
        utility_of("rounded-lg"@) == Some(UtilityView::Radius(18)),
        utility_of("rounded-2xl"@) == Some(UtilityView::Radius(24)),
        utility_of("rounded-full"@) == Some(UtilityView::Radius(9999)),
{
    reveal_strlit("flex");
    reveal_strlit("hidden");
    reveal_strlit("flex-row");
    reveal_strlit("row");
    reveal_strlit("flex-col");
    reveal_strlit("col");
    reveal_strlit("justify-start");
    reveal_strlit("justify-center");
    reveal_strlit("justify-end");
    reveal_strlit("justify-between");
    reveal_strlit("items-start");
    reveal_strlit("items-center");
    reveal_strlit("items-end");
    reveal_strlit("items-stretch");
    reveal_strlit("w-full");
    reveal_strlit("h-full");
    reveal_strlit("w-auto");
    reveal_strlit("h-auto");
    reveal_strlit("bg-background");
    reveal_strlit("bg-header");
    reveal_strlit("bg-settings");
    reveal_strlit("bg-contacts");
    reveal_strlit("bg-camera");
    reveal_strlit("bg-settings-hover");
    reveal_strlit("bg-contacts-hover");
    reveal_strlit("bg-camera-hover");
    reveal_strlit("bg-icon-surface");
    reveal_strlit("bg-text");
    reveal_strlit("bg-muted");
    reveal_strlit("text-main");
    reveal_strlit("text-muted");
    reveal_strlit("shadow-card");
    reveal_strlit("rounded");
    reveal_strlit("rounded-md");
    reveal_strlit("rounded-lg");
    reveal_strlit("rounded-2xl");
    reveal_strlit("rounded-full");
    assert("flex-col"@[5] != "flex-row"@[5]);
    assert("col"@[0] != "row"@[0]);
    assert("items-start"@[0] != "justify-end"@[0]);
    assert("items-stretch"@[0] != "justify-start"@[0]);
    assert("w-full"@[0] != "hidden"@[0]);
    assert("h-full"@[1] != "hidden"@[1]);
    assert("h-full"@[0] != "w-full"@[0]);
    assert("w-auto"@[0] != "hidden"@[0]);
    assert("w-auto"@[2] != "w-full"@[2]);
    assert("w-auto"@[0] != "h-full"@[0]);
    assert("h-auto"@[1] != "hidden"@[1]);
    assert("h-auto"@[0] != "w-full"@[0]);
    assert("h-auto"@[2] != "h-full"@[2]);
    assert("h-auto"@[0] != "w-auto"@[0]);
    assert("bg-background"@[0] != "justify-start"@[0]);
    assert("bg-background"@[0] != "items-stretch"@[0]);
    assert("bg-header"@[0] != "items-end"@[0]);
    assert("bg-settings"@[0] != "justify-end"@[0]);
    assert("bg-settings"@[0] != "items-start"@[0]);
    assert("bg-contacts"@[0] != "justify-end"@[0]);
    assert("bg-contacts"@[0] != "items-start"@[0]);
    assert("bg-contacts"@[3] != "bg-settings"@[3]);
    assert("bg-camera"@[0] != "items-end"@[0]);
    assert("bg-camera"@[3] != "bg-header"@[3]);
    assert("bg-contacts-hover"@[3] != "bg-settings-hover"@[3]);
    assert("bg-camera-hover"@[0] != "justify-between"@[0]);
    assert("bg-icon-surface"@[0] != "justify-between"@[0]);
    assert("bg-icon-surface"@[3] != "bg-camera-hover"@[3]);
    assert("bg-muted"@[0] != "flex-row"@[0]);
    assert("bg-muted"@[0] != "flex-col"@[0]);
    assert("text-main"@[0] != "items-end"@[0]);
    assert("text-main"@[0] != "bg-header"@[0]);
    assert("text-main"@[0] != "bg-camera"@[0]);
    assert("shadow-card"@[0] != "justify-end"@[0]);
    assert("shadow-card"@[0] != "items-start"@[0]);
    assert("shadow-card"@[0] != "bg-settings"@[0]);
    assert("shadow-card"@[0] != "bg-contacts"@[0]);
    assert("rounded"@[0] != "bg-text"@[0]);
    assert("rounded-md"@[0] != "text-muted"@[0]);
    assert("rounded-lg"@[0] != "text-muted"@[0]);
    assert("rounded-lg"@[8] != "rounded-md"@[8]);
    assert("rounded-2xl"@[0] != "justify-end"@[0]);
    assert("rounded-2xl"@[0] != "items-start"@[0]);
    assert("rounded-2xl"@[0] != "bg-settings"@[0]);
    assert("rounded-2xl"@[0] != "bg-contacts"@[0]);
    assert("rounded-2xl"@[0] != "shadow-card"@[0]);
    assert("rounded-full"@[0] != "items-center"@[0]);
}

/// `p-` followed by any text names the padding
/// utility with that text.
pub proof fn prefix_class_padding(rest: Seq<char>)
    ensures
        utility_of("p-"@ + rest) == Some(UtilityView::Padding(rest)),
{
    let w = "p-"@ + rest;
    reveal_strlit("flex");
    reveal_strlit("hidden");
    reveal_strlit("flex-row");
    reveal_strlit("row");
    reveal_strlit("flex-col");
    reveal_strlit("col");
    reveal_strlit("justify-start");
    reveal_strlit("justify-center");
    reveal_strlit("justify-end");
    reveal_strlit("justify-between");
    reveal_strlit("items-start");
    reveal_strlit("items-center");
    reveal_strlit("items-end");
    reveal_strlit("items-stretch");
    reveal_strlit("w-full");
    reveal_strlit("h-full");
    reveal_strlit("w-auto");
    reveal_strlit("h-auto");
    reveal_strlit("bg-background");
    reveal_strlit("bg-header");
    reveal_strlit("bg-settings");
    reveal_strlit("bg-contacts");
    reveal_strlit("bg-camera");
    reveal_strlit("bg-settings-hover");
    reveal_strlit("bg-contacts-hover");
    reveal_strlit("bg-camera-hover");
    reveal_strlit("bg-icon-surface");
    reveal_strlit("bg-text");
    reveal_strlit("bg-muted");
    reveal_strlit("text-main");
    reveal_strlit("text-muted");
    reveal_strlit("shadow-card");
    reveal_strlit("rounded");
    reveal_strlit("rounded-md");
    reveal_strlit("rounded-lg");
    reveal_strlit("rounded-2xl");
    reveal_strlit("rounded-full");
    reveal_strlit("p-");
    assert(w.subrange(0, 2) =~= "p-"@);
    assert forall|j: int| 0 <= j < 2 implies w[j] == "p-"@[j] by {
        assert(w.subrange(0, 2)[j] == w[j]);
    }
    assert(w[0] != "flex"@[0]);
    assert(w[0] != "hidden"@[0]);
    assert(w[0] != "flex-row"@[0]);
    assert(w[0] != "row"@[0]);
    assert(w[0] != "flex-col"@[0]);
    assert(w[0] != "col"@[0]);
    assert(w[0] != "justify-start"@[0]);
    assert(w[0] != "justify-center"@[0]);
    assert(w[0] != "justify-end"@[0]);
    assert(w[0] != "justify-between"@[0]);
    assert(w[0] != "items-start"@[0]);
    assert(w[0] != "items-center"@[0]);
    assert(w[0] != "items-end"@[0]);
    assert(w[0] != "items-stretch"@[0]);
    assert(w[0] != "w-full"@[0]);
    assert(w[0] != "h-full"@[0]);
    assert(w[0] != "w-auto"@[0]);
    assert(w[0] != "h-auto"@[0]);
    assert(w[0] != "bg-background"@[0]);
    assert(w[0] != "bg-header"@[0]);
    assert(w[0] != "bg-settings"@[0]);
    assert(w[0] != "bg-contacts"@[0]);
    assert(w[0] != "bg-camera"@[0]);
    assert(w[0] != "bg-settings-hover"@[0]);
    assert(w[0] != "bg-contacts-hover"@[0]);
    assert(w[0] != "bg-camera-hover"@[0]);
    assert(w[0] != "bg-icon-surface"@[0]);
    assert(w[0] != "bg-text"@[0]);
    assert(w[0] != "bg-muted"@[0]);
    assert(w[0] != "text-main"@[0]);
    assert(w[0] != "text-muted"@[0]);
    assert(w[0] != "shadow-card"@[0]);
    assert(w[0] != "rounded"@[0]);
    assert(w[0] != "rounded-md"@[0]);
    assert(w[0] != "rounded-lg"@[0]);
    assert(w[0] != "rounded-2xl"@[0]);
    assert(w[0] != "rounded-full"@[0]);
    assert(w.skip(2) =~= rest);
}

/// `px-` followed by any text names the horizontal padding
/// utility with that text.
pub proof fn prefix_class_paddingx(rest: Seq<char>)
    ensures
        utility_of("px-"@ + rest) == Some(UtilityView::PaddingX(rest)),
{
    let w = "px-"@ + rest;
    reveal_strlit("flex");
    reveal_strlit("hidden");
    reveal_strlit("flex-row");
    reveal_strlit("row");
    reveal_strlit("flex-col");
    reveal_strlit("col");
    reveal_strlit("justify-start");
    reveal_strlit("justify-center");
    reveal_strlit("justify-end");
    reveal_strlit("justify-between");
    reveal_strlit("items-start");
    reveal_strlit("items-center");
    reveal_strlit("items-end");
    reveal_strlit("items-stretch");
    reveal_strlit("w-full");
    reveal_strlit("h-full");
    reveal_strlit("w-auto");
    reveal_strlit("h-auto");
    reveal_strlit("bg-background");
    reveal_strlit("bg-header");
    reveal_strlit("bg-settings");
    reveal_strlit("bg-contacts");
    reveal_strlit("bg-camera");
    reveal_strlit("bg-settings-hover");
    reveal_strlit("bg-contacts-hover");
    reveal_strlit("bg-camera-hover");
    reveal_strlit("bg-icon-surface");
    reveal_strlit("bg-text");
    reveal_strlit("bg-muted");
    reveal_strlit("text-main");
    reveal_strlit("text-muted");
    reveal_strlit("shadow-card");
    reveal_strlit("rounded");
    reveal_strlit("rounded-md");
    reveal_strlit("rounded-lg");
    reveal_strlit("rounded-2xl");
    reveal_strlit("rounded-full");
    reveal_strlit("p-");
    reveal_strlit("px-");
    assert(w.subrange(0, 3) =~= "px-"@);
    assert forall|j: int| 0 <= j < 3 implies w[j] == "px-"@[j] by {
        assert(w.subrange(0, 3)[j] == w[j]);
    }
    assert(w[0] != "flex"@[0]);
    assert(w[0] != "hidden"@[0]);
    assert(w[0] != "flex-row"@[0]);
    assert(w[0] != "row"@[0]);
    assert(w[0] != "flex-col"@[0]);
    assert(w[0] != "col"@[0]);
    assert(w[0] != "justify-start"@[0]);
    assert(w[0] != "justify-center"@[0]);
    assert(w[0] != "justify-end"@[0]);
    assert(w[0] != "justify-between"@[0]);
    assert(w[0] != "items-start"@[0]);
    assert(w[0] != "items-center"@[0]);
    assert(w[0] != "items-end"@[0]);
    assert(w[0] != "items-stretch"@[0]);
    assert(w[0] != "w-full"@[0]);
    assert(w[0] != "h-full"@[0]);
    assert(w[0] != "w-auto"@[0]);
    assert(w[0] != "h-auto"@[0]);
    assert(w[0] != "bg-background"@[0]);
    assert(w[0] != "bg-header"@[0]);
    assert(w[0] != "bg-settings"@[0]);
    assert(w[0] != "bg-contacts"@[0]);
    assert(w[0] != "bg-camera"@[0]);
    assert(w[0] != "bg-settings-hover"@[0]);
    assert(w[0] != "bg-contacts-hover"@[0]);
    assert(w[0] != "bg-camera-hover"@[0]);
    assert(w[0] != "bg-icon-surface"@[0]);
    assert(w[0] != "bg-text"@[0]);
    assert(w[0] != "bg-muted"@[0]);
    assert(w[0] != "text-main"@[0]);
    assert(w[0] != "text-muted"@[0]);
    assert(w[0] != "shadow-card"@[0]);
    assert(w[0] != "rounded"@[0]);
    assert(w[0] != "rounded-md"@[0]);
    assert(w[0] != "rounded-lg"@[0]);
    assert(w[0] != "rounded-2xl"@[0]);
    assert(w[0] != "rounded-full"@[0]);
    assert(w[1] != "p-"@[1]);
    assert(w.skip(3) =~= rest);
}

/// `py-` followed by any text names the vertical padding
/// utility with that text.
pub proof fn prefix_class_paddingy(rest: Seq<char>)
    ensures
        utility_of("py-"@ + rest) == Some(UtilityView::PaddingY(rest)),
{
    let w = "py-"@ + rest;
    reveal_strlit("flex");
    reveal_strlit("hidden");
    reveal_strlit("flex-row");
    reveal_strlit("row");
    reveal_strlit("flex-col");
    reveal_strlit("col");
    reveal_strlit("justify-start");
    reveal_strlit("justify-center");
    reveal_strlit("justify-end");
    reveal_strlit("justify-between");
    reveal_strlit("items-start");
    reveal_strlit("items-center");
    reveal_strlit("items-end");
    reveal_strlit("items-stretch");
    reveal_strlit("w-full");
    reveal_strlit("h-full");
    reveal_strlit("w-auto");
    reveal_strlit("h-auto");
    reveal_strlit("bg-background");
    reveal_strlit("bg-header");
    reveal_strlit("bg-settings");
    reveal_strlit("bg-contacts");
    reveal_strlit("bg-camera");
    reveal_strlit("bg-settings-hover");
    reveal_strlit("bg-contacts-hover");
    reveal_strlit("bg-camera-hover");
    reveal_strlit("bg-icon-surface");
    reveal_strlit("bg-text");
    reveal_strlit("bg-muted");
    reveal_strlit("text-main");
    reveal_strlit("text-muted");
    reveal_strlit("shadow-card");
    reveal_strlit("rounded");
    reveal_strlit("rounded-md");
    reveal_strlit("rounded-lg");
    reveal_strlit("rounded-2xl");
    reveal_strlit("rounded-full");
    reveal_strlit("p-");
    reveal_strlit("px-");
    reveal_strlit("py-");
    assert(w.subrange(0, 3) =~= "py-"@);
    assert forall|j: int| 0 <= j < 3 implies w[j] == "py-"@[j] by {
        assert(w.subrange(0, 3)[j] == w[j]);
    }
    assert(w[0] != "flex"@[0]);
    assert(w[0] != "hidden"@[0]);
    assert(w[0] != "flex-row"@[0]);
    assert(w[0] != "row"@[0]);
    assert(w[0] != "flex-col"@[0]);
    assert(w[0] != "col"@[0]);
    assert(w[0] != "justify-start"@[0]);
    assert(w[0] != "justify-center"@[0]);
    assert(w[0] != "justify-end"@[0]);
    assert(w[0] != "justify-between"@[0]);
    assert(w[0] != "items-start"@[0]);
    assert(w[0] != "items-center"@[0]);
    assert(w[0] != "items-end"@[0]);
    assert(w[0] != "items-stretch"@[0]);
    assert(w[0] != "w-full"@[0]);
    assert(w[0] != "h-full"@[0]);
    assert(w[0] != "w-auto"@[0]);
    assert(w[0] != "h-auto"@[0]);
    assert(w[0] != "bg-background"@[0]);
    assert(w[0] != "bg-header"@[0]);
    assert(w[0] != "bg-settings"@[0]);
    assert(w[0] != "bg-contacts"@[0]);
    assert(w[0] != "bg-camera"@[0]);
    assert(w[0] != "bg-settings-hover"@[0]);
    assert(w[0] != "bg-contacts-hover"@[0]);
    assert(w[0] != "bg-camera-hover"@[0]);
    assert(w[0] != "bg-icon-surface"@[0]);
    assert(w[0] != "bg-text"@[0]);
    assert(w[0] != "bg-muted"@[0]);
    assert(w[0] != "text-main"@[0]);
    assert(w[0] != "text-muted"@[0]);
    assert(w[0] != "shadow-card"@[0]);
    assert(w[0] != "rounded"@[0]);
    assert(w[0] != "rounded-md"@[0]);
    assert(w[0] != "rounded-lg"@[0]);
    assert(w[0] != "rounded-2xl"@[0]);
    assert(w[0] != "rounded-full"@[0]);
    assert(w[1] != "p-"@[1]);
    assert(w[1] != "px-"@[1]);
    assert(w.skip(3) =~= rest);
}

/// `m-` followed by any text names the margin
/// utility with that text.
pub proof fn prefix_class_margin(rest: Seq<char>)
    ensures
        utility_of("m-"@ + rest) == Some(UtilityView::Margin(rest)),
{
    let w = "m-"@ + rest;
    reveal_strlit("flex");
    reveal_strlit("hidden");
    reveal_strlit("flex-row");
    reveal_strlit("row");
    reveal_strlit("flex-col");
    reveal_strlit("col");
    reveal_strlit("justify-start");
    reveal_strlit("justify-center");
    reveal_strlit("justify-end");
    reveal_strlit("justify-between");
    reveal_strlit("items-start");
    reveal_strlit("items-center");
    reveal_strlit("items-end");
    reveal_strlit("items-stretch");
    reveal_strlit("w-full");
    reveal_strlit("h-full");
    reveal_strlit("w-auto");
    reveal_strlit("h-auto");
    reveal_strlit("bg-background");
    reveal_strlit("bg-header");
    reveal_strlit("bg-settings");
    reveal_strlit("bg-contacts");
    reveal_strlit("bg-camera");
    reveal_strlit("bg-settings-hover");
    reveal_strlit("bg-contacts-hover");
    reveal_strlit("bg-camera-hover");
    reveal_strlit("bg-icon-surface");
    reveal_strlit("bg-text");
    reveal_strlit("bg-muted");
    reveal_strlit("text-main");
    reveal_strlit("text-muted");
    reveal_strlit("shadow-card");
    reveal_strlit("rounded");
    reveal_strlit("rounded-md");
    reveal_strlit("rounded-lg");
    reveal_strlit("rounded-2xl");
    reveal_strlit("rounded-full");
    reveal_strlit("p-");
    reveal_strlit("px-");
    reveal_strlit("py-");
    reveal_strlit("m-");
    assert(w.subrange(0, 2) =~= "m-"@);
    assert forall|j: int| 0 <= j < 2 implies w[j] == "m-"@[j] by {
        assert(w.subrange(0, 2)[j] == w[j]);
    }
    assert(w[0] != "flex"@[0]);
    assert(w[0] != "hidden"@[0]);
    assert(w[0] != "flex-row"@[0]);
    assert(w[0] != "row"@[0]);
    assert(w[0] != "flex-col"@[0]);
    assert(w[0] != "col"@[0]);
    assert(w[0] != "justify-start"@[0]);
    assert(w[0] != "justify-center"@[0]);
    assert(w[0] != "justify-end"@[0]);
    assert(w[0] != "justify-between"@[0]);
    assert(w[0] != "items-start"@[0]);
    assert(w[0] != "items-center"@[0]);
    assert(w[0] != "items-end"@[0]);
    assert(w[0] != "items-stretch"@[0]);
    assert(w[0] != "w-full"@[0]);
    assert(w[0] != "h-full"@[0]);
    assert(w[0] != "w-auto"@[0]);
    assert(w[0] != "h-auto"@[0]);
    assert(w[0] != "bg-background"@[0]);
    assert(w[0] != "bg-header"@[0]);
    assert(w[0] != "bg-settings"@[0]);
    assert(w[0] != "bg-contacts"@[0]);
    assert(w[0] != "bg-camera"@[0]);
    assert(w[0] != "bg-settings-hover"@[0]);
    assert(w[0] != "bg-contacts-hover"@[0]);
    assert(w[0] != "bg-camera-hover"@[0]);
    assert(w[0] != "bg-icon-surface"@[0]);
    assert(w[0] != "bg-text"@[0]);
    assert(w[0] != "bg-muted"@[0]);
    assert(w[0] != "text-main"@[0]);
    assert(w[0] != "text-muted"@[0]);
    assert(w[0] != "shadow-card"@[0]);
    assert(w[0] != "rounded"@[0]);
    assert(w[0] != "rounded-md"@[0]);
    assert(w[0] != "rounded-lg"@[0]);
    assert(w[0] != "rounded-2xl"@[0]);
    assert(w[0] != "rounded-full"@[0]);
    assert(w[0] != "p-"@[0]);
    assert(w[0] != "px-"@[0]);
    assert(w[0] != "py-"@[0]);
    assert(w.skip(2) =~= rest);
}

/// `gap-` followed by any text names the gap
/// utility with that text.
pub proof fn prefix_class_gap(rest: Seq<char>)
    ensures
        utility_of("gap-"@ + rest) == Some(UtilityView::Gap(rest)),
{
    let w = "gap-"@ + rest;
    reveal_strlit("flex");
    reveal_strlit("hidden");
    reveal_strlit("flex-row");
    reveal_strlit("row");
    reveal_strlit("flex-col");
    reveal_strlit("col");
    reveal_strlit("justify-start");
    reveal_strlit("justify-center");
    reveal_strlit("justify-end");
    reveal_strlit("justify-between");
    reveal_strlit("items-start");
    reveal_strlit("items-center");
    reveal_strlit("items-end");
    reveal_strlit("items-stretch");
    reveal_strlit("w-full");
    reveal_strlit("h-full");
    reveal_strlit("w-auto");
    reveal_strlit("h-auto");
    reveal_strlit("bg-background");
    reveal_strlit("bg-header");
    reveal_strlit("bg-settings");
    reveal_strlit("bg-contacts");
    reveal_strlit("bg-camera");
    reveal_strlit("bg-settings-hover");
    reveal_strlit("bg-contacts-hover");
    reveal_strlit("bg-camera-hover");
    reveal_strlit("bg-icon-surface");
    reveal_strlit("bg-text");
    reveal_strlit("bg-muted");
    reveal_strlit("text-main");
    reveal_strlit("text-muted");
    reveal_strlit("shadow-card");
    reveal_strlit("rounded");
    reveal_strlit("rounded-md");
    reveal_strlit("rounded-lg");
    reveal_strlit("rounded-2xl");
    reveal_strlit("rounded-full");
    reveal_strlit("p-");
    reveal_strlit("px-");
    reveal_strlit("py-");
    reveal_strlit("m-");
    reveal_strlit("gap-");
    assert(w.subrange(0, 4) =~= "gap-"@);
    assert forall|j: int| 0 <= j < 4 implies w[j] == "gap-"@[j] by {
        assert(w.subrange(0, 4)[j] == w[j]);
    }
    assert(w[0] != "flex"@[0]);
    assert(w[0] != "hidden"@[0]);
    assert(w[0] != "flex-row"@[0]);
    assert(w[0] != "row"@[0]);
    assert(w[0] != "flex-col"@[0]);
    assert(w[0] != "col"@[0]);
    assert(w[0] != "justify-start"@[0]);
    assert(w[0] != "justify-center"@[0]);
    assert(w[0] != "justify-end"@[0]);
    assert(w[0] != "justify-between"@[0]);
    assert(w[0] != "items-start"@[0]);
    assert(w[0] != "items-center"@[0]);
    assert(w[0] != "items-end"@[0]);
    assert(w[0] != "items-stretch"@[0]);
    assert(w[0] != "w-full"@[0]);
    assert(w[0] != "h-full"@[0]);
    assert(w[0] != "w-auto"@[0]);
    assert(w[0] != "h-auto"@[0]);
    assert(w[0] != "bg-background"@[0]);
    assert(w[0] != "bg-header"@[0]);
    assert(w[0] != "bg-settings"@[0]);
    assert(w[0] != "bg-contacts"@[0]);
    assert(w[0] != "bg-camera"@[0]);
    assert(w[0] != "bg-settings-hover"@[0]);
    assert(w[0] != "bg-contacts-hover"@[0]);
    assert(w[0] != "bg-camera-hover"@[0]);
    assert(w[0] != "bg-icon-surface"@[0]);
    assert(w[0] != "bg-text"@[0]);
    assert(w[0] != "bg-muted"@[0]);
    assert(w[0] != "text-main"@[0]);
    assert(w[0] != "text-muted"@[0]);
    assert(w[0] != "shadow-card"@[0]);
    assert(w[0] != "rounded"@[0]);
    assert(w[0] != "rounded-md"@[0]);
    assert(w[0] != "rounded-lg"@[0]);
    assert(w[0] != "rounded-2xl"@[0]);
    assert(w[0] != "rounded-full"@[0]);
    assert(w[0] != "p-"@[0]);
    assert(w[0] != "px-"@[0]);
    assert(w[0] != "py-"@[0]);
    assert(w[0] != "m-"@[0]);
    assert(w.skip(4) =~= rest);
}

/// `w-[` followed by any text and a closing bracket names the width
/// utility with that text.
pub proof fn prefix_class_width(rest: Seq<char>)
    ensures
        utility_of("w-["@ + rest + "]"@) == Some(UtilityView::Width(rest)),
{
    let w = "w-["@ + rest + "]"@;
    reveal_strlit("flex");
    reveal_strlit("hidden");
    reveal_strlit("flex-row");
    reveal_strlit("row");
    reveal_strlit("flex-col");
    reveal_strlit("col");
    reveal_strlit("justify-start");
    reveal_strlit("justify-center");
    reveal_strlit("justify-end");
    reveal_strlit("justify-between");
    reveal_strlit("items-start");
    reveal_strlit("items-center");
    reveal_strlit("items-end");
    reveal_strlit("items-stretch");
    reveal_strlit("w-full");
    reveal_strlit("h-full");
    reveal_strlit("w-auto");
    reveal_strlit("h-auto");
    reveal_strlit("bg-background");
    reveal_strlit("bg-header");
    reveal_strlit("bg-settings");
    reveal_strlit("bg-contacts");
    reveal_strlit("bg-camera");
    reveal_strlit("bg-settings-hover");
    reveal_strlit("bg-contacts-hover");
    reveal_strlit("bg-camera-hover");
    reveal_strlit("bg-icon-surface");
    reveal_strlit("bg-text");
    reveal_strlit("bg-muted");
    reveal_strlit("text-main");
    reveal_strlit("text-muted");
    reveal_strlit("shadow-card");
    reveal_strlit("rounded");
    reveal_strlit("rounded-md");
    reveal_strlit("rounded-lg");
    reveal_strlit("rounded-2xl");
    reveal_strlit("rounded-full");
    reveal_strlit("p-");
    reveal_strlit("px-");
    reveal_strlit("py-");
    reveal_strlit("m-");
    reveal_strlit("gap-");
    reveal_strlit("w-[");
    reveal_strlit("]");
    assert(w.subrange(0, 3) =~= "w-["@);
    assert forall|j: int| 0 <= j < 3 implies w[j] == "w-["@[j] by {
        assert(w.subrange(0, 3)[j] == w[j]);
    }
    assert(w[0] != "flex"@[0]);
    assert(w[0] != "hidden"@[0]);
    assert(w[0] != "flex-row"@[0]);
    assert(w[0] != "row"@[0]);
    assert(w[0] != "flex-col"@[0]);
    assert(w[0] != "col"@[0]);
    assert(w[0] != "justify-start"@[0]);
    assert(w[0] != "justify-center"@[0]);
    assert(w[0] != "justify-end"@[0]);
    assert(w[0] != "justify-between"@[0]);
    assert(w[0] != "items-start"@[0]);
    assert(w[0] != "items-center"@[0]);
    assert(w[0] != "items-end"@[0]);
    assert(w[0] != "items-stretch"@[0]);
    assert(w[2] != "w-full"@[2]);
    assert(w[0] != "h-full"@[0]);
    assert(w[2] != "w-auto"@[2]);
    assert(w[0] != "h-auto"@[0]);
    assert(w[0] != "bg-background"@[0]);
    assert(w[0] != "bg-header"@[0]);
    assert(w[0] != "bg-settings"@[0]);
    assert(w[0] != "bg-contacts"@[0]);
    assert(w[0] != "bg-camera"@[0]);
    assert(w[0] != "bg-settings-hover"@[0]);
    assert(w[0] != "bg-contacts-hover"@[0]);
    assert(w[0] != "bg-camera-hover"@[0]);
    assert(w[0] != "bg-icon-surface"@[0]);
    assert(w[0] != "bg-text"@[0]);
    assert(w[0] != "bg-muted"@[0]);
    assert(w[0] != "text-main"@[0]);
    assert(w[0] != "text-muted"@[0]);
    assert(w[0] != "shadow-card"@[0]);
    assert(w[0] != "rounded"@[0]);
    assert(w[0] != "rounded-md"@[0]);
    assert(w[0] != "rounded-lg"@[0]);
    assert(w[0] != "rounded-2xl"@[0]);
    assert(w[0] != "rounded-full"@[0]);
    assert(w[0] != "p-"@[0]);
    assert(w[0] != "px-"@[0]);
    assert(w[0] != "py-"@[0]);
    assert(w[0] != "m-"@[0]);
    assert(w[0] != "gap-"@[0]);
    assert(w.skip(3) =~= rest + "]"@);
    assert((rest + "]"@).drop_last() =~= rest);
}

/// `h-[` followed by any text and a closing bracket names the height
/// utility with that text.
pub proof fn prefix_class_height(rest: Seq<char>)
    ensures
        utility_of("h-["@ + rest + "]"@) == Some(UtilityView::Height(rest)),
{
    let w = "h-["@ + rest + "]"@;
    reveal_strlit("flex");
    reveal_strlit("hidden");
    reveal_strlit("flex-row");
    reveal_strlit("row");
    reveal_strlit("flex-col");
    reveal_strlit("col");
    reveal_strlit("justify-start");
    reveal_strlit("justify-center");
    reveal_strlit("justify-end");
    reveal_strlit("justify-between");
    reveal_strlit("items-start");
    reveal_strlit("items-center");
    reveal_strlit("items-end");
    reveal_strlit("items-stretch");
    reveal_strlit("w-full");
    reveal_strlit("h-full");
    reveal_strlit("w-auto");
    reveal_strlit("h-auto");
    reveal_strlit("bg-background");
    reveal_strlit("bg-header");
    reveal_strlit("bg-settings");
    reveal_strlit("bg-contacts");
    reveal_strlit("bg-camera");
    reveal_strlit("bg-settings-hover");
    reveal_strlit("bg-contacts-hover");
    reveal_strlit("bg-camera-hover");
    reveal_strlit("bg-icon-surface");
    reveal_strlit("bg-text");
    reveal_strlit("bg-muted");
    reveal_strlit("text-main");
    reveal_strlit("text-muted");
    reveal_strlit("shadow-card");
    reveal_strlit("rounded");
    reveal_strlit("rounded-md");
    reveal_strlit("rounded-lg");
    reveal_strlit("rounded-2xl");
    reveal_strlit("rounded-full");
    reveal_strlit("p-");
    reveal_strlit("px-");
    reveal_strlit("py-");
    reveal_strlit("m-");
    reveal_strlit("gap-");
    reveal_strlit("w-[");
    reveal_strlit("h-[");
    reveal_strlit("]");
    assert(w.subrange(0, 3) =~= "h-["@);
    assert forall|j: int| 0 <= j < 3 implies w[j] == "h-["@[j] by {
        assert(w.subrange(0, 3)[j] == w[j]);
    }
    assert(w[0] != "flex"@[0]);
    assert(w[1] != "hidden"@[1]);
    assert(w[0] != "flex-row"@[0]);
    assert(w[0] != "row"@[0]);
    assert(w[0] != "flex-col"@[0]);
    assert(w[0] != "col"@[0]);
    assert(w[0] != "justify-start"@[0]);
    assert(w[0] != "justify-center"@[0]);
    assert(w[0] != "justify-end"@[0]);
    assert(w[0] != "justify-between"@[0]);
    assert(w[0] != "items-start"@[0]);
    assert(w[0] != "items-center"@[0]);
    assert(w[0] != "items-end"@[0]);
    assert(w[0] != "items-stretch"@[0]);
    assert(w[0] != "w-full"@[0]);
    assert(w[2] != "h-full"@[2]);
    assert(w[0] != "w-auto"@[0]);
    assert(w[2] != "h-auto"@[2]);
    assert(w[0] != "bg-background"@[0]);
    assert(w[0] != "bg-header"@[0]);
    assert(w[0] != "bg-settings"@[0]);
    assert(w[0] != "bg-contacts"@[0]);
    assert(w[0] != "bg-camera"@[0]);
    assert(w[0] != "bg-settings-hover"@[0]);
    assert(w[0] != "bg-contacts-hover"@[0]);
    assert(w[0] != "bg-camera-hover"@[0]);
    assert(w[0] != "bg-icon-surface"@[0]);
    assert(w[0] != "bg-text"@[0]);
    assert(w[0] != "bg-muted"@[0]);
    assert(w[0] != "text-main"@[0]);
    assert(w[0] != "text-muted"@[0]);
    assert(w[0] != "shadow-card"@[0]);
    assert(w[0] != "rounded"@[0]);
    assert(w[0] != "rounded-md"@[0]);
    assert(w[0] != "rounded-lg"@[0]);
    assert(w[0] != "rounded-2xl"@[0]);
    assert(w[0] != "rounded-full"@[0]);
    assert(w[0] != "p-"@[0]);
    assert(w[0] != "px-"@[0]);
    assert(w[0] != "py-"@[0]);
    assert(w[0] != "m-"@[0]);
    assert(w[0] != "gap-"@[0]);
    assert(w[0] != "w-["@[0]);
    assert(w.skip(3) =~= rest + "]"@);
    assert((rest + "]"@).drop_last() =~= rest);
}

/// `text-[` followed by any text and a closing bracket names the text size
/// utility with that text.
pub proof fn prefix_class_textsize(rest: Seq<char>)
    ensures
        utility_of("text-["@ + rest + "]"@) == Some(UtilityView::TextSize(rest)),
{
    let w = "text-["@ + rest + "]"@;
    reveal_strlit("flex");
    reveal_strlit("hidden");
    reveal_strlit("flex-row");
    reveal_strlit("row");
    reveal_strlit("flex-col");
    reveal_strlit("col");
    reveal_strlit("justify-start");
    reveal_strlit("justify-center");
    reveal_strlit("justify-end");
    reveal_strlit("justify-between");
    reveal_strlit("items-start");
    reveal_strlit("items-center");
    reveal_strlit("items-end");
    reveal_strlit("items-stretch");
    reveal_strlit("w-full");
    reveal_strlit("h-full");
    reveal_strlit("w-auto");
    reveal_strlit("h-auto");
    reveal_strlit("bg-background");
    reveal_strlit("bg-header");
    reveal_strlit("bg-settings");
    reveal_strlit("bg-contacts");
    reveal_strlit("bg-camera");
    reveal_strlit("bg-settings-hover");
    reveal_strlit("bg-contacts-hover");
    reveal_strlit("bg-camera-hover");
    reveal_strlit("bg-icon-surface");
    reveal_strlit("bg-text");
    reveal_strlit("bg-muted");
    reveal_strlit("text-main");
    reveal_strlit("text-muted");
    reveal_strlit("shadow-card");
    reveal_strlit("rounded");
    reveal_strlit("rounded-md");
    reveal_strlit("rounded-lg");
    reveal_strlit("rounded-2xl");
    reveal_strlit("rounded-full");
    reveal_strlit("p-");
    reveal_strlit("px-");
    reveal_strlit("py-");
    reveal_strlit("m-");
    reveal_strlit("gap-");
    reveal_strlit("w-[");
    reveal_strlit("h-[");
    reveal_strlit("text-[");
    reveal_strlit("]");
    assert(w.subrange(0, 6) =~= "text-["@);
    assert forall|j: int| 0 <= j < 6 implies w[j] == "text-["@[j] by {
        assert(w.subrange(0, 6)[j] == w[j]);
    }
    assert(w[0] != "flex"@[0]);
    assert(w[0] != "hidden"@[0]);
    assert(w[0] != "flex-row"@[0]);
    assert(w[0] != "row"@[0]);
    assert(w[0] != "flex-col"@[0]);
    assert(w[0] != "col"@[0]);
    assert(w[0] != "justify-start"@[0]);
    assert(w[0] != "justify-center"@[0]);
    assert(w[0] != "justify-end"@[0]);
    assert(w[0] != "justify-between"@[0]);
    assert(w[0] != "items-start"@[0]);
    assert(w[0] != "items-center"@[0]);
    assert(w[0] != "items-end"@[0]);
    assert(w[0] != "items-stretch"@[0]);
    assert(w[0] != "w-full"@[0]);
    assert(w[0] != "h-full"@[0]);
    assert(w[0] != "w-auto"@[0]);
    assert(w[0] != "h-auto"@[0]);
    assert(w[0] != "bg-background"@[0]);
    assert(w[0] != "bg-header"@[0]);
    assert(w[0] != "bg-settings"@[0]);
    assert(w[0] != "bg-contacts"@[0]);
    assert(w[0] != "bg-camera"@[0]);
    assert(w[0] != "bg-settings-hover"@[0]);
    assert(w[0] != "bg-contacts-hover"@[0]);
    assert(w[0] != "bg-camera-hover"@[0]);
    assert(w[0] != "bg-icon-surface"@[0]);
    assert(w[0] != "bg-text"@[0]);
    assert(w[0] != "bg-muted"@[0]);
    assert(w[5] != "text-main"@[5]);
    assert(w[5] != "text-muted"@[5]);
    assert(w[0] != "shadow-card"@[0]);
    assert(w[0] != "rounded"@[0]);
    assert(w[0] != "rounded-md"@[0]);
    assert(w[0] != "rounded-lg"@[0]);
    assert(w[0] != "rounded-2xl"@[0]);
    assert(w[0] != "rounded-full"@[0]);
    assert(w[0] != "p-"@[0]);
    assert(w[0] != "px-"@[0]);
    assert(w[0] != "py-"@[0]);
    assert(w[0] != "m-"@[0]);
    assert(w[0] != "gap-"@[0]);
    assert(w[0] != "w-["@[0]);
    assert(w[0] != "h-["@[0]);
    assert(w.skip(6) =~= rest + "]"@);
    assert((rest + "]"@).drop_last() =~= rest);
}

/// The utilities of a sequence of classes, skipping classes that name none.
pub open spec fn utilities_of(ws: Seq<Seq<char>>) -> Seq<UtilityView>
    decreases ws.len(),
{
    if ws.len() == 0 {
        Seq::empty()
    } else {
        let rest = utilities_of(ws.drop_last());
        match utility_of(ws.last()) {
            Some(u) => rest.push(u),
            None => rest,
        }
    }
}

/// The word at the start of `t` is made of non-whitespace characters and ends
/// at a whitespace character or at the end of `t`.
proof fn lemma_word_len_run_ends(t: Seq<char>)
    ensures
        word_len(t) <= t.len(),
        forall|k: int| 0 <= k < word_len(t) ==> !white_space(#[trigger] t[k]),
        word_len(t) < t.len() ==> white_space(t[word_len(t) as int]),
    decreases t.len(),
{
    if t.len() > 0 && !white_space(t[0]) {
        let r = t.drop_first();
        lemma_word_len_run_ends(r);
        assert forall|k: int| 0 <= k < word_len(t) implies !white_space(#[trigger] t[k]) by {
            if k > 0 {
                assert(t[k] == r[k - 1]);
            }
        }
        if word_len(t) < t.len() {
            assert(t[word_len(t) as int] == r[word_len(r) as int]);
        }
    }
}

/// A whitespace character splits the words of a string: the words of
/// `a + c + b` are those of `a` followed by those of `b`.
pub proof fn lemma_words_split_at_white_space(a: Seq<char>, c: char, b: Seq<char>)
    requires
        white_space(c),
    ensures
        words(a + seq![c] + b) == words(a) + words(b),
    decreases a.len(),
{
    let s = a + seq![c] + b;
    if a.len() == 0 {
        assert(s.drop_first() =~= b);
        assert(words(a) =~= Seq::<Seq<char>>::empty());
        assert(words(b) =~= words(a) + words(b));
    } else if white_space(a[0]) {
        assert(s.drop_first() =~= a.drop_first() + seq![c] + b);
        lemma_words_split_at_white_space(a.drop_first(), c, b);
    } else {
        let m = word_len(a) as int;
        lemma_word_len_run_ends(a);
        lemma_word_len_bounds(a);
        assert forall|k: int| 0 <= k < m implies !white_space(#[trigger] s[k]) by {
            assert(s[k] == a[k]);
        }
        if m < a.len() {
            assert(s[m] == a[m]);
        } else {
            assert(s[m] == c);
        }
        lemma_word_len_run(s, m);
        assert(s.take(m) =~= a.take(m));
        assert(s.skip(m) =~= a.skip(m) + seq![c] + b);
        lemma_words_split_at_white_space(a.skip(m), c, b);
        assert(words(s) =~= seq![a.take(m)] + (words(a.skip(m)) + words(b)));
        assert(words(a) =~= seq![a.take(m)] + words(a.skip(m)));
    }
}

/// Whether `w` is a class as the class string spells it: at least one
/// character long, and with no whitespace in it.
pub open spec fn is_word(w: Seq<char>) -> bool {
    w.len() > 0 && forall|k: int| 0 <= k < w.len() ==> !white_space(#[trigger] w[k])
}

/// A string that is one class has that class as its only word.
pub proof fn lemma_words_of_word(w: Seq<char>)
    requires
        is_word(w),
    ensures
        words(w) == seq![w],
{
    lemma_word_len_run(w, w.len() as int);
    assert(w.take(w.len() as int) =~= w);
    assert(w.skip(w.len() as int) =~= Seq::<char>::empty());
    assert(words(w.skip(w.len() as int)) =~= Seq::<Seq<char>>::empty());
}

/// Every word of a string is a class as a class string spells it.
pub proof fn lemma_words_are_words(s: Seq<char>)
    ensures
        forall|i: int| 0 <= i < words(s).len() ==> is_word(#[trigger] words(s)[i]),
    decreases s.len(),
{
    if s.len() == 0 {
    } else if white_space(s[0]) {
        lemma_words_are_words(s.drop_first());
        assert(words(s) == words(s.drop_first()));
    } else {
        let m = word_len(s) as int;
        lemma_word_len_bounds(s);
        lemma_word_len_run_ends(s);
        lemma_words_are_words(s.skip(m));
        let ws = words(s);
        assert(ws =~= seq![s.take(m)] + words(s.skip(m)));
        assert forall|i: int| 0 <= i < ws.len() implies is_word(#[trigger] ws[i]) by {
            if i == 0 {
                assert forall|k: int| 0 <= k < ws[0].len() implies !white_space(
                    #[trigger] ws[0][k],
                ) by {
                    assert(ws[0][k] == s[k]);
                }
            } else {
                assert(ws[i] == words(s.skip(m))[i - 1]);
            }
        }
    }
}

/// Classes written out one after another with a single space between them.
pub open spec fn join_words(ws: Seq<Seq<char>>) -> Seq<char>
    decreases ws.len(),
{
    if ws.len() == 0 {
        Seq::empty()
    } else if ws.len() == 1 {
        ws[0]
    } else {
        join_words(ws.drop_last()) + seq![' '] + ws.last()
    }
}

/// Joining classes with single spaces and splitting the result at whitespace
/// gives the classes back.
pub proof fn lemma_words_of_join(ws: Seq<Seq<char>>)
    requires
        forall|i: int| 0 <= i < ws.len() ==> is_word(#[trigger] ws[i]),
    ensures
        words(join_words(ws)) == ws,
    decreases ws.len(),
{
    if ws.len() == 0 {
    } else if ws.len() == 1 {
        assert(is_word(ws[0]));
        lemma_words_of_word(ws[0]);
        assert(seq![ws[0]] =~= ws);
    } else {
        let init = ws.drop_last();
        assert forall|i: int| 0 <= i < init.len() implies is_word(#[trigger] init[i]) by {
            assert(init[i] == ws[i]);
        }
        lemma_words_of_join(init);
        assert(is_word(ws[ws.len() - 1]));
        lemma_words_of_word(ws.last());
        assert(white_space(' '));
        lemma_words_split_at_white_space(join_words(init), ' ', ws.last());
        assert(init + seq![ws.last()] =~= ws);
    }
}

/// Classes that name no utility and runs of whitespace change nothing: a class
/// string with an unknown class appended names the same utilities as the
/// string alone, the unknown class alone names none, and collapsing the
/// string's whitespace to single spaces between its classes keeps its classes,
/// and so its utilities.
pub proof fn unknown_classes_and_spacing_are_ignored(s: Seq<char>, tok: Seq<char>)
    requires
        is_word(tok),
        utility_of(tok) is None,
    ensures
        words(s + seq![' '] + tok) == words(s).push(tok),
        utilities_of(words(s + seq![' '] + tok)) == utilities_of(words(s)),
        utilities_of(words(tok)) == Seq::<UtilityView>::empty(),
        words(join_words(words(s))) == words(s),
        utilities_of(words(join_words(words(s)))) == utilities_of(words(s)),
{
    assert(white_space(' '));
    lemma_words_of_word(tok);
    lemma_words_split_at_white_space(s, ' ', tok);
    assert(words(s) + seq![tok] =~= words(s).push(tok));
    assert(words(s).push(tok).drop_last() =~= words(s));
    assert(seq![tok].drop_last() =~= Seq::<Seq<char>>::empty());
    assert(seq![tok].last() == tok);
    assert(utilities_of(Seq::<Seq<char>>::empty()) =~= Seq::<UtilityView>::empty());
    lemma_words_are_words(s);
    lemma_words_of_join(words(s));
}

/// Whether `w` is the class `name`.
fn is_class(w: &[char], name: &str) -> (r: bool)
    ensures
        r == (w@ == name@),
{
    let n = chars_of(name);
    chars_eq(w, n.as_slice())
}

/// Whether `w` starts with `prefix`.
fn has_prefix(w: &[char], prefix: &str) -> (r: bool)
    ensures
        r == prefix@.is_prefix_of(w@),
{
    let p = chars_of(prefix);
    starts_with(w, p.as_slice())
}

/// The characters of `w` from `start` to `end`, as a string.
fn text_between(w: &[char], start: usize, end: usize) -> (s: String)
    requires
        start <= end <= w@.len(),
    ensures
        s@ == w@.subrange(start as int, end as int),
{
    let mut s = String::new();
    let mut i: usize = start;
    proof {
        assert(s@ =~= w@.subrange(start as int, start as int));
    }
    while i < end
        invariant
            start <= i <= end <= w@.len(),
            s@ == w@.subrange(start as int, i as int),
        decreases end - i,
    {
        push_char(&mut s, w[i]);
        i += 1;
        proof {
            assert(s@ =~= w@.subrange(start as int, i as int));
        }
    }
    s
}

/// The text after `prefix` (which `w` starts with).
fn text_after(w: &[char], prefix: &str) -> (s: String)
    requires
        prefix@.is_prefix_of(w@),
    ensures
        s@ == w@.skip(prefix@.len() as int),
{
    let n = prefix.unicode_len();
    let s = text_between(w, n, w.len());
    proof {
        assert(w@.skip(prefix@.len() as int) =~= w@.subrange(n as int, w@.len() as int));
    }
    s
}

/// The text after `prefix` (which `w` starts with) and before a closing `]`.
fn text_bracketed(w: &[char], prefix: &str) -> (r: Option<String>)
    requires
        prefix@.is_prefix_of(w@),
    ensures
        match r {
            Some(s) => bracketed(w@, prefix@) == Some(s@),
            None => bracketed(w@, prefix@) is None,
        },
{
    let n = prefix.unicode_len();
    let len = w.len();
    if n < len && w[len - 1] == ']' {
        let s = text_between(w, n, len - 1);
        proof {
            let rest = w@.skip(prefix@.len() as int);
            assert(rest.last() == w@[len - 1]);
            assert(rest.drop_last() =~= w@.subrange(n as int, len - 1));
        }
        Some(s)
    } else {
        proof {
            let rest = w@.skip(prefix@.len() as int);
            if rest.len() > 0 {
                assert(rest.last() == w@[len - 1]);
            }
        }
        None
    }
}

/// The utility that the class `w` names, if any.
pub fn classify(w: &[char]) -> (r: Option<Utility>)
    ensures
        match r {
            Some(u) => utility_of(w@) == Some(u@),
            None => utility_of(w@) is None,
        },
{
    if is_class(w, "flex") {
        Some(Utility::Display(Display::Flex))
    } else if is_class(w, "hidden") {
        Some(Utility::Display(Display::Hidden))
    } else if is_class(w, "flex-row") || is_class(w, "row") {
        Some(Utility::Direction(FlexDirection::Row))
    } else if is_class(w, "flex-col") || is_class(w, "col") {
        Some(Utility::Direction(FlexDirection::Column))
    } else if is_class(w, "justify-start") {
        Some(Utility::Justify(JustifyContent::Start))
    } else if is_class(w, "justify-center") {
        Some(Utility::Justify(JustifyContent::Center))
    } else if is_class(w, "justify-end") {
        Some(Utility::Justify(JustifyContent::End))
    } else if is_class(w, "justify-between") {
        Some(Utility::Justify(JustifyContent::SpaceBetween))
    } else if is_class(w, "items-start") {
        Some(Utility::Align(AlignItems::Start))
    } else if is_class(w, "items-center") {
        Some(Utility::Align(AlignItems::Center))
    } else if is_class(w, "items-end") {
        Some(Utility::Align(AlignItems::End))
    } else if is_class(w, "items-stretch") {
        Some(Utility::Align(AlignItems::Stretch))
    } else if is_class(w, "w-full") {
        Some(Utility::FullWidth)
    } else if is_class(w, "h-full") {
        Some(Utility::FullHeight)
    } else if is_class(w, "w-auto") {
        Some(Utility::AutoWidth)
    } else if is_class(w, "h-auto") {
        Some(Utility::AutoHeight)
    } else if is_class(w, "bg-background") {
        Some(Utility::Background(BACKGROUND))
    } else if is_class(w, "bg-header") {
        Some(Utility::Background(HEADER_SURFACE))
    } else if is_class(w, "bg-settings") {
        Some(Utility::Background(CARD_SETTINGS))
    } else if is_class(w, "bg-contacts") {
        Some(Utility::Background(CARD_CONTACTS))
    } else if is_class(w, "bg-camera") {
        Some(Utility::Background(CARD_CAMERA))
    } else if is_class(w, "bg-settings-hover") {
        Some(Utility::Background(CARD_SETTINGS_HOVER))
    } else if is_class(w, "bg-contacts-hover") {
        Some(Utility::Background(CARD_CONTACTS_HOVER))
    } else if is_class(w, "bg-camera-hover") {
        Some(Utility::Background(CARD_CAMERA_HOVER))
    } else if is_class(w, "bg-icon-surface") {
        Some(Utility::Background(ICON_SURFACE))
    } else if is_class(w, "bg-text") {
        Some(Utility::Background(BUTTON_TEXT))
    } else if is_class(w, "bg-muted") {
        Some(Utility::Background(BUTTON_MUTED))
    } else if is_class(w, "text-main") {
        Some(Utility::TextColor(BUTTON_TEXT))
    } else if is_class(w, "text-muted") {
        Some(Utility::TextColor(BUTTON_MUTED))
    } else if is_class(w, "shadow-card") {
        Some(Utility::CardShadow)
    } else if is_class(w, "rounded") {
        Some(Utility::Radius(4))
    } else if is_class(w, "rounded-md") {
        Some(Utility::Radius(8))
    } else if is_class(w, "rounded-lg") {
        Some(Utility::Radius(CARD_RADIUS))
    } else if is_class(w, "rounded-2xl") {
        Some(Utility::Radius(24))
    } else if is_class(w, "rounded-full") {
        Some(Utility::Radius(9999))
    } else if has_prefix(w, "p-") {
        Some(Utility::Padding(text_after(w, "p-")))
    } else if has_prefix(w, "px-") {
        Some(Utility::PaddingX(text_after(w, "px-")))
    } else if has_prefix(w, "py-") {
        Some(Utility::PaddingY(text_after(w, "py-")))
    } else if has_prefix(w, "m-") {
        Some(Utility::Margin(text_after(w, "m-")))
    } else if has_prefix(w, "gap-") {
        Some(Utility::Gap(text_after(w, "gap-")))
    } else if has_prefix(w, "w-[") {
        match text_bracketed(w, "w-[") {
            Some(t) => Some(Utility::Width(t)),
            None => None,
        }
    } else if has_prefix(w, "h-[") {
        match text_bracketed(w, "h-[") {
            Some(t) => Some(Utility::Height(t)),
            None => None,
        }
    } else if has_prefix(w, "text-[") {
        match text_bracketed(w, "text-[") {
            Some(t) => Some(Utility::TextSize(t)),
            None => None,
        }
    } else {
        None
    }
}

/// The utilities that a class string names, in the order of its classes;
/// classes that name none are skipped.
pub fn tailwind_utilities(classes: &str) -> (r: Vec<Utility>)
    ensures
        r@.len() == utilities_of(words(classes@)).len(),
        forall|k: int| 0 <= k < r@.len() ==> (#[trigger] r@[k])@ == utilities_of(words(classes@))[k],
{
    let chars = chars_of(classes);
    let ws = split_words(chars.as_slice());
    let ghost all = words(classes@);
    let mut out: Vec<Utility> = Vec::new();
    let mut k: usize = 0;
    proof {
        assert(all.take(0) =~= Seq::<Seq<char>>::empty());
    }
    while k < ws.len()
        invariant
            chars@ == classes@,
            all == words(classes@),
            ws@.len() == all.len(),
            forall|j: int| 0 <= j < ws@.len() ==> (#[trigger] ws@[j])@ == all[j],
            k <= ws.len(),
            out@.len() == utilities_of(all.take(k as int)).len(),
            forall|j: int|
                0 <= j < out@.len() ==> (#[trigger] out@[j])@ == utilities_of(all.take(k as int))[j],
        decreases ws.len() - k,
    {
        let ghost before = out@;
        let u = classify(ws[k].as_slice());
        proof {
            assert(all.take(k as int + 1).drop_last() =~= all.take(k as int));
            assert(all.take(k as int + 1).last() == ws@[k as int]@);
        }
        match u {
            Some(u) => {
                out.push(u);
            },
            None => {},
        }
        k += 1;
    }
    proof {
        assert(all.take(k as int) =~= all);
    }
    out
}

} // verus!
