use snifferlauncher::style::{
    AlignItems, Display, FlexDirection, JustifyContent, ObjectFit, BACKGROUND, BUTTON_MUTED,
    CARD_CAMERA, CARD_RADIUS, HEADER_SURFACE,
};
use snifferlauncher::tailwind::{classify, split_words, tailwind_utilities, Utility};

fn describe(u: &Utility) -> String {
    match u {
        Utility::Display(Display::Flex) => "display:flex".to_string(),
        Utility::Display(Display::Hidden) => "display:none".to_string(),
        Utility::Direction(FlexDirection::Row) => "dir:row".to_string(),
        Utility::Direction(FlexDirection::Column) => "dir:col".to_string(),
        Utility::Justify(j) => format!("justify:{j:?}"),
        Utility::Align(a) => format!("align:{a:?}"),
        Utility::FullWidth => "w:full".to_string(),
        Utility::FullHeight => "h:full".to_string(),
        Utility::AutoWidth => "w:auto".to_string(),
        Utility::AutoHeight => "h:auto".to_string(),
        Utility::Background(c) => format!("bg:{c:06x}"),
        Utility::TextColor(c) => format!("fg:{c:06x}"),
        Utility::CardShadow => "shadow".to_string(),
        Utility::Radius(r) => format!("radius:{r}"),
        Utility::Padding(t) => format!("p:{t}"),
        Utility::PaddingX(t) => format!("px:{t}"),
        Utility::PaddingY(t) => format!("py:{t}"),
        Utility::Margin(t) => format!("m:{t}"),
        Utility::Gap(t) => format!("gap:{t}"),
        Utility::Width(t) => format!("w:{t}"),
        Utility::Height(t) => format!("h:{t}"),
        Utility::TextSize(t) => format!("text:{t}"),
    }
}

fn all(classes: &str) -> Vec<String> {
    tailwind_utilities(classes).iter().map(describe).collect()
}

#[test]
fn split_words_on_any_whitespace() {
    let s: Vec<char> = "  flex\trow \n p-4  ".chars().collect();
    let words: Vec<String> = split_words(&s).into_iter().map(|w| w.into_iter().collect()).collect();
    assert_eq!(words, vec!["flex", "row", "p-4"]);
    let empty: Vec<char> = "   ".chars().collect();
    assert!(split_words(&empty).is_empty());
    assert!(split_words(&[]).is_empty());
}

#[test]
fn layout_classes() {
    assert_eq!(
        all("flex hidden flex-row col justify-between items-center w-full h-auto"),
        vec![
            "display:flex",
            "display:none",
            "dir:row",
            "dir:col",
            "justify:SpaceBetween",
            "align:Center",
            "w:full",
            "h:auto",
        ]
    );
}

#[test]
fn colour_and_shape_classes() {
    assert_eq!(
        all("bg-background bg-header bg-camera text-muted shadow-card rounded rounded-lg rounded-full"),
        vec![
            format!("bg:{BACKGROUND:06x}"),
            format!("bg:{HEADER_SURFACE:06x}"),
            format!("bg:{CARD_CAMERA:06x}"),
            format!("fg:{BUTTON_MUTED:06x}"),
            "shadow".to_string(),
            "radius:4".to_string(),
            format!("radius:{CARD_RADIUS}"),
            "radius:9999".to_string(),
        ]
    );
    assert_eq!(CARD_RADIUS, 18);
}

#[test]
fn sized_classes_keep_their_text() {
    assert_eq!(
        all("p-4 px-2.5 py-1 m-0 gap-3 w-[200] h-[48.5] text-[14]"),
        vec!["p:4", "px:2.5", "py:1", "m:0", "gap:3", "w:200", "h:48.5", "text:14"]
    );
}

#[test]
fn malformed_and_unknown_classes_are_skipped() {
    assert_eq!(all("w-[200 text-[ fancy shadow"), Vec::<String>::new());
    // The prefix is kept apart from the value even when the value does not parse.
    assert_eq!(all("p-x"), vec!["p:x"]);
    assert_eq!(all(""), Vec::<String>::new());
}

#[test]
fn classify_single_class() {
    let w: Vec<char> = "items-stretch".chars().collect();
    assert!(matches!(classify(&w), Some(Utility::Align(AlignItems::Stretch))));
    let w: Vec<char> = "justify-end".chars().collect();
    assert!(matches!(classify(&w), Some(Utility::Justify(JustifyContent::End))));
    let w: Vec<char> = "bogus".chars().collect();
    assert!(classify(&w).is_none());
}

#[test]
fn enum_defaults() {
    assert_eq!(Display::default(), Display::Flex);
    assert_eq!(FlexDirection::default(), FlexDirection::Column);
    assert_eq!(JustifyContent::default(), JustifyContent::Start);
    assert_eq!(AlignItems::default(), AlignItems::Stretch);
    assert_eq!(ObjectFit::default(), ObjectFit::Fill);
}

#[test]
fn unknown_classes_and_extra_spacing_leave_utilities_alone() {
    let base = "flex items-center p-4 bg-camera";
    let expected = all(base);
    assert_eq!(expected, vec!["display:flex", "align:Center", "p:4", format!("bg:{CARD_CAMERA:06x}").as_str()]);
    for tok in ["foo", "h-[10", "w-[abc", "shadow", "flexbox"] {
        assert_eq!(all(&format!("{base} {tok}")), expected, "appending {tok}");
        assert!(all(tok).is_empty(), "{tok} alone");
    }
    assert_eq!(all("\t flex   items-center\n\np-4 \u{3000} bg-camera  "), expected);
    let collapsed: Vec<&str> = "\t flex   items-center\n\np-4 \u{3000} bg-camera  ".split_whitespace().collect();
    assert_eq!(collapsed.join(" "), base);
}
