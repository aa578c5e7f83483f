use snifferlauncher::element::{count_elements, Element};

type El = Element<u8, f32>;

fn label(id: &str, text: &str) -> El {
    Element::Label { id: Some(id.to_string()), text: text.to_string(), style: 0 }
}

fn container(id: Option<&str>, children: Vec<El>) -> El {
    Element::Container { id: id.map(|s| s.to_string()), style: 0, children }
}

fn scroll(id: &str, children: Vec<El>) -> El {
    Element::ScrollView {
        id: Some(id.to_string()),
        style: 0,
        children,
        scroll_x: 0.0,
        scroll_y: 0.0,
        scroll_sensitivity: None,
        dynamic_sensitivity: None,
        momentum_scrolling: None,
        capture_drag: None,
    }
}

fn sample() -> El {
    container(
        Some("root"),
        vec![
            container(Some("header"), vec![label("title", "Hello")]),
            scroll(
                "list",
                vec![
                    label("row", "first"),
                    Element::Checkbox { id: Some("check".to_string()), checked: false, style: 0 },
                    Element::Slider { id: Some("vol".to_string()), value: 0.2, min: 0.0, max: 1.0, style: 0 },
                    Element::TextInput {
                        id: Some("search".to_string()),
                        value: String::new(),
                        focused: true,
                        style: 0,
                    },
                ],
            ),
            label("row", "second"),
            Element::Image { id: Some("logo".to_string()), src: "logo.png".to_string(), style: 0 },
        ],
    )
}

fn text_of(e: &El, id: &str) -> Option<String> {
    match e {
        Element::Label { id: Some(i), text, .. } if i == id => Some(text.clone()),
        Element::TextInput { id: Some(i), value, .. } if i == id => Some(value.clone()),
        Element::Container { children, .. } | Element::ScrollView { children, .. } => {
            children.iter().find_map(|c| text_of(c, id))
        }
        _ => None,
    }
}

fn all_texts(e: &El, out: &mut Vec<String>) {
    match e {
        Element::Label { text, .. } => out.push(text.clone()),
        Element::Container { children, .. } | Element::ScrollView { children, .. } => {
            for c in children {
                all_texts(c, out);
            }
        }
        _ => {}
    }
}

#[test]
fn count_elements_counts_every_node() {
    assert_eq!(count_elements(&sample()), 10);
    assert_eq!(count_elements(&label("a", "b")), 1);
    assert_eq!(count_elements(&container(None, vec![])), 1);
}

#[test]
fn element_id() {
    assert_eq!(sample().id(), Some("root"));
    assert_eq!(container(None, vec![]).id(), None);
}

#[test]
fn mutate_text_changes_first_match_in_preorder() {
    let mut e = sample();
    assert!(e.mutate_text("row", "changed"));
    let mut texts = Vec::new();
    all_texts(&e, &mut texts);
    assert_eq!(texts, vec!["Hello", "changed", "second"]);
    assert_eq!(count_elements(&e), 10);
}

#[test]
fn mutate_text_sets_text_input_value() {
    let mut e = sample();
    assert!(e.mutate_text("search", "query"));
    assert_eq!(text_of(&e, "search"), Some("query".to_string()));
}

#[test]
fn mutate_text_ignores_non_text_nodes_and_missing_ids() {
    let mut e = sample();
    assert!(!e.mutate_text("logo", "x"));
    assert!(!e.mutate_text("header", "x"));
    assert!(!e.mutate_text("missing", "x"));
    let mut texts = Vec::new();
    all_texts(&e, &mut texts);
    assert_eq!(texts, vec!["Hello", "first", "second"]);
}

#[test]
fn mutate_state_scroll_checkbox_slider() {
    let mut e = sample();
    assert!(e.mutate_state("list", "scroll_y", 42.0, true));
    assert!(e.mutate_state("list", "scroll_x", 7.0, true));
    assert!(e.mutate_state("check", "checked", 1.0, true));
    assert!(e.mutate_state("vol", "value", 0.9, true));
    match &e {
        Element::Container { children, .. } => match &children[1] {
            Element::ScrollView { scroll_x, scroll_y, children, .. } => {
                assert_eq!(*scroll_x, 7.0);
                assert_eq!(*scroll_y, 42.0);
                assert!(matches!(children[1], Element::Checkbox { checked: true, .. }));
                match &children[2] {
                    Element::Slider { value, min, max, .. } => {
                        assert_eq!(*value, 0.9);
                        assert_eq!(*min, 0.0);
                        assert_eq!(*max, 1.0);
                    }
                    _ => panic!("slider expected"),
                }
            }
            _ => panic!("scroll view expected"),
        },
        _ => panic!("container expected"),
    }
}

#[test]
fn mutate_state_unchecks_on_non_positive_and_refuses_unknown_properties() {
    let mut e = sample();
    assert!(e.mutate_state("check", "checked", 1.0, true));
    assert!(e.mutate_state("check", "checked", 0.0, false));
    assert!(!e.mutate_state("check", "value", 1.0, true));
    assert!(!e.mutate_state("vol", "checked", 1.0, true));
    assert!(!e.mutate_state("list", "value", 1.0, true));
    assert!(!e.mutate_state("nobody", "value", 1.0, true));
    match &e {
        Element::Container { children, .. } => match &children[1] {
            Element::ScrollView { children, scroll_x, scroll_y, .. } => {
                assert!(matches!(children[1], Element::Checkbox { checked: false, .. }));
                assert_eq!(*scroll_x, 0.0);
                assert_eq!(*scroll_y, 0.0);
            }
            _ => panic!("scroll view expected"),
        },
        _ => panic!("container expected"),
    }
}

#[test]
fn insert_child_appends_to_first_parent_with_id() {
    let mut e = sample();
    assert!(e.insert_child("list", label("new", "added")));
    assert_eq!(count_elements(&e), 11);
    match &e {
        Element::Container { children, .. } => match &children[1] {
            Element::ScrollView { children, .. } => {
                assert_eq!(children.len(), 5);
                assert_eq!(children[4].id(), Some("new"));
            }
            _ => panic!("scroll view expected"),
        },
        _ => panic!("container expected"),
    }
    // A label cannot take children.
    assert!(!e.insert_child("title", label("x", "y")));
    assert!(!e.insert_child("missing", label("x", "y")));
    assert_eq!(count_elements(&e), 11);
}

#[test]
fn insert_child_at_root() {
    let mut e = sample();
    assert!(e.insert_child("root", container(Some("footer"), vec![label("f", "1")])));
    assert_eq!(count_elements(&e), 12);
}

#[test]
fn remove_node_prefers_direct_children() {
    let mut e = sample();
    // "row" appears inside the scroll view (deeper, earlier) and as a direct child
    // of the root (later); the root's own child goes first.
    assert!(e.remove_node("row"));
    let mut texts = Vec::new();
    all_texts(&e, &mut texts);
    assert_eq!(texts, vec!["Hello", "first"]);
    assert_eq!(count_elements(&e), 9);
    assert!(e.remove_node("row"));
    let mut texts = Vec::new();
    all_texts(&e, &mut texts);
    assert_eq!(texts, vec!["Hello"]);
}

#[test]
fn remove_node_removes_subtrees_and_never_the_root() {
    let mut e = sample();
    assert!(e.remove_node("list"));
    assert_eq!(count_elements(&e), 5);
    assert!(!e.remove_node("root"));
    assert!(!e.remove_node("list"));
    assert_eq!(count_elements(&e), 5);
}
