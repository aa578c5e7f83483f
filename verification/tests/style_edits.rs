use snifferlauncher::color::parse_hex_color;
use snifferlauncher::element::{count_elements, Element};

type El = Element<u32, f32>;

fn tree() -> El {
    Element::Container {
        id: Some("root".to_string()),
        style: 1,
        children: vec![
            Element::Container {
                id: Some("card".to_string()),
                style: 2,
                children: vec![Element::Label { id: Some("title".to_string()), text: "T".to_string(), style: 3 }],
            },
            Element::Image { id: Some("title".to_string()), src: "x.png".to_string(), style: 4 },
        ],
    }
}

#[test]
fn hex_colours_parse_like_from_str_radix() {
    assert_eq!(parse_hex_color("#1B9AAA"), Some(0x001B_9AAA));
    assert_eq!(parse_hex_color("ff00ff"), Some(0x00FF_00FF));
    assert_eq!(parse_hex_color("##0a"), Some(10));
    assert_eq!(parse_hex_color("+ff"), Some(255));
    assert_eq!(parse_hex_color("#+10"), Some(16));
    assert_eq!(parse_hex_color("FFFFFFFF"), Some(u32::MAX));
    assert_eq!(parse_hex_color("000000000001"), Some(1));
}

#[test]
fn hex_colours_rejected() {
    assert_eq!(parse_hex_color(""), None);
    assert_eq!(parse_hex_color("#"), None);
    assert_eq!(parse_hex_color("+"), None);
    assert_eq!(parse_hex_color("-1"), None);
    assert_eq!(parse_hex_color("12g4"), None);
    assert_eq!(parse_hex_color("1_000"), None);
    assert_eq!(parse_hex_color("100000000"), None);
    assert_eq!(parse_hex_color(" ff"), None);
    assert_eq!(parse_hex_color("++1"), None);
}

#[test]
fn hex_colours_agree_with_std() {
    for s in ["#abc", "ABCDEF", "+0", "#ffffffff", "#100000000", "#x", "", "+", "#+", "0x10"] {
        let expected = u32::from_str_radix(s.trim_start_matches('#'), 16).ok();
        assert_eq!(parse_hex_color(s), expected, "{s}");
    }
}

#[test]
fn element_style_of_each_kind() {
    let t = tree();
    assert_eq!(*t.style(), 1);
    let img: El = Element::Image { id: None, src: String::new(), style: 9 };
    assert_eq!(*img.style(), 9);
}

#[test]
fn style_of_finds_first_node_in_preorder() {
    let t = tree();
    assert_eq!(t.style_of("root"), Some(&1));
    assert_eq!(t.style_of("card"), Some(&2));
    // The label inside the card comes before the image in pre-order.
    assert_eq!(t.style_of("title"), Some(&3));
    assert_eq!(t.style_of("none"), None);
}

#[test]
fn set_style_then_style_of_reads_it_back() {
    let mut t = tree();
    assert!(t.set_style("title", 30));
    assert_eq!(t.style_of("title"), Some(&30));
    // The image with the same id is untouched.
    match &t {
        Element::Container { children, .. } => assert_eq!(*children[1].style(), 4),
        _ => panic!("container expected"),
    }
    assert!(t.set_style("root", 10));
    assert_eq!(t.style_of("root"), Some(&10));
    assert_eq!(t.style_of("card"), Some(&2));
    assert!(!t.set_style("none", 0));
    assert_eq!(count_elements(&t), 4);
}
