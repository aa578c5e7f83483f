use snifferlauncher::data_map::{DataMap, DataValue};
use snifferlauncher::style_map::{StyleColors, StyleMap, StyleOverride};
use snifferlauncher::widget::fnv1a;

#[test]
fn data_map_set_get_clear() {
    let id = fnv1a(b"btn-settings");
    let other = fnv1a(b"btn-camera");
    let mut m = DataMap::new();
    assert!(m.get(id, "label").is_none());
    m.set(id, "label", DataValue::Text("Ayarlar".to_string()));
    m.set(id, "badge", DataValue::Counter(3));
    m.set(other, "label", DataValue::Text("Camera".to_string()));
    assert_eq!(m.label(id), Some("Ayarlar".to_string()));
    assert!(matches!(m.get(id, "badge"), Some(DataValue::Counter(3))));
    m.set(id, "badge", DataValue::Counter(4));
    assert!(matches!(m.get(id, "badge"), Some(DataValue::Counter(4))));
    m.clear(id, "label");
    assert_eq!(m.label(id), None);
    assert!(matches!(m.get(id, "badge"), Some(DataValue::Counter(4))));
    assert_eq!(m.label(other), Some("Camera".to_string()));
    m.clear_widget(id);
    assert!(m.get(id, "badge").is_none());
    assert_eq!(m.label(other), Some("Camera".to_string()));
}

#[test]
fn data_map_visibility_defaults_to_visible() {
    let id = fnv1a(b"header");
    let mut m = DataMap::default();
    assert!(m.is_visible(id));
    m.set(id, "visible", DataValue::Visible(false));
    assert!(!m.is_visible(id));
    m.set(id, "visible", DataValue::Text("no".to_string()));
    assert!(m.is_visible(id));
    m.clear(id, "visible");
    assert!(m.is_visible(id));
}

#[test]
fn data_map_label_must_be_text() {
    let id = 7;
    let mut m = DataMap::new();
    m.set(id, "label", DataValue::Custom("{\"a\":1}".to_string()));
    assert_eq!(m.label(id), None);
}

#[test]
fn style_map_set_get_mutate_clear() {
    let id = fnv1a(b"btn-camera");
    let mut m = StyleMap::new();
    assert!(m.get(id).is_none());
    let o = StyleOverride { background_color: Some(0x0011_2233), text_color: None, border_color: None };
    m.set(id, o);
    assert!(m.get(id) == Some(o));
    m.mutate(id, |mut s| {
        s.text_color = Some(0x00ff_ffff);
        s
    });
    let got = m.get(id).unwrap();
    assert_eq!(got.background_color, Some(0x0011_2233));
    assert_eq!(got.text_color, Some(0x00ff_ffff));
    m.clear(id);
    assert!(m.get(id).is_none());
    // Mutating a widget without an override starts from an empty one.
    m.mutate(id, |mut s| {
        s.border_color = Some(1);
        s
    });
    let got = m.get(id).unwrap();
    assert_eq!(got.background_color, None);
    assert_eq!(got.border_color, Some(1));
}

#[test]
fn style_override_apply() {
    let base = StyleColors { background_color: Some(1), text_color: Some(2), border_color: None };
    let o = StyleOverride { background_color: None, text_color: Some(9), border_color: Some(5) };
    let r = o.apply(base);
    assert!(r == StyleColors { background_color: Some(1), text_color: Some(9), border_color: Some(5) });
    assert!(o.apply(r) == r);
    assert!(StyleOverride::default().apply(base) == base);
}
