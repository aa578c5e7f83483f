use snifferlauncher::event::EventBus;
use snifferlauncher::sdf::{edge_distance_at, edge_distances, pad_bitmap};
use snifferlauncher::widget::Widget;

#[test]
fn pad_bitmap_centres_the_bitmap() {
    let bitmap = [1u8, 2, 3, 4, 5, 6]; // 3 wide, 2 high
    let padded = pad_bitmap(&bitmap, 3, 2, 1);
    assert_eq!(
        padded,
        vec![
            0, 0, 0, 0, 0, //
            0, 1, 2, 3, 0, //
            0, 4, 5, 6, 0, //
            0, 0, 0, 0, 0,
        ]
    );
    assert_eq!(pad_bitmap(&bitmap, 3, 2, 0), bitmap.to_vec());
    assert!(pad_bitmap(&[], 0, 0, 0).is_empty());
    assert_eq!(pad_bitmap(&[], 0, 0, 1), vec![0, 0, 0, 0]);
}

#[test]
fn edge_distances_of_a_single_inside_pixel() {
    // A 3x3 image whose centre is inside the glyph.
    let img = [0u8, 0, 0, 0, 255, 0, 0, 0, 0];
    let d = edge_distances(&img, 3, 3, 2);
    // Every outside pixel's nearest inside pixel is the centre; the centre's
    // nearest outside pixels are its four neighbours.
    assert_eq!(d, vec![2, 1, 2, 1, 1, 1, 2, 1, 2]);
    assert_eq!(edge_distance_at(&img, 3, 3, 2, 0, 0), 2);
}

#[test]
fn edge_distances_are_capped_at_spread_squared() {
    // All pixels outside: no edge anywhere.
    let img = [0u8; 6];
    assert_eq!(edge_distances(&img, 3, 2, 3), vec![9; 6]);
    // A far edge beyond the window counts as none.
    let mut row = [0u8; 7];
    row[6] = 200;
    let d = edge_distances(&row, 7, 1, 2);
    assert_eq!(d, vec![4, 4, 4, 4, 4, 1, 1]);
}

#[test]
fn edge_distance_threshold_is_above_127() {
    let img = [127u8, 128];
    assert_eq!(edge_distances(&img, 2, 1, 5), vec![1, 1]);
    let img = [127u8, 127];
    assert_eq!(edge_distances(&img, 2, 1, 5), vec![25, 25]);
}

#[test]
fn event_bus_is_first_in_first_out() {
    let mut bus: EventBus<u32> = EventBus::new();
    assert!(bus.drain().is_empty());
    bus.push(1);
    bus.push(2);
    bus.push(3);
    assert_eq!(bus.drain(), vec![1, 2, 3]);
    assert!(bus.drain().is_empty());
    bus.push(9);
    assert_eq!(bus.drain(), vec![9]);
    let mut other: EventBus<String> = EventBus::default();
    other.push("a".to_string());
    assert_eq!(other.drain(), vec!["a".to_string()]);
}

#[test]
fn widget_ids_and_styles() {
    let button: Widget<u8> = Widget::Button { id: 42, label: "Go".to_string(), style: 7, hovered: false };
    assert_eq!(button.widget_id(), Some(42));
    assert_eq!(*button.style(), 7);
    let anon: Widget<u8> = Widget::Label { id: None, text: "x".to_string(), style: 1, visible: true };
    assert_eq!(anon.widget_id(), None);
    let icon: Widget<u8> = Widget::Icon { id: Some(5), widget_id: 42, style: 2 };
    assert_eq!(icon.widget_id(), Some(5));
    let list: Widget<u8> = Widget::Container { id: Some(3), style: 9, children: vec![button, anon, icon] };
    assert_eq!(list.widget_id(), Some(3));
    assert_eq!(*list.style(), 9);
}
