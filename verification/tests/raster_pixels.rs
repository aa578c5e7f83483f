use snifferlauncher::launcher::ButtonId;
use snifferlauncher::raster::{
    argb_to_rgba, button_colors, clear, icon_size, wallpaper_size, write_pixel, IconLoadResult,
};
use snifferlauncher::style::{
    CARD_CAMERA, CARD_CAMERA_HOVER, CARD_CONTACTS, CARD_CONTACTS_HOVER, CARD_SETTINGS,
    CARD_SETTINGS_HOVER, SHADOW,
};

#[test]
fn write_pixel_stores_rgba_opaque() {
    let mut buf = vec![0u8; 2 * 2 * 4];
    write_pixel(&mut buf, 2, 1, 1, 0x0012_3456);
    assert_eq!(&buf[12..16], &[0x12, 0x34, 0x56, 0xff]);
    assert!(buf[..12].iter().all(|b| *b == 0));
}

#[test]
fn write_pixel_skips_pixels_outside_the_buffer() {
    let mut buf = vec![7u8; 10];
    write_pixel(&mut buf, 2, 0, 1, 0x00ff_ffff); // offset 8: needs bytes 8..12
    assert_eq!(buf, vec![7u8; 10]);
    write_pixel(&mut buf, usize::MAX, 5, 5, 0x00ff_ffff); // offset overflows
    assert_eq!(buf, vec![7u8; 10]);
    write_pixel(&mut buf, 2, 1, 0, 0x0001_0203);
    assert_eq!(buf, vec![7, 7, 7, 7, 1, 2, 3, 0xff, 7, 7]);
}

#[test]
fn clear_paints_rows_times_stride_pixels() {
    let mut buf = vec![0u8; 3 * 4 + 2];
    clear(&mut buf, 2, 1, 0x00aa_bbcc);
    assert_eq!(&buf[..8], &[0xaa, 0xbb, 0xcc, 0xff, 0xaa, 0xbb, 0xcc, 0xff]);
    assert!(buf[8..].iter().all(|b| *b == 0));
    let mut small = vec![1u8; 6];
    clear(&mut small, 4, 4, 0x0000_0000);
    assert_eq!(small, vec![0, 0, 0, 0xff, 1, 1]);
}

#[test]
fn argb_to_rgba_reorders_channels() {
    let px: [i32; 2] = [0x1122_3344, 0xff00_80ffu32 as i32];
    assert_eq!(argb_to_rgba(&px), vec![0x22, 0x33, 0x44, 0x11, 0x00, 0x80, 0xff, 0xff]);
    assert!(argb_to_rgba(&[]).is_empty());
}

#[test]
fn icon_size_defaults_to_96() {
    assert_eq!(icon_size(48, 64), (48, 64));
    assert_eq!(icon_size(0, 64), (96, 96));
    assert_eq!(icon_size(-1, -1), (96, 96));
    assert_eq!(icon_size(64, 0), (96, 96));
}

#[test]
fn wallpaper_size_is_half_screen_clamped() {
    assert_eq!(wallpaper_size(0, 0), (540, 960));
    assert_eq!(wallpaper_size(1080, 1920), (540, 960));
    assert_eq!(wallpaper_size(400, 800), (360, 640));
    assert_eq!(wallpaper_size(4000, 8000), (720, 1280));
    assert_eq!(wallpaper_size(1, 1), (360, 640));
}

#[test]
fn button_colours() {
    assert_eq!(button_colors(ButtonId::Settings, false), (CARD_SETTINGS, SHADOW));
    assert_eq!(button_colors(ButtonId::Settings, true), (CARD_SETTINGS_HOVER, SHADOW));
    assert_eq!(button_colors(ButtonId::Contacts, false), (CARD_CONTACTS, SHADOW));
    assert_eq!(button_colors(ButtonId::Contacts, true), (CARD_CONTACTS_HOVER, SHADOW));
    assert_eq!(button_colors(ButtonId::Camera, false), (CARD_CAMERA, SHADOW));
    assert_eq!(button_colors(ButtonId::Camera, true), (CARD_CAMERA_HOVER, SHADOW));
}

#[test]
fn icon_result_holds_rgba() {
    let r = IconLoadResult {
        package_name: "com.x".to_string(),
        pixels: argb_to_rgba(&[0x7f01_0203]),
        width: 1,
        height: 1,
    };
    assert_eq!(r.pixels, vec![1, 2, 3, 0x7f]);
}
