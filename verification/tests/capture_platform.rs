use mezon_desktop::capture_platform::{
    cgimage_rgba, cgimage_to_data_url, check_thumbnail_fits, is_blank, mac_display_source,
    mac_window_identity, numbered_window_source, swap_red_blue, window_size_listed,
    windows_screen_source, windows_window_listed, windows_window_source, x11_image_to_data_url,
    x11_pixels_to_rgba, x11_screen_source, x11_window_name,
};
use mezon_desktop::capture_platform::windows_bitmap_to_data_url;
use mezon_desktop::screen_capture::{image_to_data_url, ThumbnailSize};

#[test]
fn bgra_swap() {
    let mut p = vec![1, 2, 3, 4, 5, 6, 7, 8, 9, 10];
    swap_red_blue(&mut p);
    assert_eq!(p, vec![3, 2, 1, 4, 7, 6, 5, 8, 9, 10]);
}

#[test]
fn x11_pixel_order() {
    assert_eq!(x11_pixels_to_rgba(&[1, 2, 3, 4, 5, 6, 7, 8]), vec![3, 2, 1, 4, 7, 6, 5, 8]);
    assert_eq!(x11_pixels_to_rgba(&[1, 2, 3, 4, 5, 6, 7]), vec![3, 2, 1, 4, 7, 6, 5, 255]);
    assert_eq!(x11_pixels_to_rgba(&[1, 2, 3, 4, 5, 6]), vec![3, 2, 1, 4]);
}

#[test]
fn x11_image_depths() {
    let size = ThumbnailSize { width: 1, height: 1 };
    assert_eq!(x11_image_to_data_url(24, &[], 1, 1, size), None);
    assert_eq!(x11_image_to_data_url(16, &[1, 2, 3, 4], 1, 1, size), None);
    let url = x11_image_to_data_url(32, &[1, 2, 3, 4], 1, 1, size).unwrap();
    assert!(url.starts_with("data:image/png;base64,"));
}

#[test]
fn cgimage_rows_with_padding() {
    // 2 x 2 image, 12 bytes per row (4 bytes of padding per row)
    let bytes: Vec<u8> = (0u8..24).collect();
    let rgba = cgimage_rgba(2, 2, 12, &bytes);
    assert_eq!(rgba, vec![2, 1, 0, 3, 6, 5, 4, 7, 14, 13, 12, 15, 18, 17, 16, 19]);
    // pixels past the end of the data are skipped
    let short: Vec<u8> = (0u8..14).collect();
    assert_eq!(cgimage_rgba(2, 2, 12, &short), vec![2, 1, 0, 3, 6, 5, 4, 7]);
}

#[test]
fn cgimage_empty_image() {
    assert_eq!(cgimage_to_data_url(0, 5, 0, &[], ThumbnailSize::for_window()), None);
    assert_eq!(cgimage_to_data_url(5, 0, 20, &[], ThumbnailSize::for_window()), None);
}

#[test]
fn windows_listing_rules() {
    assert!(windows_window_listed("Editor", 800, 600, "Notepad"));
    assert!(!windows_window_listed("   ", 800, 600, "Notepad"));
    assert!(!windows_window_listed("Editor", 99, 600, "Notepad"));
    assert!(!windows_window_listed("Editor", 800, 49, "Notepad"));
    assert!(!windows_window_listed("Program Manager", 800, 600, "Progman"));
    assert!(!windows_window_listed("Taskbar", 800, 600, "Shell_TrayWnd"));
    assert!(window_size_listed(100, 50));
    assert!(!window_size_listed(100, 49));
}

#[test]
fn blank_titles() {
    assert!(is_blank(""));
    assert!(is_blank(" \t\n\u{3000}"));
    assert!(!is_blank(" a "));
}

#[test]
fn source_ids_and_names() {
    let s = windows_screen_source(-1920, 0, "t".to_string());
    assert_eq!(s.id, "screen:-1920:0");
    assert_eq!(s.name, "Entire Screen");
    assert_eq!(s.source_type, "screen");
    let w = windows_window_source(655370, 4242, "Title".to_string(), String::new());
    assert_eq!(w.id, "window:655370:4242");
    assert_eq!(w.source_type, "window");
    assert_eq!(mac_display_source(69733378, 0, String::new()).name, "Entire Screen");
    let second = mac_display_source(7, 1, String::new());
    assert_eq!(second.name, "Screen 2");
    assert_eq!(second.id, "screen:7");
    assert_eq!(numbered_window_source(31, "n".to_string(), String::new()).id, "window:31");
    assert_eq!(x11_screen_source(0, String::new()).id, "screen:0");
}

#[test]
fn mac_window_entries() {
    let name = |s: &str| Some(s.to_string());
    assert_eq!(
        mac_window_identity(Some(Some(0)), Some(12), name("Inbox"), name("Mail")),
        Some((12, "Mail - Inbox".to_string()))
    );
    assert_eq!(mac_window_identity(None, Some(12), name(""), name("Mail")), Some((12, "Mail".to_string())));
    assert_eq!(mac_window_identity(Some(Some(25)), Some(12), name("Inbox"), name("Mail")), None);
    assert_eq!(mac_window_identity(Some(None), Some(12), name("Inbox"), name("Mail")), None);
    assert_eq!(mac_window_identity(Some(Some(0)), None, name("Inbox"), name("Mail")), None);
    assert_eq!(mac_window_identity(Some(Some(0)), Some(12), None, name("  ")), None);
}

#[test]
fn x11_names() {
    assert_eq!(x11_window_name(b""), None);
    assert_eq!(x11_window_name(b"Terminal"), Some("Terminal".to_string()));
    assert_eq!(x11_window_name(&[0x66, 0xff, 0x6f]), Some("f\u{FFFD}o".to_string()));
}

#[test]
fn thumbnail_limits() {
    let s = ThumbnailSize::for_screen();
    assert!(check_thumbnail_fits(1920, 1080, 1920 * 1080 * 4, s));
    assert!(check_thumbnail_fits(10, 10, 3, s));
    assert!(!check_thumbnail_fits(10, 10, 400, ThumbnailSize { width: u32::MAX, height: u32::MAX }));
}

#[test]
fn blank_agrees_with_std_whitespace() {
    for code in 0u32..0x3100 {
        if let Some(c) = char::from_u32(code) {
            let s = format!("{}{}", c, c);
            assert_eq!(is_blank(&s), s.trim().is_empty(), "U+{:04X}", code);
        }
    }
    for c in ['\u{FEFF}', '\u{200B}', '\u{180E}', 'x'] {
        assert_eq!(is_blank(&c.to_string()), c.is_whitespace());
    }
}

#[test]
fn windows_bitmap_thumbnail_swaps_channels_first() {
    let bgra = vec![10, 20, 30, 255, 40, 50, 60, 255];
    let rgba = vec![30, 20, 10, 255, 60, 50, 40, 255];
    let size = ThumbnailSize { width: 1, height: 1 };
    assert_eq!(windows_bitmap_to_data_url(bgra, 2, 1, size), image_to_data_url(&rgba, 2, 1, size));
}

#[test]
fn conversions_give_whole_pixels() {
    for n in 0..13usize {
        let data: Vec<u8> = (0..n).map(|i| i as u8).collect();
        let rgba = x11_pixels_to_rgba(&data);
        assert_eq!(rgba.len() % 4, 0);
        assert!(rgba.len() <= n + 1);
        let mut swapped = data.clone();
        swap_red_blue(&mut swapped);
        assert_eq!(swapped.len(), n);
        assert_eq!(cgimage_rgba(3, 2, 13, &data).len() % 4, 0);
    }
}

#[test]
fn windows_capture_area() {
    assert_eq!(mezon_desktop::capture_platform::windows_screen_area(-1920, 0, 3840, 1080, 1920, 1080), (-1920, 0, 3840, 1080));
    assert_eq!(mezon_desktop::capture_platform::windows_screen_area(-1920, 0, 0, 1080, 1920, 1080), (0, 0, 1920, 1080));
    assert_eq!(mezon_desktop::capture_platform::windows_screen_area(5, 5, 100, 0, 800, 600), (0, 0, 800, 600));
}
