use mezon_desktop::active_window::{
    frontmost_window_title, mac_active_window, windows_window_text, process_identity, windows_active_window,
    x11_active_window, x11_active_window_id, x11_title_from_property, x11_wm_class,
    WindowListEntry,
};

#[test]
fn process_names_lose_exe() {
    assert_eq!(process_identity(Some("Code.exe".to_string())), ("Code".to_string(), Some("Code.exe".to_string())));
    assert_eq!(process_identity(Some("NOTEPAD.EXE".to_string())).0, "NOTEPAD");
    assert_eq!(process_identity(Some("app.Exe".to_string())).0, "app.Exe");
    assert_eq!(process_identity(Some("exe".to_string())).0, "exe");
    assert_eq!(process_identity(None), ("Unknown".to_string(), None));
    let w = windows_active_window("Doc".to_string(), 7, Some("winword.exe".to_string())).unwrap();
    assert_eq!(w.window_class, "winword");
    assert_eq!(w.window_name, "Doc");
    assert_eq!(w.pid, Some(7));
}

#[test]
fn wm_class_values() {
    assert_eq!(x11_wm_class(b"code\0Code\0"), Some("Code".to_string()));
    assert_eq!(x11_wm_class(b"xterm\0"), Some("xterm".to_string()));
    assert_eq!(x11_wm_class(b"\0\0navigator\0\0Firefox\0"), Some("Firefox".to_string()));
    assert_eq!(x11_wm_class(b"\0\0"), None);
    assert_eq!(x11_wm_class(b""), None);
    assert_eq!(x11_wm_class(&[0xff, 0x00, 0x41]), None);
}

#[test]
fn x11_titles() {
    assert_eq!(x11_title_from_property(b""), None);
    assert_eq!(x11_title_from_property(b"Editor\0\0"), Some("Editor".to_string()));
    assert_eq!(x11_title_from_property(b"a\0b"), Some("a\0b".to_string()));
    let info = x11_active_window("Editor".to_string(), None, Some(12)).unwrap();
    assert_eq!(info.window_class, "Unknown");
    assert!(info.path.is_none());
    assert_eq!(x11_active_window_id(32, Some(5), 4), Some(5));
    assert_eq!(x11_active_window_id(32, Some(0), 4), None);
    assert_eq!(x11_active_window_id(8, Some(5), 4), None);
    assert_eq!(x11_active_window_id(32, Some(5), 0), None);
}

#[test]
fn mac_window_titles() {
    let e = |layer: Option<Option<i32>>, name: &str, owner: &str| WindowListEntry {
        layer,
        name: Some(name.to_string()),
        owner: Some(owner.to_string()),
    };
    let list = vec![e(Some(Some(25)), "Menu", "SystemUIServer"), e(Some(Some(0)), "", ""), e(None, "", "Finder"), e(Some(Some(0)), "Doc", "Pages")];
    assert_eq!(frontmost_window_title(&list), Some("Finder".to_string()));
    assert_eq!(frontmost_window_title(&vec![]), None);
    let info = mac_active_window(Some("Pages".to_string()), Some("com.apple.Pages".to_string()), 99, None).unwrap();
    assert_eq!(info.window_name, "Pages");
    assert_eq!(info.path.as_deref(), Some("com.apple.Pages"));
    assert_eq!(info.pid, Some(99));
}

#[test]
fn wm_classes_are_never_empty() {
    for value in [&b"a\0"[..], b"\0\0b\0", b"x\0y", b"\0z", b"inst\0cls\0extra\0"] {
        let class = x11_wm_class(value).unwrap();
        assert!(!class.is_empty());
        assert!(!class.contains('\0'));
    }
    assert_eq!(x11_active_window("".to_string(), None, None).unwrap().window_class, "Unknown");
}

#[test]
fn windows_without_class_or_name_are_not_reported() {
    assert!(mac_active_window(None, Some("com.example".to_string()), 5, None).is_none());
    assert!(mac_active_window(None, None, 5, Some(String::new())).is_none());
    assert!(mac_active_window(Some(String::new()), None, 5, None).is_none());
    let titled = mac_active_window(None, None, 5, Some("Notes".to_string())).unwrap();
    assert_eq!(titled.window_class, "");
    assert_eq!(titled.window_name, "Notes");
    assert!(x11_active_window(String::new(), Some(String::new()), Some(3)).is_none());
    let named = x11_active_window("Term".to_string(), Some(String::new()), Some(3)).unwrap();
    assert_eq!(named.window_name, "Term");
    assert!(windows_active_window(String::new(), 4, Some(".exe".to_string())).is_none());
    let bare = windows_active_window("Title".to_string(), 4, Some(".EXE".to_string())).unwrap();
    assert_eq!(bare.window_class, "");
    assert_eq!(bare.path.as_deref(), Some(".EXE"));
    assert_eq!(windows_active_window(String::new(), 4, None).unwrap().window_class, "Unknown");
}

#[test]
fn windows_texts_from_utf16_buffers() {
    let mut buf: Vec<u16> = "Notepad – Untitled".encode_utf16().collect();
    let len = buf.len() as i32;
    buf.push(0);
    assert_eq!(windows_window_text(&buf, len), "Notepad – Untitled");
    assert_eq!(windows_window_text(&buf, 7), "Notepad");
    assert_eq!(windows_window_text(&buf, 0), "");
    assert_eq!(windows_window_text(&buf, -1), "");
    assert_eq!(windows_window_text(&[0x57, 0xDC00, 0x58], 3), "W\u{FFFD}X");
}
