use std::hash::{Hash, Hasher};
use mezon_desktop::commands::base64::encode;
use mezon_desktop::commands::{
    badge_script, badge_text, check_permission_camera, check_permission_microphone, device_id,
    download_file_name, get_active_window, get_screen_sources, image_action_plan,
    image_copy_payload, image_window_label, image_window_title, platform_name,
    request_permission_camera, request_permission_microphone, title_bar_plan, update_info,
    url_file_name, DownloadFileOptions, ImageAction, ImageActionPlan, ImageWindowOptions,
    TitleBarAction, WindowOp,
};

#[test]
fn encode_known_vectors() {
    assert_eq!(encode(b""), "");
    assert_eq!(encode(b"f"), "Zg==");
    assert_eq!(encode(b"fo"), "Zm8=");
    assert_eq!(encode(b"foo"), "Zm9v");
    assert_eq!(encode(b"foob"), "Zm9vYg==");
    assert_eq!(encode(b"fooba"), "Zm9vYmE=");
    assert_eq!(encode(b"foobar"), "Zm9vYmFy");
    assert_eq!(encode(b"Hello World"), "SGVsbG8gV29ybGQ=");
    assert_eq!(encode(&[0xfb, 0xff]), "+/8=");
}

#[test]
fn platform_names() {
    assert_eq!(platform_name("windows"), "win32");
    assert_eq!(platform_name("macos"), "darwin");
    assert_eq!(platform_name("linux"), "linux");
    assert_eq!(platform_name("freebsd"), "unknown");
}

#[test]
fn title_bar_actions() {
    assert_eq!(title_bar_plan(TitleBarAction::Minimize, false), WindowOp::Minimize);
    assert_eq!(title_bar_plan(TitleBarAction::Maximize, false), WindowOp::Maximize);
    assert_eq!(title_bar_plan(TitleBarAction::Maximize, true), WindowOp::Unmaximize);
    assert_eq!(title_bar_plan(TitleBarAction::Close, true), WindowOp::Hide);
    assert_eq!(title_bar_plan(TitleBarAction::Hide, false), WindowOp::Hide);
}

#[test]
fn badge_texts() {
    assert_eq!(badge_text(0), "");
    assert_eq!(badge_text(-3), "");
    assert_eq!(badge_text(1), "1");
    assert_eq!(badge_text(9), "9");
    assert_eq!(badge_text(10), "9+");
    assert_eq!(badge_text(i32::MAX), "9+");
}

#[test]
fn badge_script_text() {
    let expected = "\n            tell application \"System Events\"\n                tell dock preferences\n                    set badge of (application file id \"app.mezon.ai\") to \"7\"\n                end tell\n            end tell\n            ";
    assert_eq!(badge_script(7), expected);
    assert!(badge_script(0).contains("to \"\"\n"));
}

#[test]
fn download_names() {
    assert_eq!(url_file_name("https://cdn.example.com/a/b/photo.png?x=1&y=2"), "photo.png");
    assert_eq!(url_file_name("https://cdn.example.com/a/b/"), "");
    assert_eq!(url_file_name("plain"), "plain");
    assert_eq!(url_file_name("?q"), "");
    let given = DownloadFileOptions { url: "https://h/x.bin".to_string(), filename: Some("mine.bin".to_string()) };
    assert_eq!(download_file_name(&given), "mine.bin");
    let derived = DownloadFileOptions { url: "https://h/dir/x.bin?sig=1".to_string(), filename: None };
    assert_eq!(download_file_name(&derived), "x.bin");
}

#[test]
fn image_copy_payloads() {
    assert_eq!(image_copy_payload(b"Man"), Ok("TWFu".to_string()));
    let big = vec![0u8; 50 * 1024 * 1024 + 1];
    assert_eq!(image_copy_payload(&big), Err("Image too large (max 50MB)".to_string()));
    let edge = vec![0u8; 50 * 1024 * 1024];
    assert!(image_copy_payload(&edge).is_ok());
}

#[test]
fn image_viewer_titles() {
    let mut options = ImageWindowOptions {
        url: "https://h/i.png".to_string(),
        filename: None,
        sender_name: None,
        timestamp: None,
        attachments: None,
        current_index: None,
    };
    assert_eq!(image_window_title(&options), "Image Viewer");
    options.filename = Some("cat.jpg".to_string());
    assert_eq!(image_window_title(&options), "cat.jpg");
    assert_eq!(image_window_label("42"), "image-viewer-42");
}

#[test]
fn image_action_plans() {
    let u = "https://h/i.png".to_string();
    assert!(matches!(image_action_plan(ImageAction::CopyLink, u.clone()), ImageActionPlan::CopyText(x) if x == u));
    assert!(matches!(image_action_plan(ImageAction::CopyImage, u.clone()), ImageActionPlan::CopyImageFrom(x) if x == u));
    assert!(matches!(image_action_plan(ImageAction::OpenLink, u.clone()), ImageActionPlan::Open(x) if x == u));
    match image_action_plan(ImageAction::SaveImage, u.clone()) {
        ImageActionPlan::Download(o) => {
            assert_eq!(o.url, u);
            assert!(o.filename.is_none());
        }
        _ => panic!("save must download"),
    }
}

#[test]
fn update_reports() {
    let none = update_info(None);
    assert!(!none.available && none.version.is_none() && none.notes.is_none());
    let some = update_info(Some(("1.2.3".to_string(), Some("notes".to_string()))));
    assert!(some.available);
    assert_eq!(some.version.as_deref(), Some("1.2.3"));
    assert_eq!(some.notes.as_deref(), Some("notes"));
}

#[test]
fn permissions_and_placeholders() {
    assert_eq!(request_permission_microphone(), Ok(true));
    assert_eq!(request_permission_camera(), Ok(true));
    assert_eq!(check_permission_microphone(), Ok("granted".to_string()));
    assert_eq!(check_permission_camera(), Ok("granted".to_string()));
    assert!(get_screen_sources(Some("screen".to_string())).unwrap().is_empty());
    assert!(get_active_window().unwrap().is_none());
}

#[test]
fn encoded_text_shape() {
    for n in 0..20usize {
        let data: Vec<u8> = (0..n).map(|i| (i * 53 + 7) as u8).collect();
        let text = encode(&data);
        assert_eq!(text.len(), 4 * ((n + 2) / 3));
        assert!(text.chars().all(|c| c.is_ascii_alphanumeric() || c == '+' || c == '/' || c == '='));
    }
}

fn std_device_hash(hostname: Option<&str>, user: Option<&str>) -> String {
    let mut hasher = std::collections::hash_map::DefaultHasher::new();
    if let Some(h) = hostname {
        h.hash(&mut hasher);
    }
    if let Some(u) = user {
        u.hash(&mut hasher);
    }
    format!("{:x}", hasher.finish())
}

#[test]
fn device_id_hashes_host_then_user() {
    for (host, user) in [
        (Some("workstation"), Some("alice")),
        (Some("büro-rechner"), None),
        (None, Some("bob")),
        (None, None),
        (Some(""), Some("")),
    ] {
        assert_eq!(device_id(host, user), std_device_hash(host, user));
    }
    assert_ne!(device_id(Some("a"), Some("b")), device_id(Some("b"), Some("a")));
    assert_ne!(device_id(Some("ab"), None), device_id(Some("a"), Some("b")));
    let id = device_id(Some("host"), Some("me"));
    assert!(id.chars().all(|c| c.is_ascii_hexdigit() && !c.is_ascii_uppercase()));
}
