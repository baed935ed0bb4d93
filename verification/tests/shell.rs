use mezon_desktop::lite_commands;
use mezon_desktop::shell::{deep_link_from_args, focus_event_name, settings_shortcut, str_starts_with, tray_action, TrayAction};

#[test]
fn deep_links_from_a_second_launch() {
    let args = |v: &[&str]| v.iter().map(|s| s.to_string()).collect::<Vec<String>>();
    assert_eq!(deep_link_from_args(&args(&["mezon", "mezonapp://chat/1"])), Some("mezonapp://chat/1".to_string()));
    assert_eq!(deep_link_from_args(&args(&["mezon", "https://mezon.ai"])), None);
    assert_eq!(deep_link_from_args(&args(&["mezon"])), None);
    assert_eq!(deep_link_from_args(&args(&[])), None);
    assert!(str_starts_with("mezonapp://", "mezonapp://"));
    assert!(!str_starts_with("mezon", "mezonapp://"));
}

#[test]
fn tray_items() {
    assert_eq!(tray_action("quit"), TrayAction::Quit);
    assert_eq!(tray_action("show"), TrayAction::Show);
    assert_eq!(tray_action("hide"), TrayAction::Hide);
    assert_eq!(tray_action("check_updates"), TrayAction::CheckUpdates);
    assert_eq!(tray_action("other"), TrayAction::Nothing);
}

#[test]
fn focus_and_shortcut() {
    assert_eq!(focus_event_name(true), "window-focused");
    assert_eq!(focus_event_name(false), "window-blurred");
    assert_eq!(settings_shortcut(true), "cmd+,");
    assert_eq!(settings_shortcut(false), "ctrl+,");
}

#[test]
fn lite_shell_commands() {
    assert_eq!(lite_commands::platform_name("windows"), "windows");
    assert_eq!(lite_commands::platform_name("macos"), "macos");
    assert_eq!(lite_commands::platform_name("plan9"), "unknown");
    assert_eq!(
        lite_commands::badge_script(0),
        "tell application \"System Events\" to set badge of application \"Mezon\" to \"\""
    );
    assert_eq!(
        lite_commands::badge_script(-3),
        "tell application \"System Events\" to set badge of application \"Mezon\" to \"\""
    );
    assert_eq!(
        lite_commands::badge_script(12),
        "tell application \"System Events\" to set badge of application \"Mezon\" to 12"
    );
}
