use mosaic::files::{
    capture_body, capture_summary, config_file, default_save_dir, desktop_entry_needs_write,
    ensure_desktop_entry, home_dir, join_path, screenshot_file_name, starts_with, update_autostart,
    AutostartChange,
};

#[test]
fn paths_join_like_pathbuf() {
    assert_eq!(join_path("/home/a", ".config"), "/home/a/.config");
    assert_eq!(join_path("/home/a/", ".config"), "/home/a/.config");
    assert_eq!(join_path("", ".config"), ".config");
    assert_eq!(config_file("/home/a"), "/home/a/.config/mosaic/config.json");
    assert_eq!(home_dir(None), ".");
    assert_eq!(home_dir(Some("/root".to_string())), "/root");
    assert_eq!(default_save_dir("/home/a", true), "/home/a/Pictures");
    assert_eq!(default_save_dir("/home/a", false), "/home/a");
}

#[test]
fn autostart_entry() {
    let plan = update_autostart(true, "/home/a", Some("/usr/bin/mosaic"));
    assert_eq!(plan.dir, "/home/a/.config/autostart");
    assert_eq!(plan.file, "/home/a/.config/autostart/mosaic.desktop");
    match plan.change {
        AutostartChange::Write(text) => assert_eq!(
            text,
            "[Desktop Entry]\nType=Application\nName=Mosaic\nExec=/usr/bin/mosaic\nIcon=/home/a/.local/share/icons/mosaic.png\nComment=Region-Based Scrolling Capture\nTerminal=false\n"
        ),
        _ => panic!("expected a write"),
    }
    assert!(matches!(update_autostart(false, "/home/a", Some("x")).change, AutostartChange::Remove));
    assert!(matches!(update_autostart(true, "/home/a", None).change, AutostartChange::Keep));
}

#[test]
fn application_menu_entry() {
    let plan = ensure_desktop_entry("/home/a", "/opt/mosaic");
    assert_eq!(plan.icon_dir, "/home/a/.local/share/icons");
    assert_eq!(plan.icon_file, "/home/a/.local/share/icons/mosaic.png");
    assert_eq!(plan.app_dir, "/home/a/.local/share/applications");
    assert_eq!(plan.entry_file, "/home/a/.local/share/applications/mosaic.desktop");
    assert!(plan.content.ends_with("Terminal=false\nCategories=Utility;\n"));
    assert!(plan.content.contains("Exec=/opt/mosaic\n"));
    assert!(!desktop_entry_needs_write(Some(plan.content.clone()), &plan.content));
    assert!(desktop_entry_needs_write(Some("old".to_string()), &plan.content));
    assert!(desktop_entry_needs_write(None, &plan.content));
}

#[test]
fn notification_texts() {
    assert_eq!(screenshot_file_name("scroll_screenshot", "20240101_120000"), "scroll_screenshot_20240101_120000.png");
    assert_eq!(capture_summary("scroll_screenshot"), "Scrolling Capture Done");
    assert_eq!(capture_summary("annotated_screenshot"), "Screen Capture Done");
    assert_eq!(capture_summary("scrol"), "Screen Capture Done");
    assert_eq!(capture_body("a.png", true), "Image saved to a.png and copied to clipboard!");
    assert_eq!(capture_body("a.png", false), "Image saved to a.png");
    assert!(starts_with("scrolling", "scroll"));
    assert!(!starts_with("scr", "scroll"));
}
