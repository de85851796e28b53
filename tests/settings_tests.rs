use clipman::settings::{Settings, SettingsManager};

#[test]
fn defaults() {
    let s = Settings::default();
    assert_eq!(s.global_shortcut, "CommandOrControl+Shift+V");
    assert_eq!(s.max_history_items, 100);
    assert!(s.auto_cleanup);
    assert_eq!(s.tray_text_length, 50);
    assert!(!s.store_original_image);
    assert_eq!(s.max_pinned_in_tray, 5);
    assert_eq!(s.max_recent_in_tray, 20);
    assert_eq!(s.custom_data_path, None);
}

#[test]
fn setters_change_one_field() {
    let mut m = SettingsManager::new();
    m.set_global_shortcut("Alt+V".to_string());
    m.set_max_history_items(7);
    m.set_auto_cleanup(false);
    m.set_tray_text_length(30);
    m.set_store_original_image(true);
    let s = m.get();
    assert_eq!(s.global_shortcut, "Alt+V");
    assert_eq!(s.max_history_items, 7);
    assert!(!s.auto_cleanup);
    assert_eq!(s.tray_text_length, 30);
    assert!(s.store_original_image);
    assert_eq!(s.max_recent_in_tray, 20);
    let mut other = Settings::default();
    other.custom_data_path = Some("/x".to_string());
    m.set(other);
    assert_eq!(m.get().custom_data_path, Some("/x".to_string()));
    assert_eq!(m.get().global_shortcut, "CommandOrControl+Shift+V");
}
