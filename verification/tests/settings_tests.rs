use livepaper::settings::{
    check_browser_url, check_explorer_dir, fullscreen_pause_cached, load, set_fullscreen_pause_cached,
    settings_path, settings_tmp_path, view, wallpapers_dir, Settings, SettingsCache,
};
use livepaper::strmap::StrMap;

#[test]
fn defaults_pause_on_full_screen_and_assign_nothing() {
    let s = Settings::default();
    assert!(s.fullscreen_pause);
    assert!(s.wallpaper_assignments.is_empty());
}

#[test]
fn load_falls_back_to_defaults_and_updates_cache() {
    let mut cache = SettingsCache::new();
    assert!(fullscreen_pause_cached(&cache));
    let mut m = StrMap::new();
    m.insert("wallpaper-0".to_string(), "C:\\w\\a.mp4".to_string());
    let stored = Settings { fullscreen_pause: false, wallpaper_assignments: m };
    let s = load(&mut cache, Some(stored));
    assert!(!s.fullscreen_pause);
    assert!(!fullscreen_pause_cached(&cache));
    assert_eq!(s.wallpaper_assignments.get("wallpaper-0"), Some(&"C:\\w\\a.mp4".to_string()));
    let d = load(&mut cache, None);
    assert!(d.fullscreen_pause);
    assert!(fullscreen_pause_cached(&cache));
    set_fullscreen_pause_cached(&mut cache, false);
    assert!(!fullscreen_pause_cached(&cache));
}

#[test]
fn settings_and_data_locations() {
    assert_eq!(settings_path("C:\\cfg"), "C:\\cfg\\settings.json");
    assert_eq!(settings_tmp_path("C:\\cfg"), "C:\\cfg\\settings.json.tmp");
    assert_eq!(wallpapers_dir("C:\\data\\"), "C:\\data\\wallpapers");
    let v = view(Settings::default(), "C:\\data\\wallpapers".to_string());
    assert_eq!(v.resolved_wallpapers_dir, "C:\\data\\wallpapers");
    assert!(v.settings.fullscreen_pause);
}

#[test]
fn only_web_links_open_in_the_browser() {
    assert_eq!(check_browser_url("https://example.com"), Ok(()));
    assert_eq!(check_browser_url("HTTP://EXAMPLE.COM"), Ok(()));
    assert_eq!(check_browser_url("file:///C:/x"), Err("仅支持 http/https 链接".to_string()));
    assert_eq!(check_browser_url("http:/x"), Err("仅支持 http/https 链接".to_string()));
    assert_eq!(check_browser_url(""), Err("仅支持 http/https 链接".to_string()));
}

#[test]
fn only_folders_open_in_the_explorer() {
    assert_eq!(check_explorer_dir(true), Ok(()));
    assert_eq!(check_explorer_dir(false), Err("路径不是有效目录".to_string()));
}
