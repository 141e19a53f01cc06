use livepaper::fullscreen::{PauseState, Rect};
use livepaper::strmap::StrMap;
use livepaper::wallpaper::{
    apply_user_paused, assign_in_settings, build_screens, child_window_ex_style, child_window_style,
    client_insets, compensated_placement, detached_window_style, ensure_not_in_use,
    get_wallpaper_media, initial_placement, is_wallpaper_in_use, is_wallpaper_label, last_wallpaper,
    media_event, monitor_label, pause_menu_text, restore_candidates, unassign_in_settings,
    user_paused, visible_region, wallpaper_targets, MonitorInfo, WallpaperState,
};

#[test]
fn labels_of_monitors() {
    assert_eq!(monitor_label(Some("\\\\.\\DISPLAY1"), 0), "wallpaper-DISPLAY1");
    assert_eq!(monitor_label(Some("显示器 一"), 3), "wallpaper-3");
    assert_eq!(monitor_label(None, 12), "wallpaper-12");
    assert_eq!(monitor_label(Some("a_b-c d"), 0), "wallpaper-a_b-cd");
    assert!(is_wallpaper_label(&monitor_label(None, 0)));
    assert!(!is_wallpaper_label("main"));
    assert!(!is_wallpaper_label("wallpaper"));
}

#[test]
fn events_and_tray_text() {
    assert_eq!(media_event("C:\\w\\a.PNG"), "wallpaper:set-image");
    assert_eq!(media_event("C:\\w\\a.mp4"), "wallpaper:set-video");
    assert_eq!(pause_menu_text(true), "恢复播放");
    assert_eq!(pause_menu_text(false), "暂停壁纸");
}

#[test]
fn assigned_wallpaper_is_in_use_until_cleared() {
    let mut st = WallpaperState::new();
    assert_eq!(last_wallpaper(&st), Err("本次运行尚未设置过动态壁纸".to_string()));
    st.assign("wallpaper-1".to_string(), "C:\\w\\a.mp4".to_string());
    st.set_last("C:\\w\\a.mp4".to_string());
    assert!(is_wallpaper_in_use(&st, "C:\\w\\a.mp4"));
    assert!(!is_wallpaper_in_use(&st, "C:\\w\\b.mp4"));
    assert_eq!(
        ensure_not_in_use(&st, "C:\\w\\a.mp4"),
        Err("该视频正在使用中，请先停止对应的屏幕壁纸".to_string())
    );
    assert_eq!(ensure_not_in_use(&st, "C:\\w\\b.mp4"), Ok(()));
    st.unassign("wallpaper-1");
    assert!(!is_wallpaper_in_use(&st, "C:\\w\\a.mp4"));
    assert_eq!(last_wallpaper(&st), Ok("C:\\w\\a.mp4".to_string()));
    st.assign("wallpaper-1".to_string(), "x.mp4".to_string());
    st.clear_screens();
    assert!(!is_wallpaper_in_use(&st, "x.mp4"));
}

#[test]
fn media_info_of_a_screen() {
    let mut st = WallpaperState::new();
    let mut pauses = PauseState::new();
    assert!(get_wallpaper_media(&st, &pauses, "wallpaper-1").is_none());
    st.assign("wallpaper-1".to_string(), "C:\\w\\a.jpg".to_string());
    pauses.record("wallpaper-1".to_string(), true);
    apply_user_paused(&mut st, true);
    assert!(user_paused(&st));
    let m = get_wallpaper_media(&st, &pauses, "wallpaper-1").unwrap();
    assert_eq!(m.path, "C:\\w\\a.jpg");
    assert_eq!(m.kind, "image");
    assert!(m.fullscreen_paused);
    assert!(m.user_paused);
}

#[test]
fn applying_to_all_screens_replaces_the_assignment() {
    let screens = vec!["wallpaper-1".to_string(), "wallpaper-2".to_string()];
    assert_eq!(wallpaper_targets(Some("wallpaper-2"), &screens), vec!["wallpaper-2".to_string()]);
    let all = wallpaper_targets(None, &screens);
    assert_eq!(all, screens);
    let mut m: StrMap<String> = StrMap::new();
    m.insert("wallpaper-9".to_string(), "old.mp4".to_string());
    assign_in_settings(&mut m, Some("wallpaper-1"), &vec![], &"one.mp4".to_string());
    assert_eq!(m.get("wallpaper-1"), Some(&"one.mp4".to_string()));
    assert_eq!(m.len(), 2);
    assign_in_settings(&mut m, None, &all, &"all.mp4".to_string());
    assert_eq!(m.len(), 2);
    assert_eq!(m.get("wallpaper-2"), Some(&"all.mp4".to_string()));
    assert_eq!(m.get("wallpaper-9"), None);
    unassign_in_settings(&mut m, Some("wallpaper-1"));
    assert_eq!(m.len(), 1);
    unassign_in_settings(&mut m, None);
    assert!(m.is_empty());
}

#[test]
fn restore_follows_screen_order() {
    let mut m: StrMap<String> = StrMap::new();
    m.insert("wallpaper-2".to_string(), "b.mp4".to_string());
    m.insert("wallpaper-gone".to_string(), "c.mp4".to_string());
    m.insert("wallpaper-1".to_string(), "a.mp4".to_string());
    let screens = vec!["wallpaper-1".to_string(), "wallpaper-2".to_string(), "wallpaper-3".to_string()];
    let c = restore_candidates(&m, &screens);
    assert_eq!(
        c,
        vec![
            ("wallpaper-1".to_string(), "a.mp4".to_string()),
            ("wallpaper-2".to_string(), "b.mp4".to_string())
        ]
    );
    let mut st = WallpaperState::new();
    st.record_restored("wallpaper-2".to_string(), "b.mp4".to_string());
    assert_eq!(last_wallpaper(&st), Ok("b.mp4".to_string()));
    assert!(is_wallpaper_in_use(&st, "b.mp4"));
}

#[test]
fn screens_listing() {
    let mut st = WallpaperState::new();
    st.assign("wallpaper-0".to_string(), "a.mp4".to_string());
    let monitors = vec![
        MonitorInfo { name: None, x: 0, y: 0, width: 1920, height: 1080 },
        MonitorInfo { name: Some("DELL".to_string()), x: 1920, y: 0, width: 2560, height: 1440 },
    ];
    let s = build_screens(&st, &monitors);
    assert_eq!(s.len(), 2);
    assert_eq!(s[0].label, "wallpaper-0");
    assert_eq!(s[0].name, "显示器 1");
    assert_eq!(s[0].wallpaper_path, Some("a.mp4".to_string()));
    assert_eq!(s[1].label, "wallpaper-DELL");
    assert_eq!(s[1].name, "DELL");
    assert_eq!((s[1].width, s[1].height), (2560, 1440));
    assert_eq!(s[1].wallpaper_path, None);
}

#[test]
fn window_styles() {
    assert_eq!(child_window_style(0x96CF_0000), 0x560B_0000);
    assert_eq!(child_window_ex_style(0x0000_0301 | 0x8), 0x8);
    assert_eq!(detached_window_style(0x560B_0000), 0x960B_0000);
}

#[test]
fn compensated_window_covers_the_screen() {
    let m = MonitorInfo { name: None, x: 1920, y: 0, width: 2560, height: 1440 };
    let host = Rect { left: -1920, top: 0, right: 4480, bottom: 1440 };
    let p = initial_placement(&m, host);
    assert_eq!((p.x, p.y, p.width, p.height), (3840, 0, 2560, 1440));
    let win = Rect { left: 1920, top: 0, right: 4480, bottom: 1440 };
    let client = Rect { left: 0, top: 0, right: 2544, bottom: 1431 };
    let ins = client_insets(client, 1928, 1, win);
    assert_eq!((ins.dx, ins.dy, ins.right_gap, ins.bottom_gap), (8, 1, 8, 8));
    let c = compensated_placement(&m, host, &ins);
    assert_eq!((c.x, c.y, c.width, c.height), (3832, -1, 2576, 1449));
    let v = visible_region(&m, &ins);
    assert_eq!((v.left, v.top, v.right, v.bottom), (8, 1, 2568, 1441));
    assert_eq!(c.x + v.left, m.x - host.left);
}

#[test]
fn placement_wraps_like_32_bit_coordinates() {
    let m = MonitorInfo { name: None, x: i32::MIN, y: 0, width: 1920, height: 1080 };
    let host = Rect { left: 1, top: 0, right: 10, bottom: 10 };
    let p = initial_placement(&m, host);
    assert_eq!(p.x, i32::MAX);
}

#[test]
fn show_on_every_screen_replaces_the_screens() {
    let mut st = WallpaperState::new();
    st.assign("wallpaper-old".to_string(), "C:\\w\\old.mp4".to_string());
    let targets = vec!["wallpaper-1".to_string(), "wallpaper-2".to_string()];
    let path = "C:\\w\\sea.mp4".to_string();
    st.show_on(true, &targets, &path);
    assert_eq!(st.wallpaper_of("wallpaper-1"), Some(path.clone()));
    assert_eq!(st.wallpaper_of("wallpaper-2"), Some(path.clone()));
    assert_eq!(st.wallpaper_of("wallpaper-old"), None);
    st.show_on(false, &vec!["wallpaper-3".to_string()], &"C:\\w\\b.png".to_string());
    assert_eq!(st.wallpaper_of("wallpaper-1"), Some(path));
    assert_eq!(st.wallpaper_of("wallpaper-3"), Some("C:\\w\\b.png".to_string()));
    st.show_on(true, &vec![], &"C:\\w\\c.mp4".to_string());
    assert_eq!(st.wallpaper_of("wallpaper-3"), None);
}
