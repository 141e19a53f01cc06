use livepaper::fullscreen::{
    detect_fullscreen_labels, is_paused, monitor_center, plan_tick, PauseState, Rect, WindowFacts,
    WorkArea,
};

fn labels(v: &[&str]) -> Vec<String> {
    v.iter().map(|s| s.to_string()).collect()
}

fn apply(state: &mut PauseState, events: &[livepaper::fullscreen::PauseEvent]) {
    for e in events {
        state.record(e.label.clone(), e.paused);
    }
}

#[test]
fn events_only_on_change() {
    let mut st = PauseState::new();
    let screens = labels(&["wallpaper-A", "wallpaper-B"]);
    let ev = plan_tick(&st, &screens, true, false, &labels(&["wallpaper-B"]));
    let got: Vec<(String, bool)> = ev.iter().map(|e| (e.label.clone(), e.paused)).collect();
    assert_eq!(got, vec![("wallpaper-A".to_string(), false), ("wallpaper-B".to_string(), true)]);
    apply(&mut st, &ev);
    assert!(is_paused(&st, "wallpaper-B"));
    assert!(!is_paused(&st, "wallpaper-A"));
    assert!(!is_paused(&st, "wallpaper-C"));
    let again = plan_tick(&st, &screens, true, false, &labels(&["wallpaper-B"]));
    assert!(again.is_empty());
    let away = plan_tick(&st, &screens, true, true, &labels(&[]));
    let got: Vec<(String, bool)> = away.iter().map(|e| (e.label.clone(), e.paused)).collect();
    assert_eq!(got, vec![("wallpaper-A".to_string(), true)]);
}

#[test]
fn turning_the_feature_off_resumes_paused_screens() {
    let mut st = PauseState::new();
    st.record("wallpaper-A".to_string(), true);
    st.record("wallpaper-B".to_string(), false);
    let ev = plan_tick(&st, &labels(&["wallpaper-A", "wallpaper-B", "wallpaper-C"]), false, true, &labels(&[]));
    let got: Vec<(String, bool)> = ev.iter().map(|e| (e.label.clone(), e.paused)).collect();
    assert_eq!(got, vec![("wallpaper-A".to_string(), false)]);
}

#[test]
fn duplicate_labels_get_one_event() {
    let st = PauseState::new();
    let ev = plan_tick(&st, &labels(&["wallpaper-X", "wallpaper-X"]), true, true, &labels(&[]));
    assert_eq!(ev.len(), 1);
}

fn window(class: &str, rect: Option<Rect>) -> WindowFacts {
    WindowFacts { visible: true, ex_style: 0, cloaked: false, class_name: class.to_string(), rect }
}

#[test]
fn full_screen_windows_cover_work_areas() {
    let areas = vec![
        WorkArea { label: "wallpaper-1".to_string(), rect: Rect { left: 0, top: 0, right: 1920, bottom: 1040 } },
        WorkArea { label: "wallpaper-2".to_string(), rect: Rect { left: 1920, top: 0, right: 3840, bottom: 1040 } },
    ];
    let big = Some(Rect { left: -8, top: -8, right: 1928, bottom: 1048 });
    let second = Some(Rect { left: 1920, top: 0, right: 3840, bottom: 1080 });
    let small = Some(Rect { left: 10, top: 10, right: 500, bottom: 500 });
    let mut tool = window("Chrome_WidgetWin_1", big);
    tool.ex_style = 0x80;
    let mut hidden = window("Chrome_WidgetWin_1", big);
    hidden.visible = false;
    let mut cloaked = window("Chrome_WidgetWin_1", big);
    cloaked.cloaked = true;
    let windows = vec![
        window("Progman", big),
        window("WorkerW", big),
        window("Shell_TrayWnd", big),
        tool,
        hidden,
        cloaked,
        window("Game", None),
        window("Notepad", small),
        window("Game", second),
        window("Chrome_WidgetWin_1", big),
    ];
    assert_eq!(detect_fullscreen_labels(&areas, &windows), vec!["wallpaper-2", "wallpaper-1"]);
    assert!(detect_fullscreen_labels(&areas, &vec![]).is_empty());
}

#[test]
fn monitor_centers() {
    assert_eq!(monitor_center(0, 0, 1920, 1080), (960, 540));
    assert_eq!(monitor_center(-1920, 100, 1921, 1), (-960, 100));
    assert_eq!(monitor_center(0, 0, u32::MAX, 2), (0, 1));
    assert_eq!(monitor_center(i32::MAX, i32::MAX, 4, 2), (i32::MIN + 1, i32::MIN));
}

#[test]
fn one_window_spanning_two_screens_makes_both_full_screen() {
    let areas = vec![
        WorkArea { label: "wallpaper-1".to_string(), rect: Rect { left: 0, top: 0, right: 1920, bottom: 1040 } },
        WorkArea { label: "wallpaper-2".to_string(), rect: Rect { left: 1920, top: 0, right: 3840, bottom: 1040 } },
        WorkArea { label: "wallpaper-3".to_string(), rect: Rect { left: 3840, top: 0, right: 5760, bottom: 1040 } },
    ];
    let span = Some(Rect { left: -8, top: -8, right: 3848, bottom: 1048 });
    let windows = vec![window("Game", span)];
    assert_eq!(detect_fullscreen_labels(&areas, &windows), vec!["wallpaper-1", "wallpaper-2"]);
}
