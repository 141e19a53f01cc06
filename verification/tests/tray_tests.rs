use livepaper::tray::{tray_action, TrayAction};

#[test]
fn tray_items() {
    assert_eq!(tray_action("show"), Some(TrayAction::ShowMainWindow));
    assert_eq!(tray_action("pause"), Some(TrayAction::TogglePause));
    assert_eq!(tray_action("start"), Some(TrayAction::StartWallpaper));
    assert_eq!(tray_action("stop"), Some(TrayAction::StopWallpaper));
    assert_eq!(tray_action("quit"), Some(TrayAction::Quit));
    assert_eq!(tray_action("other"), None);
}
