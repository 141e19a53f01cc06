use livepaper::path::{file_name, join, parent_of_file, starts_with};

#[test]
fn file_name_of_windows_paths() {
    assert_eq!(file_name("C:\\wallpapers\\sea.mp4"), Some("sea.mp4".to_string()));
    assert_eq!(file_name("C:/wallpapers/sea.mp4/"), Some("sea.mp4".to_string()));
    assert_eq!(file_name("C:\\wallpapers\\.\\sea.mp4\\."), Some("sea.mp4".to_string()));
    assert_eq!(file_name("C:sea.mp4"), Some("sea.mp4".to_string()));
    assert_eq!(file_name("C:\\wallpapers\\.."), None);
    assert_eq!(file_name("C:\\"), None);
    assert_eq!(file_name(""), None);
    assert_eq!(file_name("."), None);
}

#[test]
fn join_adds_one_separator() {
    assert_eq!(join("C:\\data", "wallpapers"), "C:\\data\\wallpapers");
    assert_eq!(join("C:\\data\\", "wallpapers"), "C:\\data\\wallpapers");
    assert_eq!(join("C:", "wallpapers"), "C:wallpapers");
    assert_eq!(join("", "wallpapers"), "wallpapers");
    assert_eq!(join("C:\\data", "D:\\x"), "D:\\x");
    assert_eq!(join("C:\\data", "\\x"), "C:\\x");
}

#[test]
fn parent_of_file_keeps_root() {
    assert_eq!(parent_of_file("C:\\w\\a.mp4"), Some("C:\\w".to_string()));
    assert_eq!(parent_of_file("C:\\a.mp4"), Some("C:\\".to_string()));
    assert_eq!(parent_of_file("a.mp4"), Some("".to_string()));
    assert_eq!(parent_of_file("a/./b.mp4"), Some("a".to_string()));
    assert_eq!(parent_of_file("C:\\"), None);
}

#[test]
fn starts_with_compares_components() {
    assert!(starts_with("C:\\data\\wallpapers\\a.mp4", "C:\\data\\wallpapers"));
    assert!(starts_with("c:\\data\\wallpapers\\a.mp4", "C:\\data\\wallpapers\\"));
    assert!(starts_with("C:/data/wallpapers/a.mp4", "C:\\data\\wallpapers"));
    assert!(!starts_with("C:\\data\\wallpapers2\\a.mp4", "C:\\data\\wallpapers"));
    assert!(!starts_with("C:\\data", "C:\\data\\wallpapers"));
    assert!(!starts_with("data\\wallpapers\\a.mp4", "C:\\data\\wallpapers"));
    assert!(!starts_with("D:\\data\\wallpapers\\a.mp4", "C:\\data\\wallpapers"));
}

#[test]
fn joined_paths_stay_inside() {
    for d in ["C:\\data", "C:\\data\\", "C:", "", ".", "a/.", "\\", "x/.."] {
        assert!(starts_with(&join(d, "wallpapers"), d), "{d}");
    }
}
