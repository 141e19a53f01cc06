use livepaper::gallery::{
    check_import_source, dedupe_backup_path, dedupe_name, ensure_inside, entry_cache_paths,
    ext_of, gallery_entry, imported_entry, import_name, import_target, is_image, is_listed, is_video, list_gallery,
    media_kind, meta_path_for, prepare_thumbnail, sort_by_modified, thumb_path_for,
    thumbnail_from_decoded, thumbnail_payload, backfill_candidate, GalleryEntry, GalleryItem,
};
use livepaper::probe::VideoMeta;

fn meta() -> VideoMeta {
    VideoMeta { width: 1920, height: 1080, fps_num: 30000, fps_den: 1001, duration_ms: 12000 }
}

fn item(path: &str, is_file: bool, modified: Option<u64>, thumb: bool) -> GalleryItem {
    GalleryItem {
        path: path.to_string(),
        is_file,
        size_bytes: 100,
        modified_ms: modified,
        thumb_exists: thumb,
        meta: Some(meta()),
    }
}

#[test]
fn extensions_ignore_letter_case() {
    assert_eq!(ext_of("C:\\w\\Sea.MP4"), Some("mp4".to_string()));
    assert_eq!(ext_of("C:\\w\\.hidden"), None);
    assert_eq!(ext_of("C:\\w\\noext"), None);
    assert!(is_video("C:\\w\\Sea.MP4"));
    assert!(is_video("a.webm"));
    assert!(is_video("a.M4v"));
    assert!(!is_video("a.mkv"));
    assert!(is_image("a.JPEG"));
    assert!(is_image("a.gif"));
    assert!(!is_image("a.mp4"));
}

#[test]
fn kind_is_image_or_video() {
    assert_eq!(media_kind("a.png"), "image");
    assert_eq!(media_kind("a.mp4"), "video");
    assert_eq!(media_kind("a.txt"), "video");
}

#[test]
fn cover_and_sidecar_paths() {
    assert_eq!(thumb_path_for("C:\\w", "a.mp4"), "C:\\w\\.thumbs\\a.mp4.jpg");
    assert_eq!(meta_path_for("C:\\w", "a.mp4"), "C:\\w\\.thumbs\\a.mp4.json");
    assert_eq!(
        entry_cache_paths("C:\\w", "C:\\w\\a.mp4"),
        Some(("C:\\w\\.thumbs\\a.mp4.jpg".to_string(), "C:\\w\\.thumbs\\a.mp4.json".to_string()))
    );
    assert_eq!(entry_cache_paths("C:\\w", "C:\\"), None);
}

#[test]
fn entries_of_videos_and_images() {
    let v = gallery_entry("C:\\w", "C:\\w\\a.mp4".to_string(), 5, Some(7), true, Some(meta()));
    assert_eq!(v.name, "a.mp4");
    assert_eq!(v.kind, "video");
    assert_eq!(v.thumb_path, Some("C:\\w\\.thumbs\\a.mp4.jpg".to_string()));
    assert_eq!(v.meta, Some(meta()));
    let v2 = gallery_entry("C:\\w", "C:\\w\\a.mp4".to_string(), 5, Some(7), false, None);
    assert_eq!(v2.thumb_path, None);
    let i = gallery_entry("C:\\w", "C:\\w\\b.png".to_string(), 5, None, false, Some(meta()));
    assert_eq!(i.kind, "image");
    assert_eq!(i.thumb_path, Some("C:\\w\\b.png".to_string()));
    assert_eq!(i.meta, None);
}

#[test]
fn listing_filters_and_sorts_newest_first() {
    assert!(!is_listed("C:\\w\\x.txt", true));
    assert!(!is_listed("C:\\w\\a.mp4", false));
    let items = vec![
        item("C:\\w\\old.mp4", true, Some(10), false),
        item("C:\\w\\notes.txt", true, Some(99), false),
        item("C:\\w\\new.png", true, Some(30), false),
        item("C:\\w\\dir.mp4", false, Some(50), false),
        item("C:\\w\\unknown.webm", true, None, false),
        item("C:\\w\\tie1.mp4", true, Some(20), false),
        item("C:\\w\\tie2.mp4", true, Some(20), false),
    ];
    let names: Vec<String> = list_gallery("C:\\w", items).into_iter().map(|e| e.name).collect();
    assert_eq!(names, vec!["new.png", "tie1.mp4", "tie2.mp4", "old.mp4", "unknown.webm"]);
}

#[test]
fn sort_is_stable_and_keeps_every_entry() {
    let mk = |n: &str, m: Option<u64>| GalleryEntry {
        name: n.to_string(),
        path: n.to_string(),
        kind: "video".to_string(),
        size_bytes: 0,
        modified_ms: m,
        thumb_path: None,
        meta: None,
    };
    let sorted = sort_by_modified(vec![mk("a", None), mk("b", Some(5)), mk("c", None), mk("d", Some(5)), mk("e", Some(9))]);
    let names: Vec<String> = sorted.into_iter().map(|e| e.name).collect();
    assert_eq!(names, vec!["e", "b", "d", "a", "c"]);
    assert!(sort_by_modified(vec![]).is_empty());
}

#[test]
fn dedupe_name_appends_counter() {
    let taken = vec!["video.mp4".to_string(), "video (2).mp4".to_string()];
    assert_eq!(dedupe_name("sea.mp4", &taken, 1), "sea.mp4");
    assert_eq!(dedupe_name("video.mp4", &taken, 1), "video (3).mp4");
    let taken = vec!["README".to_string()];
    assert_eq!(dedupe_name("README", &taken, 1), "README (2)");
    let mut all = vec!["a.mp4".to_string()];
    for i in 2..1000 {
        all.push(format!("a ({i}).mp4"));
    }
    assert_eq!(dedupe_name("a.mp4", &all, 1700000000123), "a (1700000000123).mp4");
}

#[test]
fn dedupe_backup_path_falls_back_to_backup_suffix() {
    assert_eq!(dedupe_backup_path("C:\\b", "a.mp4", &vec![]), "C:\\b\\a.mp4");
    assert_eq!(dedupe_backup_path("C:\\b", "a.mp4", &vec!["a.mp4".to_string()]), "C:\\b\\a (2).mp4");
    let mut all = vec!["a.mp4".to_string()];
    for i in 2..1000 {
        all.push(format!("a ({i}).mp4"));
    }
    assert_eq!(dedupe_backup_path("C:\\b", "a.mp4", &all), "C:\\b\\a-backup.mp4");
}

#[test]
fn import_checks() {
    assert_eq!(check_import_source("C:\\x\\a.mp4", false), Err("源文件不存在".to_string()));
    assert_eq!(
        check_import_source("C:\\x\\a.mkv", true),
        Err("仅支持视频（mp4/webm/m4v）或图片（jpg/png/webp/bmp/gif）".to_string())
    );
    assert_eq!(check_import_source("C:\\x\\a.PNG", true), Ok(()));
    assert_eq!(import_name("C:\\x\\a.mp4"), Ok("a.mp4".to_string()));
    assert_eq!(import_name("C:\\"), Err("文件名异常".to_string()));
}

#[test]
fn imported_entries() {
    let v = imported_entry("C:\\w\\a.mp4".to_string(), "a.mp4".to_string(), 3, Some(4), Some(meta()));
    assert_eq!(v.kind, "video");
    assert_eq!(v.thumb_path, None);
    assert_eq!(v.meta, Some(meta()));
    let i = imported_entry("C:\\w\\a.jpg".to_string(), "a.jpg".to_string(), 3, Some(4), Some(meta()));
    assert_eq!(i.kind, "image");
    assert_eq!(i.thumb_path, Some("C:\\w\\a.jpg".to_string()));
    assert_eq!(i.meta, None);
}

#[test]
fn backfill_only_video_files() {
    assert_eq!(backfill_candidate("C:\\w\\a.mp4", true), Some("a.mp4".to_string()));
    assert_eq!(backfill_candidate("C:\\w\\a.mp4", false), None);
    assert_eq!(backfill_candidate("C:\\w\\a.png", true), None);
}

#[test]
fn ensure_inside_guards_the_folder() {
    let dir = Ok("C:\\w".to_string());
    assert_eq!(ensure_inside(&dir, &Some("C:\\w\\a.mp4".to_string())), Ok(()));
    assert_eq!(
        ensure_inside(&dir, &Some("C:\\other\\a.mp4".to_string())),
        Err("路径不在壁纸目录内".to_string())
    );
    assert_eq!(ensure_inside(&dir, &None), Err("文件不存在或已被移动".to_string()));
    assert_eq!(
        ensure_inside(&Err("拒绝访问".to_string()), &None),
        Err("解析目录失败: 拒绝访问".to_string())
    );
}

#[test]
fn thumbnail_payload_needs_the_jpeg_prefix() {
    assert_eq!(thumbnail_payload("data:image/jpeg;base64,QUJD"), Some(b"QUJD".to_vec()));
    assert_eq!(thumbnail_payload("data:image/png;base64,QUJD"), None);
    assert_eq!(thumbnail_payload("data:"), None);
}

#[test]
fn thumbnail_decoding() {
    assert_eq!(
        prepare_thumbnail("C:\\w", "C:\\w\\a.mp4", "data:image/jpeg;base64,aGVsbG8="),
        Ok(("C:\\w\\.thumbs\\a.mp4.jpg".to_string(), b"hello".to_vec()))
    );
    assert_eq!(
        prepare_thumbnail("C:\\w", "C:\\", "data:image/jpeg;base64,aGVsbG8="),
        Err("文件名异常".to_string())
    );
    assert_eq!(
        prepare_thumbnail("C:\\w", "C:\\w\\a.mp4", "aGVsbG8="),
        Err("封面数据格式异常".to_string())
    );
    let e = prepare_thumbnail("C:\\w", "C:\\w\\a.mp4", "data:image/jpeg;base64,aGVsbG8").unwrap_err();
    assert!(e.starts_with("封面数据解码失败: "));
    let e = prepare_thumbnail("C:\\w", "C:\\w\\a.mp4", "data:image/jpeg;base64,a*==").unwrap_err();
    assert!(e.starts_with("封面数据解码失败: "));
}

#[test]
fn thumbnail_from_decoded_results() {
    assert_eq!(
        thumbnail_from_decoded("C:\\w", "a.mp4", Ok(vec![1, 2])),
        Ok(("C:\\w\\.thumbs\\a.mp4.jpg".to_string(), vec![1, 2]))
    );
    assert_eq!(
        thumbnail_from_decoded("C:\\w", "a.mp4", Err("Invalid padding".to_string())),
        Err("封面数据解码失败: Invalid padding".to_string())
    );
}

#[test]
fn covers_and_sidecars_stay_in_the_folder() {
    for (d, n) in [("C:\\w", "a.mp4"), ("C:\\w\\", ""), ("C:", "x"), ("", "b.webm")] {
        assert!(livepaper::path::starts_with(&thumb_path_for(d, n), d));
        assert!(livepaper::path::starts_with(&meta_path_for(d, n), d));
    }
}

#[test]
fn no_file_is_both_kinds() {
    for p in ["a.mp4", "a.webm", "a.m4v", "a.jpg", "a.jpeg", "a.png", "a.webp", "a.bmp", "a.gif", "a"] {
        assert!(!(is_video(p) && is_image(p)));
    }
}

#[test]
fn dedupe_ignores_letter_case() {
    let taken = vec!["clip.mp4".to_string()];
    assert_eq!(dedupe_name("Clip.MP4", &taken, 1), "Clip (2).MP4");
    let taken = vec!["CLIP.MP4".to_string(), "clip (2).mp4".to_string()];
    assert_eq!(dedupe_name("clip.mp4", &taken, 1), "clip (3).mp4");
    assert_eq!(dedupe_name("Été.mp4", &vec!["été.MP4".to_string()], 1), "Été (2).mp4");
    assert_eq!(
        dedupe_backup_path("C:\\b", "A.mp4", &vec!["a.MP4".to_string()]),
        "C:\\b\\A (2).mp4"
    );
}

#[test]
fn import_target_joins_deduplicated_name() {
    let taken = vec!["sea.jpg".to_string()];
    assert_eq!(
        import_target("C:\\w", "D:\\pics\\Sea.JPG", &taken, 7),
        Ok(("Sea (2).JPG".to_string(), "C:\\w\\Sea (2).JPG".to_string()))
    );
    assert_eq!(
        import_target("C:\\w", "D:\\v\\clip.webm", &vec![], 7),
        Ok(("clip.webm".to_string(), "C:\\w\\clip.webm".to_string()))
    );
    assert_eq!(import_target("C:\\w", "D:\\", &vec![], 7), Err("文件名异常".to_string()));
    let (_, dest) = import_target("C:\\w", "D:\\pics\\Sea.JPG", &taken, 7).unwrap();
    assert!(is_image(&dest) && is_image("D:\\pics\\Sea.JPG"));
}

#[test]
fn names_compare_as_the_file_system_does() {
    assert_eq!(dedupe_name("x\u{3c3}.mp4", &vec!["x\u{3a3}.mp4".to_string()], 1), "x\u{3c3} (2).mp4");
    assert_eq!(dedupe_name("x\u{3c2}.mp4", &vec!["X\u{3c3}.MP4".to_string()], 1), "x\u{3c2} (2).mp4");
    assert_eq!(dedupe_name("\u{212a}.mp4", &vec!["k.mp4".to_string()], 1), "\u{212a}.mp4");
    assert_eq!(dedupe_name("stra\u{df}e.mp4", &vec!["STRASSE.mp4".to_string()], 1), "stra\u{df}e.mp4");
}
