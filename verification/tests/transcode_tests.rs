use livepaper::probe::VideoMeta;
use livepaper::transcode::{
    backup_dir, backup_target, cancelled_message, done_status, optimize_cancel, plan_transcode,
    temp_output_path, wide, FrameGate, TranscodeGate, TranscodePlan,
};

fn meta(fps_num: u32, fps_den: u32) -> VideoMeta {
    VideoMeta { width: 1921, height: 1080, fps_num, fps_den, duration_ms: 1000 }
}

#[test]
fn plans_keep_even_sizes_and_never_enlarge() {
    let p = plan_transcode(0, 0, 0, 0, &meta(30000, 1001)).unwrap();
    assert!(p == TranscodePlan { out_w: 1920, out_h: 1080, fps_num: 30000, fps_den: 1001 });
    let p = plan_transcode(1281, 721, 24, 1, &meta(60, 1)).unwrap();
    assert!(p == TranscodePlan { out_w: 1280, out_h: 720, fps_num: 24, fps_den: 1 });
    let p = plan_transcode(1280, 720, 0, 0, &meta(0, 0)).unwrap();
    assert!(p == TranscodePlan { out_w: 1280, out_h: 720, fps_num: 30, fps_den: 1 });
    assert_eq!(plan_transcode(1, 720, 0, 0, &meta(30, 1)).err(), Some("目标分辨率无效".to_string()));
    assert_eq!(
        plan_transcode(3840, 2160, 0, 0, &meta(30, 1)).err(),
        Some("目标分辨率不能超过源视频".to_string())
    );
    assert_eq!(plan_transcode(0, 0, 11, 1, &meta(30, 1)).err(), Some("目标帧率过低".to_string()));
    assert!(plan_transcode(0, 0, 12, 1, &meta(30, 1)).is_ok());
    assert_eq!(plan_transcode(0, 0, 23, 2, &meta(30, 1)).err(), Some("目标帧率过低".to_string()));
}

#[test]
fn single_task_and_cancel() {
    let mut g = TranscodeGate::new();
    assert_eq!(g.try_start(), Ok(()));
    assert_eq!(g.try_start(), Err("已有优化任务进行中，请稍候".to_string()));
    assert!(!g.is_cancelled());
    optimize_cancel(&mut g);
    assert!(g.is_cancelled());
    g.finish();
    g.clear_cancel();
    assert!(!g.is_cancelled());
    assert_eq!(g.try_start(), Ok(()));
}

#[test]
fn frames_are_dropped_to_the_interval() {
    let mut g = FrameGate::new(400_000);
    let kept: Vec<i64> = [0i64, 166_833, 333_667, 500_500, 667_333, 834_167]
        .iter()
        .copied()
        .filter(|t| g.accept(*t))
        .collect();
    assert_eq!(kept, vec![0, 500_500]);
    let mut all = FrameGate::new(0);
    assert!(all.accept(5) && all.accept(1));
    let mut late = FrameGate::new(10);
    assert!(late.accept(i64::MAX - 3));
    assert!(!late.accept(i64::MIN));
    assert!(late.accept(i64::MIN + 6));
}

#[test]
fn output_and_backup_locations() {
    assert_eq!(temp_output_path("C:\\w\\sea.mp4"), "C:\\w\\sea.tmp.mp4");
    assert_eq!(temp_output_path("C:\\w\\a.b.webm"), "C:\\w\\a.b.tmp.mp4");
    assert_eq!(backup_dir("C:\\data"), "C:\\data\\backup");
    assert_eq!(
        backup_target("C:\\w\\sea.mp4", "C:\\data\\backup", &vec!["sea.mp4".to_string()]),
        Ok(("sea.mp4".to_string(), "C:\\data\\backup\\sea (2).mp4".to_string()))
    );
    assert_eq!(backup_target("C:\\", "C:\\b", &vec![]), Err("文件名异常".to_string()));
}

#[test]
fn outcome_reports() {
    let ok = done_status("a.mp4".to_string(), Ok(()));
    assert!(ok.ok && !ok.cancelled && ok.error.is_none());
    let c = done_status("a.mp4".to_string(), Err(cancelled_message()));
    assert!(!c.ok && c.cancelled && c.error.is_none());
    let e = done_status("a.mp4".to_string(), Err("写入视频帧失败".to_string()));
    assert!(!e.ok && !e.cancelled);
    assert_eq!(e.error, Some("写入视频帧失败".to_string()));
    assert_eq!(e.path, "a.mp4");
}

#[test]
fn wide_paths_are_utf16_with_a_terminator() {
    assert_eq!(wide("C:\\a"), vec![67, 58, 92, 97, 0]);
    assert_eq!(wide("壁"), vec![0x58C1, 0]);
    assert_eq!(wide("😀"), vec![0xD83D, 0xDE00, 0]);
    assert_eq!(wide(""), vec![0]);
    let s = "C:\\壁纸\\😀.mp4";
    let mut expect: Vec<u16> = s.encode_utf16().collect();
    expect.push(0);
    assert_eq!(wide(s), expect);
}

#[test]
fn temp_output_is_beside_the_source() {
    for p in ["C:\\w\\sea.mp4", "C:\\sea.mp4", "sea.mp4", "C:\\w\\.\\x.webm"] {
        let parent = livepaper::path::parent_of_file(p).unwrap();
        assert!(livepaper::path::starts_with(&temp_output_path(p), &parent), "{p}");
    }
}
