use livepaper::probe::{duration_ms_from, pack_u32_pair, unpack_frame_rate, unpack_frame_size, video_meta_from, VideoMeta};

#[test]
fn frame_size_round_trip() {
    let packed = pack_u32_pair(1080, 1920);
    assert_eq!(packed, (1080u64 << 32) | 1920);
    assert_eq!(unpack_frame_size(packed), (1920, 1080));
}

#[test]
fn frame_rate_round_trip_and_unknown() {
    assert_eq!(unpack_frame_rate(Some(pack_u32_pair(30000, 1001))), (30000, 1001));
    assert_eq!(unpack_frame_rate(Some(25)), (0, 0));
    assert_eq!(unpack_frame_rate(None), (0, 0));
}

#[test]
fn durations_in_milliseconds() {
    assert_eq!(duration_ms_from(Some(123_456_789)), 12_345);
    assert_eq!(duration_ms_from(None), 0);
    let m = video_meta_from(pack_u32_pair(720, 1280), Some(pack_u32_pair(60, 1)), Some(50_000_000));
    assert_eq!(m, VideoMeta { width: 1280, height: 720, fps_num: 60, fps_den: 1, duration_ms: 5000 });
}
