//! Video optimization (decode, scale or drop frames, encode to H.264): one task at a
//! time; the target plan, which frames are kept, where the output and the backed-up
//! source video go, and how the outcome is reported.
use vstd::prelude::*;

use crate::gallery::{spec_dedupe_backup_path, stem_or_video};
use crate::path::{spec_file_name, spec_join, spec_with_file_name};
use crate::probe::VideoMeta;
use crate::text::{chars_of, string_from_chars, string_of};

verus! {

/// The single-task guard and the cancel request of the optimizer.
pub struct TranscodeGate {
    running: bool,
    cancel: bool,
}

impl TranscodeGate {
    pub closed spec fn spec_running(&self) -> bool {
        self.running
    }

    pub closed spec fn spec_cancel(&self) -> bool {
        self.cancel
    }

    /// No task running, no cancel request.
    pub fn new() -> (r: Self)
        ensures
            !r.spec_running(),
            !r.spec_cancel(),
    {
        TranscodeGate { running: false, cancel: false }
    }

    /// Claims the optimizer for a new task; refused while another one runs.
    pub fn try_start(&mut self) -> (r: Result<(), String>)
        ensures
            old(self).spec_running() ==> (r matches Err(m) && m@ == "已有优化任务进行中，请稍候"@
                && final(self).spec_running() && final(self).spec_cancel() == old(self).spec_cancel()),
            !old(self).spec_running() ==> r is Ok && final(self).spec_running() && final(self).spec_cancel() == old(self).spec_cancel(),
    {
        if self.running {
            return Err(string_of("已有优化任务进行中，请稍候"));
        }
        self.running = true;
        Ok(())
    }

    /// A task is about to run: earlier cancel requests no longer count.
    pub fn clear_cancel(&mut self)
        ensures
            !final(self).spec_cancel(),
            final(self).spec_running() == old(self).spec_running(),
    {
        self.cancel = false;
    }

    /// The task ended (or never started): the optimizer is free again.
    pub fn finish(&mut self)
        ensures
            !final(self).spec_running(),
            final(self).spec_cancel() == old(self).spec_cancel(),
    {
        self.running = false;
    }

    /// Whether cancelling the running task was requested.
    pub fn is_cancelled(&self) -> (r: bool)
        ensures
            r == self.spec_cancel(),
    {
        self.cancel
    }
}

/// Requests cancelling the running task.
pub fn optimize_cancel(gate: &mut TranscodeGate)
    ensures
        final(gate).spec_cancel(),
        final(gate).spec_running() == old(gate).spec_running(),
{
    gate.cancel = true;
}

/// The error a cancelled task ends with.
pub fn cancelled_message() -> (r: String)
    ensures
        r@ == "已取消"@,
{
    string_of("已取消")
}

/// Target of a transcode: even dimensions and an exact frame rate.
#[derive(Clone, Copy, PartialEq, Eq, Structural)]
pub struct TranscodePlan {
    pub out_w: u32,
    pub out_h: u32,
    pub fps_num: u32,
    pub fps_den: u32,
}

/// `x` rounded down to an even number.
pub open spec fn even_down(x: u32) -> u32 {
    (x - x % 2) as u32
}

/// Target width: 0 keeps the source width; then rounded down to even.
pub open spec fn target_dim(target: u32, source: u32) -> u32 {
    even_down(
        if target == 0 {
            source
        } else {
            target
        },
    )
}

/// Target frame rate: the one asked for when both parts are positive, else the
/// source's when known, else 30/1.
pub open spec fn target_fps(num: u32, den: u32, meta: VideoMeta) -> (u32, u32) {
    if num > 0 && den > 0 {
        (num, den)
    } else if meta.fps_num > 0 && meta.fps_den > 0 {
        (meta.fps_num, meta.fps_den)
    } else {
        (30u32, 1u32)
    }
}

fn even_down_exec(x: u32) -> (r: u32)
    ensures
        r == even_down(x),
{
    assert(x & 1u32 == x % 2) by (bit_vector);
    x - (x & 1)
}

/// The plan of a transcode of a video with metadata `meta` to `target_width` x
/// `target_height` at `fps_num / fps_den` (0 keeps the source's value). Refused when
/// a dimension ends up 0, when it would enlarge the video, or below 12 frames per second.
/// The frame-rate check compares `fps_num < 12 * fps_den` exactly; for 32-bit parts this
/// decides as the floating-point quotient compared with 12 does.
pub fn plan_transcode(
    target_width: u32,
    target_height: u32,
    fps_num: u32,
    fps_den: u32,
    meta: &VideoMeta,
) -> (r: Result<TranscodePlan, String>)
    ensures
        ({
            let w = target_dim(target_width, meta.width);
            let h = target_dim(target_height, meta.height);
            let (n, d) = target_fps(fps_num, fps_den, *meta);
            if w == 0 || h == 0 {
                r matches Err(m) && m@ == "目标分辨率无效"@
            } else if w > meta.width || h > meta.height {
                r matches Err(m) && m@ == "目标分辨率不能超过源视频"@
            } else if n < 12 * d {
                r matches Err(m) && m@ == "目标帧率过低"@
            } else {
                r == Ok::<TranscodePlan, String>(
                    TranscodePlan { out_w: w, out_h: h, fps_num: n, fps_den: d },
                )
            }
        }),
        r matches Ok(p) ==> {
            &&& 0 < p.out_w <= meta.width
            &&& 0 < p.out_h <= meta.height
            &&& p.out_w % 2 == 0
            &&& p.out_h % 2 == 0
            &&& p.fps_den > 0
            &&& p.fps_num >= 12 * p.fps_den
        },
{
    let out_w = even_down_exec(
        if target_width == 0 {
            meta.width
        } else {
            target_width
        },
    );
    let out_h = even_down_exec(
        if target_height == 0 {
            meta.height
        } else {
            target_height
        },
    );
    if out_w == 0 || out_h == 0 {
        return Err(string_of("目标分辨率无效"));
    }
    if out_w > meta.width || out_h > meta.height {
        return Err(string_of("目标分辨率不能超过源视频"));
    }
    let (n, d) = if fps_num > 0 && fps_den > 0 {
        (fps_num, fps_den)
    } else if meta.fps_num > 0 && meta.fps_den > 0 {
        (meta.fps_num, meta.fps_den)
    } else {
        (30u32, 1u32)
    };
    if (n as u64) < 12 * (d as u64) {
        return Err(string_of("目标帧率过低"));
    }
    Ok(TranscodePlan { out_w, out_h, fps_num: n, fps_den: d })
}

/// Frame dropping when the frame rate is lowered: a frame is kept when it comes
/// `interval` (100 ns units) or more after the last kept one; an interval of 0 keeps all.
pub struct FrameGate {
    interval: i64,
    next_accept: i64,
}

impl FrameGate {
    pub closed spec fn spec_interval(&self) -> i64 {
        self.interval
    }

    pub closed spec fn spec_next_accept(&self) -> i64 {
        self.next_accept
    }

    /// A gate with the given interval; the first frame is kept when its time is not negative.
    pub fn new(interval: i64) -> (r: Self)
        ensures
            r.spec_interval() == interval,
            r.spec_next_accept() == 0,
    {
        FrameGate { interval, next_accept: 0 }
    }

    /// Whether the frame at `t` is written. The next accepted time is `t + interval`
    /// in 64-bit arithmetic, wrapping around on overflow.
    pub fn accept(&mut self, t: i64) -> (r: bool)
        ensures
            final(self).spec_interval() == old(self).spec_interval(),
            old(self).spec_interval() <= 0 ==> r && final(self).spec_next_accept() == old(self).spec_next_accept(),
            old(self).spec_interval() > 0 && t < old(self).spec_next_accept() ==> !r && final(self).spec_next_accept() == old(self).spec_next_accept(),
            old(self).spec_interval() > 0 && t >= old(self).spec_next_accept() ==> r && final(self).spec_next_accept() == (t + old(self).spec_interval()) as i64,
    {
        if self.interval > 0 {
            if t < self.next_accept {
                return false;
            }
            self.next_accept = #[verifier::truncate] ((t as i128 + self.interval as i128) as i64);
        }
        true
    }
}

/// Name of the encoder's output beside the source: `<stem>.tmp.mp4`.
pub open spec fn temp_name(path: Seq<char>) -> Seq<char> {
    stem_or_video(path) + seq!['.', 't', 'm', 'p', '.', 'm', 'p', '4']
}

/// Where the encoder writes: the source's folder, file `<stem>.tmp.mp4`.
pub fn temp_output_path(path: &str) -> (r: String)
    ensures
        r@ == spec_with_file_name(path@, temp_name(path@)),
{
    let p = chars_of(path);
    let mut n = crate::gallery::stem_or_video_chars(&p);
    let ghost st = n@;
    n.push('.');
    n.push('t');
    n.push('m');
    n.push('p');
    n.push('.');
    n.push('m');
    n.push('p');
    n.push('4');
    assert(n@ =~= temp_name(path@));
    string_from_chars(&crate::path::with_file_name_chars(&p, &n))
}

/// Law: the encoder's output is written in the folder of the source video
/// (for a source whose name does not start with a drive).
pub proof fn law_temp_output_beside_source(path: Seq<char>)
    requires
        spec_file_name(path) is Some,
        crate::path::prefix_len(stem_or_video(path)) == 0,
    ensures
        crate::path::spec_starts_with(
            spec_with_file_name(path, temp_name(path)),
            crate::path::spec_parent_of_file(path)->0,
        ),
{
    let n = spec_file_name(path)->0;
    let lo = crate::path::prefix_len(path);
    crate::path::lemma_name_bounds_range(path, lo, path.len() as int);
    let st = stem_or_video(path);
    let t = temp_name(path);
    assert(st == crate::path::name_stem(n));
    crate::path::lemma_last_dot(n, n.len() as int);
    let (s, e) = crate::path::last_name_bounds(path, lo, path.len() as int)->0;
    assert(n == path.subrange(s, e));
    assert forall|i: int| 0 <= i < st.len() implies !crate::path::is_sep(#[trigger] st[i]) by {
        assert(st[i] == n[i]);
        assert(n[i] == path[s + i]);
    }
    assert(crate::path::is_plain_component(t)) by {
        if st.len() >= 2 {
            assert(t[0] == st[0] && t[1] == st[1]);
        } else if st.len() == 1 {
            assert(t[1] == '.');
        }
        assert forall|i: int| 0 <= i < t.len() implies !crate::path::is_sep(#[trigger] t[i]) by {
            if i < st.len() {
                assert(t[i] == st[i]);
            }
        }
    }
    crate::path::law_with_file_name_stays_beside(path, t);
}

/// The backup folder in the app's local data folder: `<data>\backup`.
pub fn backup_dir(data_dir: &str) -> (r: String)
    ensures
        r@ == spec_join(data_dir@, seq!['b', 'a', 'c', 'k', 'u', 'p']),
{
    let name = vec!['b', 'a', 'c', 'k', 'u', 'p'];
    assert(name@ =~= seq!['b', 'a', 'c', 'k', 'u', 'p']);
    string_from_chars(&crate::path::join_chars(&chars_of(data_dir), &name))
}

/// After a successful encode: the source's file name and where the source video is backed
/// up in `backup_dir`, whose file names are `taken`.
pub fn backup_target(path: &str, backup_dir: &str, taken: &Vec<String>) -> (r: Result<
    (String, String),
    String,
>)
    ensures
        match spec_file_name(path@) {
            Some(n) => r matches Ok((name, target)) && name@ == n && target@
                == spec_dedupe_backup_path(backup_dir@, n, taken@),
            None => r matches Err(m) && m@ == "文件名异常"@,
        },
{
    match crate::path::file_name(path) {
        Some(name) => {
            let target = crate::gallery::dedupe_backup_path(backup_dir, name.as_str(), taken);
            Ok((name, target))
        },
        None => Err(string_of("文件名异常")),
    }
}

/// How a task ended, as reported to the front end.
pub struct TranscodeDone {
    pub path: String,
    pub ok: bool,
    pub cancelled: bool,
    pub error: Option<String>,
}

/// The report of the task on `path` that ended with `result`: a success, a
/// cancellation (the error `已取消`), or a failure with its error.
pub fn done_status(path: String, result: Result<(), String>) -> (r: TranscodeDone)
    ensures
        r.path == path,
        match result {
            Ok(()) => r.ok && !r.cancelled && r.error is None,
            Err(e) => !r.ok && if e@ == "已取消"@ {
                r.cancelled && r.error is None
            } else {
                !r.cancelled && r.error == Some(e)
            },
        },
{
    match result {
        Ok(()) => TranscodeDone { path, ok: true, cancelled: false, error: None },
        Err(e) => {
            if e == cancelled_message() {
                TranscodeDone { path, ok: false, cancelled: true, error: None }
            } else {
                TranscodeDone { path, ok: false, cancelled: false, error: Some(e) }
            }
        },
    }
}

/// UTF-16 code units of one character.
pub open spec fn utf16_of(c: char) -> Seq<u16> {
    let v = c as u32;
    if v < 0x10000 {
        seq![v as u16]
    } else {
        seq![(0xD800 + (v - 0x10000) / 0x400) as u16, (0xDC00 + (v - 0x10000) % 0x400) as u16]
    }
}

/// UTF-16 encoding of a text.
pub open spec fn utf16(s: Seq<char>) -> Seq<u16>
    decreases s.len(),
{
    if s.len() == 0 {
        Seq::<u16>::empty()
    } else {
        utf16(s.drop_last()) + utf16_of(s.last())
    }
}

/// A path as Win32 takes it: UTF-16 followed by a terminating 0.
pub fn wide(path: &str) -> (r: Vec<u16>)
    ensures
        r@ == utf16(path@).push(0u16),
{
    let cs = chars_of(path);
    let mut out: Vec<u16> = Vec::new();
    let mut i: usize = 0;
    while i < cs.len()
        invariant
            i <= cs.len(),
            cs@ == path@,
            out@ == utf16(cs@.subrange(0, i as int)),
        decreases cs.len() - i,
    {
        let c = cs[i];
        let v = c as u32;
        let ghost before = out@;
        proof {
            vstd::utf8::char_is_scalar(c);
        }
        if v < 0x10000 {
            out.push(v as u16);
        } else {
            let u = v - 0x10000;
            out.push((0xD800 + u / 0x400) as u16);
            out.push((0xDC00 + u % 0x400) as u16);
        }
        proof {
            let sub = cs@.subrange(0, i + 1);
            assert(sub.drop_last() =~= cs@.subrange(0, i as int));
            assert(sub.last() == c);
            assert(out@ =~= before + utf16_of(c));
        }
        i = i + 1;
    }
    proof {
        assert(cs@.subrange(0, cs@.len() as int) =~= cs@);
    }
    out.push(0);
    out
}

} // verus!
