//! Full-screen detection: which screens are covered by an application window, and
//! which pause or resume events the poller sends so that a screen's wallpaper is
//! paused exactly while it is covered (or while the user is away).
use vstd::prelude::*;

use crate::strmap::StrMap;
use crate::text::string_of;

verus! {

/// The pause state of each screen (label -> paused), changed only through events.
pub struct PauseState {
    paused: StrMap<bool>,
}

impl View for PauseState {
    type V = Map<Seq<char>, bool>;

    closed spec fn view(&self) -> Map<Seq<char>, bool> {
        self.paused@
    }
}

/// The screen `l` is paused in `m`.
pub open spec fn paused_in(m: Map<Seq<char>, bool>, l: Seq<char>) -> bool {
    m.contains_key(l) && m[l]
}

impl PauseState {
    /// No screen paused.
    pub fn new() -> (r: Self)
        ensures
            r@ == Map::<Seq<char>, bool>::empty(),
    {
        PauseState { paused: StrMap::new() }
    }

    /// Records that the event for `label` was delivered.
    pub fn record(&mut self, label: String, paused: bool)
        ensures
            final(self)@ == old(self)@.insert(label@, paused),
    {
        self.paused.insert(label, paused);
    }

    /// The recorded state of `label`, if any.
    pub fn get(&self, label: &str) -> (r: Option<bool>)
        ensures
            r == (if self@.contains_key(label@) {
                Some(self@[label@])
            } else {
                None
            }),
    {
        match self.paused.get(label) {
            Some(b) => Some(*b),
            None => None,
        }
    }
}

/// Whether the screen `label` is currently paused.
pub fn is_paused(state: &PauseState, label: &str) -> (r: bool)
    ensures
        r == paused_in(state@, label@),
{
    match state.get(label) {
        Some(b) => b,
        None => false,
    }
}

/// A pause (`true`) or resume (`false`) event for one screen.
pub struct PauseEvent {
    pub label: String,
    pub paused: bool,
}

/// Whether the screen `l` should be paused: the user is away, or a full-screen window covers it.
pub open spec fn should_pause(l: Seq<char>, user_away: bool, covered: Seq<Seq<char>>) -> bool {
    user_away || covered.contains(l)
}

/// One poll over the screens `labels`, in order, from the state `m`: the state after it
/// and the events sent. With the feature on, a screen gets an event when its recorded
/// state differs from whether it should be paused; with it off, every paused screen is resumed.
pub open spec fn spec_tick(
    m: Map<Seq<char>, bool>,
    labels: Seq<Seq<char>>,
    enabled: bool,
    user_away: bool,
    covered: Seq<Seq<char>>,
) -> (Map<Seq<char>, bool>, Seq<(Seq<char>, bool)>)
    decreases labels.len(),
{
    if labels.len() == 0 {
        (m, Seq::<(Seq<char>, bool)>::empty())
    } else {
        let (m1, ev) = spec_tick(m, labels.drop_last(), enabled, user_away, covered);
        let l = labels.last();
        if !enabled {
            if paused_in(m1, l) {
                (m1.insert(l, false), ev.push((l, false)))
            } else {
                (m1, ev)
            }
        } else {
            let p = should_pause(l, user_away, covered);
            if m1.contains_key(l) && m1[l] == p {
                (m1, ev)
            } else {
                (m1.insert(l, p), ev.push((l, p)))
            }
        }
    }
}

pub open spec fn string_views(s: Seq<String>) -> Seq<Seq<char>> {
    s.map_values(|x: String| x@)
}

pub open spec fn event_views(s: Seq<PauseEvent>) -> Seq<(Seq<char>, bool)> {
    s.map_values(|e: PauseEvent| (e.label@, e.paused))
}

fn contains_label(v: &Vec<String>, l: &String) -> (r: bool)
    ensures
        r == string_views(v@).contains(l@),
{
    let mut i: usize = 0;
    while i < v.len()
        invariant
            i <= v.len(),
            forall|j: int| 0 <= j < i ==> v@[j]@ != l@,
        decreases v.len() - i,
    {
        if v[i] == *l {
            proof {
                assert(string_views(v@)[i as int] == l@);
            }
            return true;
        }
        i = i + 1;
    }
    proof {
        if string_views(v@).contains(l@) {
            let j = choose|j: int| 0 <= j < string_views(v@).len() && string_views(v@)[j] == l@;
            assert(v@[j]@ == l@);
        }
    }
    false
}

/// The events of one poll (see `spec_tick`), to be sent in order; after each one is
/// delivered the poller records it, so the state ends as `spec_tick` says.
/// `labels` are the screens in order, `covered` those a full-screen window covers.
pub fn plan_tick(
    state: &PauseState,
    labels: &Vec<String>,
    enabled: bool,
    user_away: bool,
    covered: &Vec<String>,
) -> (r: Vec<PauseEvent>)
    ensures
        event_views(r@) == spec_tick(
            state@,
            string_views(labels@),
            enabled,
            user_away,
            string_views(covered@),
        ).1,
{
    let mut m: StrMap<bool> = StrMap::new();
    let pairs = state.paused.pairs();
    let mut k: usize = 0;
    while k < pairs.len()
        invariant
            k <= pairs.len(),
            crate::strmap::keys_distinct(pairs@),
            crate::strmap::pairs_map(pairs@) == state@,
            forall|kk: Seq<char>|
                #[trigger] m@.contains_key(kk) <==> exists|j: int|
                    0 <= j < k && crate::strmap::key_at(pairs@, kk, j),
            forall|kk: Seq<char>| #[trigger] m@.contains_key(kk) ==> m@[kk] == state@[kk],
        decreases pairs.len() - k,
    {
        let ghost before = m@;
        m.insert(pairs[k].0.clone(), pairs[k].1);
        proof {
            let kk0 = pairs@[k as int].0@;
            assert(crate::strmap::key_at(pairs@, kk0, k as int));
            assert(crate::strmap::pairs_map(pairs@).dom().contains(kk0));
            let j0 = choose|j: int| crate::strmap::key_at(pairs@, kk0, j);
            assert(j0 == k);
            assert forall|kk: Seq<char>| #[trigger] m@.contains_key(kk) implies exists|j: int|
                0 <= j < k + 1 && crate::strmap::key_at(pairs@, kk, j) by {
                if kk != kk0 {
                    assert(before.contains_key(kk));
                }
            }
        }
        k = k + 1;
    }
    proof {
        assert forall|kk: Seq<char>| #[trigger] state@.contains_key(kk) implies m@.contains_key(
            kk,
        ) by {
            let j = choose|j: int| crate::strmap::key_at(pairs@, kk, j);
            assert(0 <= j < k);
        }
        assert(m@ =~= state@);
    }
    let mut out: Vec<PauseEvent> = Vec::new();
    let mut i: usize = 0;
    while i < labels.len()
        invariant
            i <= labels.len(),
            (m@, event_views(out@)) == spec_tick(
                state@,
                string_views(labels@).subrange(0, i as int),
                enabled,
                user_away,
                string_views(covered@),
            ),
        decreases labels.len() - i,
    {
        let l = &labels[i];
        proof {
            let sub = string_views(labels@).subrange(0, i + 1);
            assert(sub.drop_last() =~= string_views(labels@).subrange(0, i as int));
            assert(sub.last() == l@);
        }
        let ghost ev0 = event_views(out@);
        let cur = match m.get(l.as_str()) {
            Some(b) => Some(*b),
            None => None,
        };
        if !enabled {
            if cur == Some(true) {
                m.insert(l.clone(), false);
                out.push(PauseEvent { label: l.clone(), paused: false });
                proof {
                    assert(event_views(out@) =~= ev0.push((l@, false)));
                }
            }
        } else {
            let p = user_away || contains_label(covered, l);
            if cur != Some(p) {
                m.insert(l.clone(), p);
                out.push(PauseEvent { label: l.clone(), paused: p });
                proof {
                    assert(event_views(out@) =~= ev0.push((l@, p)));
                }
            }
        }
        i = i + 1;
    }
    proof {
        assert(string_views(labels@).subrange(0, labels@.len() as int) =~= string_views(labels@));
    }
    out
}

// ---------- which screens are covered ----------

/// A window or work-area rectangle in virtual-screen pixels.
#[derive(Clone, Copy, PartialEq, Eq, Structural)]
pub struct Rect {
    pub left: i32,
    pub top: i32,
    pub right: i32,
    pub bottom: i32,
}

/// The work area (screen minus task bar) of one screen.
pub struct WorkArea {
    pub label: String,
    pub rect: Rect,
}

/// What Win32 says of one top-level window.
pub struct WindowFacts {
    pub visible: bool,
    /// `GWL_EXSTYLE`.
    pub ex_style: u32,
    /// Cloaked (a suspended UWP app, another virtual desktop).
    pub cloaked: bool,
    pub class_name: String,
    /// `GetWindowRect`, `None` when it failed.
    pub rect: Option<Rect>,
}

/// `WS_EX_TOOLWINDOW`.
pub open spec fn ws_ex_toolwindow() -> u32 {
    0x0000_0080
}

/// Shell layers that cover a screen by nature: the desktop itself, task bars,
/// input-method and task-view overlays.
pub open spec fn is_shell_class(c: Seq<char>) -> bool {
    ||| c == "Progman"@
    ||| c == "WorkerW"@
    ||| c == "Shell_TrayWnd"@
    ||| c == "Shell_SecondaryTrayWnd"@
    ||| c == "Windows.UI.Core.CoreWindow"@
    ||| c == "XamlExplorerHostIslandWindow"@
}

/// A window can make a screen full-screen: visible, not a tool window, not cloaked,
/// not a shell layer, with a known rectangle.
pub open spec fn window_counts(w: WindowFacts) -> bool {
    &&& w.visible
    &&& w.ex_style & ws_ex_toolwindow() == 0
    &&& !w.cloaked
    &&& !is_shell_class(w.class_name@)
    &&& w.rect is Some
}

/// `r` covers all of `work` (a maximized window's frame reaches past the screen).
pub open spec fn covers(r: Rect, work: Rect) -> bool {
    r.left <= work.left && r.top <= work.top && r.right >= work.right && r.bottom >= work.bottom
}

/// Labels of the work areas among the first `n` of `areas` that `r` covers, in order.
pub open spec fn covered_labels(areas: Seq<WorkArea>, r: Rect, n: int) -> Seq<Seq<char>>
    decreases n,
{
    if n <= 0 {
        Seq::<Seq<char>>::empty()
    } else if covers(r, areas[n - 1].rect) {
        covered_labels(areas, r, n - 1).push(areas[n - 1].label@)
    } else {
        covered_labels(areas, r, n - 1)
    }
}

/// Labels of the covered screens: for each counting window in order, the labels of
/// all the work areas it covers, in order (a screen may appear more than once).
pub open spec fn spec_fullscreen_labels(areas: Seq<WorkArea>, windows: Seq<WindowFacts>) -> Seq<
    Seq<char>,
>
    decreases windows.len(),
{
    if windows.len() == 0 {
        Seq::<Seq<char>>::empty()
    } else {
        let rest = spec_fullscreen_labels(areas, windows.drop_last());
        let w = windows.last();
        if window_counts(w) {
            rest + covered_labels(areas, w.rect->0, areas.len() as int)
        } else {
            rest
        }
    }
}

/// The screen `l` is full-screen: some counting window covers a work area labelled `l`.
pub open spec fn is_covered_screen(areas: Seq<WorkArea>, windows: Seq<WindowFacts>, l: Seq<char>) -> bool {
    exists|i: int, j: int|
        0 <= i < windows.len() && 0 <= j < areas.len() && #[trigger] window_counts(windows[i])
            && covers(windows[i].rect->0, #[trigger] areas[j].rect) && areas[j].label@ == l
}

proof fn lemma_covered_labels(areas: Seq<WorkArea>, r: Rect, n: int, l: Seq<char>)
    requires
        0 <= n <= areas.len(),
    ensures
        covered_labels(areas, r, n).contains(l) <==> exists|j: int|
            0 <= j < n && covers(r, #[trigger] areas[j].rect) && areas[j].label@ == l,
    decreases n,
{
    if n > 0 {
        lemma_covered_labels(areas, r, n - 1, l);
        let c = covered_labels(areas, r, n - 1);
        if covers(r, areas[n - 1].rect) {
            let c2 = c.push(areas[n - 1].label@);
            if c2.contains(l) {
                let k = choose|k: int| 0 <= k < c2.len() && c2[k] == l;
                if k < c.len() {
                    assert(c[k] == l);
                }
            }
            if c.contains(l) {
                let k = choose|k: int| 0 <= k < c.len() && c[k] == l;
                assert(c2[k] == l);
            }
            if areas[n - 1].label@ == l {
                assert(c2[c.len() as int] == l);
            }
        }
    }
}

proof fn lemma_fullscreen_labels(areas: Seq<WorkArea>, windows: Seq<WindowFacts>, l: Seq<char>)
    ensures
        spec_fullscreen_labels(areas, windows).contains(l) <==> is_covered_screen(areas, windows, l),
    decreases windows.len(),
{
    if windows.len() > 0 {
        let ws = windows.drop_last();
        lemma_fullscreen_labels(areas, ws, l);
        let rest = spec_fullscreen_labels(areas, ws);
        let w = windows.last();
        assert forall|i: int| 0 <= i < ws.len() implies #[trigger] ws[i] == windows[i] by {}
        if window_counts(w) {
            let c = covered_labels(areas, w.rect->0, areas.len() as int);
            lemma_covered_labels(areas, w.rect->0, areas.len() as int, l);
            let all = rest + c;
            if all.contains(l) {
                let k = choose|k: int| 0 <= k < all.len() && all[k] == l;
                if k < rest.len() {
                    assert(rest[k] == l);
                    let (i, j) = choose|i: int, j: int|
                        0 <= i < ws.len() && 0 <= j < areas.len() && #[trigger] window_counts(ws[i])
                            && covers(ws[i].rect->0, #[trigger] areas[j].rect) && areas[j].label@ == l;
                    assert(windows[i] == ws[i]);
                } else {
                    assert(c[k - rest.len()] == l);
                    let j = choose|j: int|
                        0 <= j < areas.len() && covers(w.rect->0, #[trigger] areas[j].rect) && areas[j].label@ == l;
                    assert(window_counts(windows[windows.len() - 1]));
                }
            }
            if is_covered_screen(areas, windows, l) {
                let (i, j) = choose|i: int, j: int|
                    0 <= i < windows.len() && 0 <= j < areas.len() && #[trigger] window_counts(windows[i])
                        && covers(windows[i].rect->0, #[trigger] areas[j].rect) && areas[j].label@ == l;
                if i < ws.len() {
                    assert(window_counts(ws[i]) && areas[j].label@ == l);
                    assert(rest.contains(l));
                    let k = choose|k: int| 0 <= k < rest.len() && rest[k] == l;
                    assert(all[k] == l);
                } else {
                    assert(c.contains(l));
                    let k = choose|k: int| 0 <= k < c.len() && c[k] == l;
                    assert(all[rest.len() + k] == l);
                }
            }
        } else {
            if is_covered_screen(areas, windows, l) {
                let (i, j) = choose|i: int, j: int|
                    0 <= i < windows.len() && 0 <= j < areas.len() && #[trigger] window_counts(windows[i])
                        && covers(windows[i].rect->0, #[trigger] areas[j].rect) && areas[j].label@ == l;
                assert(i < ws.len());
                assert(window_counts(ws[i]));
            }
            if rest.contains(l) {
                let (i, j) = choose|i: int, j: int|
                    0 <= i < ws.len() && 0 <= j < areas.len() && #[trigger] window_counts(ws[i])
                        && covers(ws[i].rect->0, #[trigger] areas[j].rect) && areas[j].label@ == l;
                assert(windows[i] == ws[i]);
            }
        }
    }
}

/// Law: a screen is reported full-screen exactly when some window covers all of its
/// work area (its rectangle reaches at least as far left, up, right and down; a window
/// exactly the size of the work area counts) and that window is visible, not a tool
/// window, not cloaked, and not one of the shell layers `Progman`, `WorkerW`,
/// `Shell_TrayWnd`, `Shell_SecondaryTrayWnd`, `Windows.UI.Core.CoreWindow`,
/// `XamlExplorerHostIslandWindow`. One window can make several screens full-screen.
pub proof fn law_full_screen_is_containment(areas: Seq<WorkArea>, windows: Seq<WindowFacts>)
    ensures
        forall|l: Seq<char>|
            #[trigger] spec_fullscreen_labels(areas, windows).contains(l) <==> exists|i: int, j: int|
                #![trigger windows[i], areas[j]]
                0 <= i < windows.len() && 0 <= j < areas.len() && areas[j].label@ == l
                    && windows[i].visible && windows[i].ex_style & 0x80u32 == 0
                    && !windows[i].cloaked && windows[i].class_name@ != "Progman"@
                    && windows[i].class_name@ != "WorkerW"@
                    && windows[i].class_name@ != "Shell_TrayWnd"@
                    && windows[i].class_name@ != "Shell_SecondaryTrayWnd"@
                    && windows[i].class_name@ != "Windows.UI.Core.CoreWindow"@
                    && windows[i].class_name@ != "XamlExplorerHostIslandWindow"@
                    && windows[i].rect is Some && windows[i].rect->0.left <= areas[j].rect.left
                    && windows[i].rect->0.top <= areas[j].rect.top
                    && windows[i].rect->0.right >= areas[j].rect.right
                    && windows[i].rect->0.bottom >= areas[j].rect.bottom,
{
    assert forall|l: Seq<char>|
        #[trigger] spec_fullscreen_labels(areas, windows).contains(l) <==> exists|i: int, j: int|
            #![trigger windows[i], areas[j]]
            0 <= i < windows.len() && 0 <= j < areas.len() && areas[j].label@ == l
                && windows[i].visible && windows[i].ex_style & 0x80u32 == 0
                && !windows[i].cloaked && windows[i].class_name@ != "Progman"@
                && windows[i].class_name@ != "WorkerW"@
                && windows[i].class_name@ != "Shell_TrayWnd"@
                && windows[i].class_name@ != "Shell_SecondaryTrayWnd"@
                && windows[i].class_name@ != "Windows.UI.Core.CoreWindow"@
                && windows[i].class_name@ != "XamlExplorerHostIslandWindow"@
                && windows[i].rect is Some && windows[i].rect->0.left <= areas[j].rect.left
                && windows[i].rect->0.top <= areas[j].rect.top
                && windows[i].rect->0.right >= areas[j].rect.right
                && windows[i].rect->0.bottom >= areas[j].rect.bottom by {
        lemma_fullscreen_labels(areas, windows, l);
        if is_covered_screen(areas, windows, l) {
            let (i, j) = choose|i: int, j: int|
                0 <= i < windows.len() && 0 <= j < areas.len() && #[trigger] window_counts(windows[i])
                    && covers(windows[i].rect->0, #[trigger] areas[j].rect) && areas[j].label@ == l;
            assert(windows[i] == windows[i] && areas[j] == areas[j]);
        }
        if exists|i: int, j: int|
            #![trigger windows[i], areas[j]]
            0 <= i < windows.len() && 0 <= j < areas.len() && areas[j].label@ == l
                && windows[i].visible && windows[i].ex_style & 0x80u32 == 0
                && !windows[i].cloaked && windows[i].class_name@ != "Progman"@
                && windows[i].class_name@ != "WorkerW"@
                && windows[i].class_name@ != "Shell_TrayWnd"@
                && windows[i].class_name@ != "Shell_SecondaryTrayWnd"@
                && windows[i].class_name@ != "Windows.UI.Core.CoreWindow"@
                && windows[i].class_name@ != "XamlExplorerHostIslandWindow"@
                && windows[i].rect is Some && windows[i].rect->0.left <= areas[j].rect.left
                && windows[i].rect->0.top <= areas[j].rect.top
                && windows[i].rect->0.right >= areas[j].rect.right
                && windows[i].rect->0.bottom >= areas[j].rect.bottom {
            let (i, j) = choose|i: int, j: int|
                #![trigger windows[i], areas[j]]
                0 <= i < windows.len() && 0 <= j < areas.len() && areas[j].label@ == l
                    && windows[i].visible && windows[i].ex_style & 0x80u32 == 0
                    && !windows[i].cloaked && windows[i].class_name@ != "Progman"@
                    && windows[i].class_name@ != "WorkerW"@
                    && windows[i].class_name@ != "Shell_TrayWnd"@
                    && windows[i].class_name@ != "Shell_SecondaryTrayWnd"@
                    && windows[i].class_name@ != "Windows.UI.Core.CoreWindow"@
                    && windows[i].class_name@ != "XamlExplorerHostIslandWindow"@
                    && windows[i].rect is Some && windows[i].rect->0.left <= areas[j].rect.left
                    && windows[i].rect->0.top <= areas[j].rect.top
                    && windows[i].rect->0.right >= areas[j].rect.right
                    && windows[i].rect->0.bottom >= areas[j].rect.bottom;
            assert(window_counts(windows[i]));
            assert(covers(windows[i].rect->0, areas[j].rect));
        }
    }
}

fn is_shell_class_exec(c: &String) -> (r: bool)
    ensures
        r == is_shell_class(c@),
{
    *c == string_of("Progman") || *c == string_of("WorkerW") || *c == string_of("Shell_TrayWnd")
        || *c == string_of("Shell_SecondaryTrayWnd") || *c == string_of(
        "Windows.UI.Core.CoreWindow",
    ) || *c == string_of("XamlExplorerHostIslandWindow")
}

fn covered_labels_exec(areas: &Vec<WorkArea>, r: Rect, out: &mut Vec<String>)
    ensures
        string_views(final(out)@) == string_views(old(out)@) + covered_labels(areas@, r, areas@.len() as int),
{
    let ghost start = string_views(out@);
    let mut i: usize = 0;
    while i < areas.len()
        invariant
            i <= areas.len(),
            string_views(out@) == start + covered_labels(areas@, r, i as int),
        decreases areas.len() - i,
    {
        let w = areas[i].rect;
        let ghost before = string_views(out@);
        if r.left <= w.left && r.top <= w.top && r.right >= w.right && r.bottom >= w.bottom {
            out.push(areas[i].label.clone());
            proof {
                assert(string_views(out@) =~= before.push(areas@[i as int].label@));
                assert(start + covered_labels(areas@, r, i as int).push(areas@[i as int].label@)
                    =~= (start + covered_labels(areas@, r, i as int)).push(areas@[i as int].label@));
            }
        }
        i = i + 1;
    }
}

/// Labels of the screens that some application window covers completely (see
/// `spec_fullscreen_labels`); several screens can be full-screen at once, also by one
/// window that spans them. A label is in the result exactly when its screen is covered.
pub fn detect_fullscreen_labels(areas: &Vec<WorkArea>, windows: &Vec<WindowFacts>) -> (r: Vec<
    String,
>)
    ensures
        string_views(r@) == spec_fullscreen_labels(areas@, windows@),
        forall|l: Seq<char>|
            #[trigger] string_views(r@).contains(l) <==> is_covered_screen(areas@, windows@, l),
{
    let mut out: Vec<String> = Vec::new();
    let mut i: usize = 0;
    while i < windows.len()
        invariant
            i <= windows.len(),
            string_views(out@) == spec_fullscreen_labels(areas@, windows@.subrange(0, i as int)),
        decreases windows.len() - i,
    {
        let w = &windows[i];
        proof {
            let sub = windows@.subrange(0, i + 1);
            assert(sub.drop_last() =~= windows@.subrange(0, i as int));
            assert(sub.last() == *w);
        }
        if w.visible && w.ex_style & 0x0000_0080u32 == 0 && !w.cloaked && !is_shell_class_exec(
            &w.class_name,
        ) {
            match w.rect {
                Some(rect) => {
                    covered_labels_exec(areas, rect, &mut out);
                },
                None => {},
            }
        }
        i = i + 1;
    }
    proof {
        assert(windows@.subrange(0, windows@.len() as int) =~= windows@);
        assert forall|l: Seq<char>|
            #[trigger] string_views(out@).contains(l) <==> is_covered_screen(areas@, windows@, l) by {
            lemma_fullscreen_labels(areas@, windows@, l);
        }
    }
    out
}

/// `v / 2` rounded toward zero (integer division on `i32`).
pub open spec fn half_toward_zero(v: i32) -> int {
    if v >= 0 {
        v / 2
    } else {
        -((-v) / 2)
    }
}

/// The point at the middle of a screen at `(x, y)` of the given size, by which its
/// work area is looked up (32-bit, wrapping on overflow).
pub fn monitor_center(x: i32, y: i32, width: u32, height: u32) -> (r: (i32, i32))
    ensures
        r.0 == (x + half_toward_zero(width as i32)) as i32,
        r.1 == (y + half_toward_zero(height as i32)) as i32,
{
    let w = #[verifier::truncate] (width as i32);
    let h = #[verifier::truncate] (height as i32);
    (
        #[verifier::truncate] ((x as i64 + (w / 2) as i64) as i32),
        #[verifier::truncate] ((y as i64 + (h / 2) as i64) as i32),
    )
}

// ---------- laws ----------

/// Law: after a poll with the feature on, every polled screen is recorded as
/// paused exactly when it should be.
pub proof fn law_tick_settles(
    m: Map<Seq<char>, bool>,
    labels: Seq<Seq<char>>,
    user_away: bool,
    covered: Seq<Seq<char>>,
)
    ensures
        forall|i: int|
            0 <= i < labels.len() ==> {
                let m2 = spec_tick(m, labels, true, user_away, covered).0;
                m2.contains_key(#[trigger] labels[i]) && m2[labels[i]] == should_pause(
                    labels[i],
                    user_away,
                    covered,
                )
            },
    decreases labels.len(),
{
    if labels.len() > 0 {
        law_tick_settles(m, labels.drop_last(), user_away, covered);
        assert forall|i: int| 0 <= i < labels.len() implies {
            let m2 = spec_tick(m, labels, true, user_away, covered).0;
            m2.contains_key(#[trigger] labels[i]) && m2[labels[i]] == should_pause(
                labels[i],
                user_away,
                covered,
            )
        } by {
            if i < labels.len() - 1 {
                assert(labels.drop_last()[i] == labels[i]);
            }
        }
    }
}

/// The state after recording the events `ev` in order, starting from `m`.
pub open spec fn apply_events(m: Map<Seq<char>, bool>, ev: Seq<(Seq<char>, bool)>) -> Map<
    Seq<char>,
    bool,
>
    decreases ev.len(),
{
    if ev.len() == 0 {
        m
    } else {
        apply_events(m, ev.drop_last()).insert(ev.last().0, ev.last().1)
    }
}

/// An event `(l, b)` is due for a screen `l` whose recorded state is taken from `m`:
/// with the feature on, `b` is whether `l` should be paused and differs from what is
/// recorded; with it off, `l` is recorded as paused and `b` resumes it.
pub open spec fn event_due(
    m: Map<Seq<char>, bool>,
    l: Seq<char>,
    b: bool,
    enabled: bool,
    user_away: bool,
    covered: Seq<Seq<char>>,
) -> bool {
    if enabled {
        b == should_pause(l, user_away, covered) && !(m.contains_key(l) && m[l] == b)
    } else {
        !b && paused_in(m, l)
    }
}

/// Law: recording the events of a poll, in order, as they are delivered gives the
/// state after the poll.
pub proof fn law_recording_events_gives_state(
    m: Map<Seq<char>, bool>,
    labels: Seq<Seq<char>>,
    enabled: bool,
    user_away: bool,
    covered: Seq<Seq<char>>,
)
    ensures
        apply_events(m, spec_tick(m, labels, enabled, user_away, covered).1) == spec_tick(
            m,
            labels,
            enabled,
            user_away,
            covered,
        ).0,
    decreases labels.len(),
{
    if labels.len() > 0 {
        law_recording_events_gives_state(m, labels.drop_last(), enabled, user_away, covered);
        let (m1, ev1) = spec_tick(m, labels.drop_last(), enabled, user_away, covered);
        let ev = spec_tick(m, labels, enabled, user_away, covered).1;
        if ev.len() > ev1.len() {
            assert(ev.drop_last() =~= ev1);
        } else {
            assert(ev =~= ev1);
        }
    }
}

/// A poll changes nothing of screens it does not poll, and sends events only to polled screens.
proof fn lemma_tick_frame(
    m: Map<Seq<char>, bool>,
    labels: Seq<Seq<char>>,
    enabled: bool,
    user_away: bool,
    covered: Seq<Seq<char>>,
)
    ensures
        forall|k: Seq<char>|
            !labels.contains(k) ==> {
                &&& (#[trigger] spec_tick(m, labels, enabled, user_away, covered).0.contains_key(k))
                    == m.contains_key(k)
                &&& m.contains_key(k) ==> spec_tick(m, labels, enabled, user_away, covered).0[k]
                    == m[k]
            },
        forall|i: int|
            0 <= i < spec_tick(m, labels, enabled, user_away, covered).1.len() ==> labels.contains(
                (#[trigger] spec_tick(m, labels, enabled, user_away, covered).1[i]).0,
            ),
    decreases labels.len(),
{
    if labels.len() > 0 {
        let ls = labels.drop_last();
        lemma_tick_frame(m, ls, enabled, user_away, covered);
        let (m1, ev1) = spec_tick(m, ls, enabled, user_away, covered);
        let ev = spec_tick(m, labels, enabled, user_away, covered).1;
        assert forall|k: Seq<char>| ls.contains(k) implies labels.contains(k) by {
            let j = choose|j: int| 0 <= j < ls.len() && ls[j] == k;
            assert(labels[j] == k);
        }
        assert(labels.contains(labels.last())) by {
            assert(labels[labels.len() - 1] == labels.last());
        }
        assert forall|i: int| 0 <= i < ev.len() implies labels.contains((#[trigger] ev[i]).0) by {
            if i < ev1.len() {
                assert(ev[i] == ev1[i]);
                assert(ls.contains(ev1[i].0));
            }
        }
        assert forall|k: Seq<char>| !labels.contains(k) implies !ls.contains(k) && k != labels.last() by {}
    }
}

/// Some event of `ev` goes to the screen `k`.
pub open spec fn sent_to(ev: Seq<(Seq<char>, bool)>, k: Seq<char>) -> bool {
    exists|i: int| 0 <= i < ev.len() && ev[i].0 == k
}

/// Recording events for other screens leaves the state of `k` as it was.
proof fn lemma_apply_events_untouched(m: Map<Seq<char>, bool>, ev: Seq<(Seq<char>, bool)>, k: Seq<char>)
    requires
        !sent_to(ev, k),
    ensures
        apply_events(m, ev).contains_key(k) == m.contains_key(k),
        m.contains_key(k) ==> apply_events(m, ev)[k] == m[k],
    decreases ev.len(),
{
    if ev.len() > 0 {
        let e = ev.drop_last();
        assert(!sent_to(e, k)) by {
            if sent_to(e, k) {
                let i = choose|i: int| 0 <= i < e.len() && e[i].0 == k;
                assert(ev[i].0 == k);
            }
        }
        assert(ev.last().0 != k) by {
            if ev.last().0 == k {
                assert(ev[ev.len() - 1].0 == k);
            }
        }
        lemma_apply_events_untouched(m, e, k);
    }
}

/// Law: a poll sends a screen an event exactly when one is due (with the feature on:
/// its recorded state differs from whether it should be paused; with it off: it is
/// recorded as paused, and the event resumes it), at most one event per screen (also
/// when a label is polled twice), and nothing to any other screen. A screen that gets
/// no event keeps its recorded state, whether or not it was polled.
pub proof fn law_tick_events(
    m: Map<Seq<char>, bool>,
    labels: Seq<Seq<char>>,
    enabled: bool,
    user_away: bool,
    covered: Seq<Seq<char>>,
)
    ensures
        forall|l: Seq<char>, b: bool|
            #[trigger] spec_tick(m, labels, enabled, user_away, covered).1.contains((l, b)) <==> (
            labels.contains(l) && event_due(m, l, b, enabled, user_away, covered)),
        forall|i: int, j: int|
            0 <= i < j < spec_tick(m, labels, enabled, user_away, covered).1.len() ==> (
            #[trigger] spec_tick(m, labels, enabled, user_away, covered).1[i]).0 != (
            #[trigger] spec_tick(m, labels, enabled, user_away, covered).1[j]).0,
        forall|k: Seq<char>|
            !(#[trigger] sent_to(spec_tick(m, labels, enabled, user_away, covered).1, k)) ==> {
                &&& spec_tick(m, labels, enabled, user_away, covered).0.contains_key(k)
                    == m.contains_key(k)
                &&& m.contains_key(k) ==> spec_tick(m, labels, enabled, user_away, covered).0[k]
                    == m[k]
            },
{
    lemma_tick_events(m, labels, enabled, user_away, covered);
    law_recording_events_gives_state(m, labels, enabled, user_away, covered);
    let ev = spec_tick(m, labels, enabled, user_away, covered).1;
    assert forall|k: Seq<char>| !(#[trigger] sent_to(ev, k)) implies {
        &&& spec_tick(m, labels, enabled, user_away, covered).0.contains_key(k) == m.contains_key(k)
        &&& m.contains_key(k) ==> spec_tick(m, labels, enabled, user_away, covered).0[k] == m[k]
    } by {
        lemma_apply_events_untouched(m, ev, k);
    }
}

proof fn lemma_tick_events(
    m: Map<Seq<char>, bool>,
    labels: Seq<Seq<char>>,
    enabled: bool,
    user_away: bool,
    covered: Seq<Seq<char>>,
)
    ensures
        forall|l: Seq<char>, b: bool|
            #[trigger] spec_tick(m, labels, enabled, user_away, covered).1.contains((l, b)) <==> (
            labels.contains(l) && event_due(m, l, b, enabled, user_away, covered)),
        forall|i: int, j: int|
            0 <= i < j < spec_tick(m, labels, enabled, user_away, covered).1.len() ==> (
            #[trigger] spec_tick(m, labels, enabled, user_away, covered).1[i]).0 != (
            #[trigger] spec_tick(m, labels, enabled, user_away, covered).1[j]).0,
    decreases labels.len(),
{
    lemma_tick_frame(m, labels, enabled, user_away, covered);
    if labels.len() > 0 {
        let ls = labels.drop_last();
        let l0 = labels.last();
        lemma_tick_events(m, ls, enabled, user_away, covered);
        lemma_tick_frame(m, ls, enabled, user_away, covered);
        let (m1, ev1) = spec_tick(m, ls, enabled, user_away, covered);
        let ev = spec_tick(m, labels, enabled, user_away, covered).1;
        assert forall|k: Seq<char>| #[trigger] labels.contains(k) <==> ls.contains(k) || k == l0 by {
            if labels.contains(k) {
                let j = choose|j: int| 0 <= j < labels.len() && labels[j] == k;
                if j < ls.len() {
                    assert(ls[j] == k);
                }
            }
            if ls.contains(k) {
                let j = choose|j: int| 0 <= j < ls.len() && ls[j] == k;
                assert(labels[j] == k);
            }
            if k == l0 {
                assert(labels[labels.len() - 1] == k);
            }
        }
        if ls.contains(l0) {
            // The label was polled before: its state is already final, so no new event.
            lemma_tick_final(m, ls, enabled, user_away, covered);
            let j = choose|j: int| 0 <= j < ls.len() && ls[j] == l0;
            assert(m1 == spec_tick(m, ls, enabled, user_away, covered).0);
            if enabled {
                assert(m1.contains_key(ls[j]) && m1[ls[j]] == should_pause(ls[j], user_away, covered));
            } else {
                assert(!paused_in(m1, ls[j]));
            }
            assert(ev =~= ev1);
        } else {
            assert(m1.contains_key(l0) == m.contains_key(l0));
            assert forall|k: Seq<char>, b: bool| #[trigger] ev.contains((k, b)) <==> (labels.contains(k)
                && event_due(m, k, b, enabled, user_away, covered)) by {
                if ev.len() > ev1.len() {
                    assert(ev =~= ev1.push(ev.last()));
                    assert(ev.last().0 == l0);
                    if ev.contains((k, b)) {
                        let i = choose|i: int| 0 <= i < ev.len() && ev[i] == (k, b);
                        if i < ev1.len() {
                            assert(ev1[i] == (k, b));
                            assert(ev1.contains((k, b)));
                        }
                    }
                    if ev1.contains((k, b)) {
                        let i = choose|i: int| 0 <= i < ev1.len() && ev1[i] == (k, b);
                        assert(ev[i] == (k, b));
                    }
                    if k == l0 && event_due(m, k, b, enabled, user_away, covered) {
                        assert(ev[ev.len() - 1] == (k, b));
                    }
                    if ev1.contains((k, b)) {
                        assert(ls.contains(k));
                    }
                } else {
                    assert(ev =~= ev1);
                    if k == l0 && ev1.contains((k, b)) {
                        assert(ls.contains(k));
                    }
                }
            }
            assert forall|i: int, j: int| 0 <= i < j < ev.len() implies (#[trigger] ev[i]).0 != (
                #[trigger] ev[j]).0 by {
                if j < ev1.len() {
                    assert(ev[i] == ev1[i] && ev[j] == ev1[j]);
                } else {
                    assert(ev[i] == ev1[i]);
                    assert(ls.contains(ev1[i].0));
                }
            }
        }
    }
}

/// Law: a second poll with nothing changed sends no event (events go out only on changes).
pub proof fn law_tick_quiet_when_settled(
    m: Map<Seq<char>, bool>,
    labels: Seq<Seq<char>>,
    enabled: bool,
    user_away: bool,
    covered: Seq<Seq<char>>,
)
    ensures
        spec_tick(spec_tick(m, labels, enabled, user_away, covered).0, labels, enabled, user_away, covered).1.len() == 0,
{
    let m2 = spec_tick(m, labels, enabled, user_away, covered).0;
    lemma_tick_settled_quiet(m, m2, labels, labels.len() as int, enabled, user_away, covered);
    assert(labels.subrange(0, labels.len() as int) =~= labels);
}

/// After the full poll, the state of each polled screen is final.
proof fn lemma_tick_final(
    m: Map<Seq<char>, bool>,
    labels: Seq<Seq<char>>,
    enabled: bool,
    user_away: bool,
    covered: Seq<Seq<char>>,
)
    ensures
        forall|i: int|
            0 <= i < labels.len() ==> {
                let m2 = spec_tick(m, labels, enabled, user_away, covered).0;
                if enabled {
                    m2.contains_key(#[trigger] labels[i]) && m2[labels[i]] == should_pause(
                        labels[i],
                        user_away,
                        covered,
                    )
                } else {
                    !paused_in(m2, labels[i])
                }
            },
    decreases labels.len(),
{
    if labels.len() > 0 {
        lemma_tick_final(m, labels.drop_last(), enabled, user_away, covered);
        assert forall|i: int| 0 <= i < labels.len() implies {
            let m2 = spec_tick(m, labels, enabled, user_away, covered).0;
            if enabled {
                m2.contains_key(#[trigger] labels[i]) && m2[labels[i]] == should_pause(
                    labels[i],
                    user_away,
                    covered,
                )
            } else {
                !paused_in(m2, labels[i])
            }
        } by {
            if i < labels.len() - 1 {
                assert(labels.drop_last()[i] == labels[i]);
            }
        }
    }
}

/// A poll of `labels[..n]` from a state in which every polled screen is final leaves it unchanged and silent.
proof fn lemma_tick_settled_quiet(
    m: Map<Seq<char>, bool>,
    m2: Map<Seq<char>, bool>,
    labels: Seq<Seq<char>>,
    n: int,
    enabled: bool,
    user_away: bool,
    covered: Seq<Seq<char>>,
)
    requires
        m2 == spec_tick(m, labels, enabled, user_away, covered).0,
        0 <= n <= labels.len(),
    ensures
        spec_tick(m2, labels.subrange(0, n), enabled, user_away, covered).0 == m2,
        spec_tick(m2, labels.subrange(0, n), enabled, user_away, covered).1.len() == 0,
    decreases n,
{
    lemma_tick_final(m, labels, enabled, user_away, covered);
    if n > 0 {
        let sub = labels.subrange(0, n);
        assert(sub.drop_last() =~= labels.subrange(0, n - 1));
        lemma_tick_settled_quiet(m, m2, labels, n - 1, enabled, user_away, covered);
        assert(sub.last() == labels[n - 1]);
    }
}

/// Law: with the feature off, a poll leaves no polled screen paused.
pub proof fn law_disabled_resumes_all(
    m: Map<Seq<char>, bool>,
    labels: Seq<Seq<char>>,
    user_away: bool,
    covered: Seq<Seq<char>>,
)
    ensures
        forall|i: int|
            0 <= i < labels.len() ==> !paused_in(
                spec_tick(m, labels, false, user_away, covered).0,
                #[trigger] labels[i],
            ),
{
    lemma_tick_final(m, labels, false, user_away, covered);
}

} // verus!
