//! Per-screen wallpaper state: one wallpaper window per screen, labelled after the
//! screen; which media each screen shows, what is persisted, what is restored at
//! start-up, what the front end is told, and how a window is fitted into the
//! desktop layer.
use vstd::prelude::*;

use crate::fullscreen::{is_paused, paused_in, PauseState, Rect};
use crate::gallery::{is_image, kind_text, media_kind, spec_is_image};
use crate::settings::has_prefix;
use crate::strmap::{key_at, keys_distinct, pairs_map, StrMap};
use crate::text::{chars_of, decimal, decimal_chars, extend_chars, string_from_chars, string_of};

verus! {

/// Labels of wallpaper windows start with `wallpaper-`.
pub open spec fn wallpaper_prefix() -> Seq<char> {
    seq!['w', 'a', 'l', 'l', 'p', 'a', 'p', 'e', 'r', '-']
}

fn wallpaper_prefix_chars() -> (r: Vec<char>)
    ensures
        r@ == wallpaper_prefix(),
{
    let r = vec!['w', 'a', 'l', 'l', 'p', 'a', 'p', 'e', 'r', '-'];
    assert(r@ =~= wallpaper_prefix());
    r
}

/// Characters kept from a monitor's name in its label: ASCII letters and digits, `-`, `_`.
pub open spec fn label_char_ok(c: char) -> bool {
    ('a' <= c && c <= 'z') || ('A' <= c && c <= 'Z') || ('0' <= c && c <= '9') || c == '-' || c
        == '_'
}

pub open spec fn cleaned_name(n: Seq<char>) -> Seq<char> {
    n.filter(|c: char| label_char_ok(c))
}

/// Label of the screen with the given monitor name at position `index`:
/// `wallpaper-` and the cleaned name, or `wallpaper-` and the index when nothing is left.
pub open spec fn spec_monitor_label(name: Option<Seq<char>>, index: nat) -> Seq<char> {
    match name {
        Some(n) if cleaned_name(n).len() > 0 => wallpaper_prefix() + cleaned_name(n),
        _ => wallpaper_prefix() + decimal(index),
    }
}

fn cleaned_name_chars(n: &Vec<char>) -> (r: Vec<char>)
    ensures
        r@ == cleaned_name(n@),
{
    let mut r: Vec<char> = Vec::new();
    let mut i: usize = 0;
    while i < n.len()
        invariant
            i <= n.len(),
            r@ == cleaned_name(n@.subrange(0, i as int)),
        decreases n.len() - i,
    {
        let c = n[i];
        proof {
            let sub = n@.subrange(0, i + 1);
            assert(sub.drop_last() =~= n@.subrange(0, i as int));
            reveal(Seq::filter);
        }
        if ('a' <= c && c <= 'z') || ('A' <= c && c <= 'Z') || ('0' <= c && c <= '9') || c == '-'
            || c == '_' {
            r.push(c);
        }
        i = i + 1;
    }
    proof {
        assert(n@.subrange(0, n@.len() as int) =~= n@);
    }
    r
}

/// Label of the wallpaper window for the screen with monitor name `name` at position `index`.
pub fn monitor_label(name: Option<&str>, index: usize) -> (r: String)
    ensures
        r@ == spec_monitor_label(
            match name {
                Some(n) => Some(n@),
                None => None,
            },
            index as nat,
        ),
{
    let mut out = wallpaper_prefix_chars();
    match name {
        Some(n) => {
            let cleaned = cleaned_name_chars(&chars_of(n));
            if cleaned.len() > 0 {
                extend_chars(&mut out, &cleaned);
                return string_from_chars(&out);
            }
        },
        None => {},
    }
    extend_chars(&mut out, &decimal_chars(index as u128));
    string_from_chars(&out)
}

/// Whether `label` names a wallpaper window (as opposed to the main window).
pub fn is_wallpaper_label(label: &str) -> (r: bool)
    ensures
        r == has_prefix(label@, wallpaper_prefix()),
{
    let l = chars_of(label);
    let p = wallpaper_prefix_chars();
    if p.len() > l.len() {
        return false;
    }
    let mut i: usize = 0;
    while i < p.len()
        invariant
            p@ == wallpaper_prefix(),
            l@ == label@,
            p.len() <= l.len(),
            i <= p.len(),
            forall|j: int| 0 <= j < i ==> l@[j] == p@[j],
        decreases p.len() - i,
    {
        if l[i] != p[i] {
            assert(l@.subrange(0, p@.len() as int)[i as int] != p@[i as int]);
            return false;
        }
        i = i + 1;
    }
    assert(l@.subrange(0, p@.len() as int) =~= p@);
    true
}

/// Law: every screen label is a wallpaper window label, so clearing all wallpaper
/// windows reaches every screen's window.
pub proof fn law_monitor_label_is_wallpaper_label(name: Option<Seq<char>>, index: nat)
    ensures
        has_prefix(spec_monitor_label(name, index), wallpaper_prefix()),
{
    let l = spec_monitor_label(name, index);
    assert(l.subrange(0, wallpaper_prefix().len() as int) =~= wallpaper_prefix());
}

/// Event that hands a media path to a wallpaper page: images and videos are shown differently.
pub fn media_event(path: &str) -> (r: &'static str)
    ensures
        spec_is_image(path@) ==> r@ == "wallpaper:set-image"@,
        !spec_is_image(path@) ==> r@ == "wallpaper:set-video"@,
{
    if is_image(path) {
        "wallpaper:set-image"
    } else {
        "wallpaper:set-video"
    }
}

/// Text of the tray's pause item: offers to resume while paused.
pub fn pause_menu_text(paused: bool) -> (r: &'static str)
    ensures
        paused ==> r@ == "恢复播放"@,
        !paused ==> r@ == "暂停壁纸"@,
{
    if paused {
        "恢复播放"
    } else {
        "暂停壁纸"
    }
}

/// What the wallpaper windows show: the media of each screen (label -> path), the
/// wallpaper set most recently (kept after clearing, for the tray's "start" item),
/// and whether the user paused playback (for this session).
pub struct WallpaperState {
    screens: StrMap<String>,
    last: Option<String>,
    user_paused: bool,
}

pub struct WallpaperModel {
    pub screens: Map<Seq<char>, String>,
    pub last: Option<Seq<char>>,
    pub user_paused: bool,
}

impl View for WallpaperState {
    type V = WallpaperModel;

    closed spec fn view(&self) -> WallpaperModel {
        WallpaperModel {
            screens: self.screens@,
            last: match self.last {
                Some(p) => Some(p@),
                None => None,
            },
            user_paused: self.user_paused,
        }
    }
}

/// Some screen shows `path` in `m`.
pub open spec fn in_use(m: Map<Seq<char>, String>, path: Seq<char>) -> bool {
    exists|k: Seq<char>| m.contains_key(k) && (#[trigger] m[k])@ == path
}

impl WallpaperState {
    /// Nothing shown, nothing set yet, playing.
    pub fn new() -> (r: Self)
        ensures
            r@.screens == Map::<Seq<char>, String>::empty(),
            r@.last is None,
            !r@.user_paused,
    {
        WallpaperState { screens: StrMap::new(), last: None, user_paused: false }
    }

    /// The media shown on `label`.
    pub fn wallpaper_of(&self, label: &str) -> (r: Option<String>)
        ensures
            match r {
                Some(p) => self@.screens.contains_key(label@) && p == self@.screens[label@],
                None => !self@.screens.contains_key(label@),
            },
    {
        match self.screens.get(label) {
            Some(p) => Some(p.clone()),
            None => None,
        }
    }

    /// `label` now shows `path` (its page was sent the path).
    pub fn assign(&mut self, label: String, path: String)
        ensures
            final(self)@.screens == old(self)@.screens.insert(label@, path),
            final(self)@.last == old(self)@.last,
            final(self)@.user_paused == old(self)@.user_paused,
    {
        self.screens.insert(label, path);
    }

    /// `label` shows nothing any more.
    pub fn unassign(&mut self, label: &str)
        ensures
            final(self)@.screens == old(self)@.screens.remove(label@),
            final(self)@.last == old(self)@.last,
            final(self)@.user_paused == old(self)@.user_paused,
    {
        self.screens.remove(label);
    }

    /// No screen shows anything.
    pub fn clear_screens(&mut self)
        ensures
            final(self)@.screens == Map::<Seq<char>, String>::empty(),
            final(self)@.last == old(self)@.last,
            final(self)@.user_paused == old(self)@.user_paused,
    {
        self.screens.clear();
    }

    /// `path` was sent to each screen of `targets`, in order: those screens now show it.
    /// With `replace_all` (a wallpaper applied to every screen) the screens shown before
    /// are forgotten first.
    pub fn show_on(&mut self, replace_all: bool, targets: &Vec<String>, path: &String)
        ensures
            final(self)@.screens == assign_all(
                if replace_all {
                    Map::<Seq<char>, String>::empty()
                } else {
                    old(self)@.screens
                },
                string_views(targets@),
                *path,
            ),
            final(self)@.last == old(self)@.last,
            final(self)@.user_paused == old(self)@.user_paused,
    {
        if replace_all {
            self.screens.clear();
        }
        let ghost start = self@.screens;
        let mut i: usize = 0;
        while i < targets.len()
            invariant
                i <= targets.len(),
                self@.screens == assign_all(start, string_views(targets@).subrange(0, i as int), *path),
                self@.last == old(self)@.last,
                self@.user_paused == old(self)@.user_paused,
                start == (if replace_all {
                    Map::<Seq<char>, String>::empty()
                } else {
                    old(self)@.screens
                }),
            decreases targets.len() - i,
        {
            proof {
                let sub = string_views(targets@).subrange(0, i + 1);
                assert(sub.drop_last() =~= string_views(targets@).subrange(0, i as int));
                assert(sub.last() == targets@[i as int]@);
            }
            self.screens.insert(targets[i].clone(), path.clone());
            i = i + 1;
        }
        proof {
            assert(string_views(targets@).subrange(0, targets@.len() as int) =~= string_views(
                targets@,
            ));
        }
    }

    /// Remembers `path` as the wallpaper set most recently.
    pub fn set_last(&mut self, path: String)
        ensures
            final(self)@.screens == old(self)@.screens,
            final(self)@.last == Some(path@),
            final(self)@.user_paused == old(self)@.user_paused,
    {
        self.last = Some(path);
    }

    /// A screen restored at start-up: it shows `path`, which becomes the last wallpaper.
    pub fn record_restored(&mut self, label: String, path: String)
        ensures
            final(self)@.screens == old(self)@.screens.insert(label@, path),
            final(self)@.last == Some(path@),
            final(self)@.user_paused == old(self)@.user_paused,
    {
        let p = path.clone();
        self.screens.insert(label, path);
        self.last = Some(p);
    }
}

/// Whether the user paused playback.
pub fn user_paused(state: &WallpaperState) -> (r: bool)
    ensures
        r == state@.user_paused,
{
    state.user_paused
}

/// Pauses (`true`) or resumes playback on every screen; only the picture freezes,
/// the wallpapers stay.
pub fn apply_user_paused(state: &mut WallpaperState, paused: bool)
    ensures
        final(state)@.user_paused == paused,
        final(state)@.screens == old(state)@.screens,
        final(state)@.last == old(state)@.last,
{
    state.user_paused = paused;
}

/// Whether some screen shows `path` (such a file may not be removed or transcoded).
pub fn is_wallpaper_in_use(state: &WallpaperState, path: &str) -> (r: bool)
    ensures
        r == in_use(state@.screens, path@),
{
    let pairs = state.screens.pairs();
    let target = string_of(path);
    let mut i: usize = 0;
    while i < pairs.len()
        invariant
            i <= pairs.len(),
            target@ == path@,
            keys_distinct(pairs@),
            pairs_map(pairs@) == state@.screens,
            forall|j: int| 0 <= j < i ==> pairs@[j].1@ != path@,
        decreases pairs.len() - i,
    {
        if pairs[i].1 == target {
            proof {
                let k = pairs@[i as int].0@;
                assert(key_at(pairs@, k, i as int));
                let j = choose|j: int| key_at(pairs@, k, j);
                assert(j == i);
                assert(state@.screens.contains_key(k) && state@.screens[k]@ == path@);
            }
            return true;
        }
        i = i + 1;
    }
    proof {
        if in_use(state@.screens, path@) {
            let k = choose|k: Seq<char>|
                state@.screens.contains_key(k) && (#[trigger] state@.screens[k])@ == path@;
            let j = choose|j: int| key_at(pairs@, k, j);
            assert(pairs@[j].1@ == path@);
        }
    }
    false
}

/// A file shown on some screen may not be removed or transcoded.
pub fn ensure_not_in_use(state: &WallpaperState, path: &str) -> (r: Result<(), String>)
    ensures
        !in_use(state@.screens, path@) ==> r is Ok,
        in_use(state@.screens, path@) ==> (r matches Err(m) && m@ == "该视频正在使用中，请先停止对应的屏幕壁纸"@),
{
    if is_wallpaper_in_use(state, path) {
        return Err(string_of("该视频正在使用中，请先停止对应的屏幕壁纸"));
    }
    Ok(())
}

/// The wallpaper the tray's "start" item applies again to every screen.
pub fn last_wallpaper(state: &WallpaperState) -> (r: Result<String, String>)
    ensures
        match state@.last {
            Some(p) => r matches Ok(v) && v@ == p,
            None => r matches Err(m) && m@ == "本次运行尚未设置过动态壁纸"@,
        },
{
    match &state.last {
        Some(p) => Ok(p.clone()),
        None => Err(string_of("本次运行尚未设置过动态壁纸")),
    }
}

pub open spec fn string_views(s: Seq<String>) -> Seq<Seq<char>> {
    s.map_values(|x: String| x@)
}

/// The screens a wallpaper is applied to: the one named, or every screen.
pub fn wallpaper_targets(label: Option<&str>, screen_labels: &Vec<String>) -> (r: Vec<String>)
    ensures
        match label {
            Some(l) => string_views(r@) == seq![l@],
            None => string_views(r@) == string_views(screen_labels@),
        },
{
    match label {
        Some(l) => {
            let mut r: Vec<String> = Vec::new();
            r.push(string_of(l));
            assert(string_views(r@) =~= seq![l@]);
            r
        },
        None => {
            let mut r: Vec<String> = Vec::new();
            let mut i: usize = 0;
            while i < screen_labels.len()
                invariant
                    i <= screen_labels.len(),
                    string_views(r@) == string_views(screen_labels@).subrange(0, i as int),
                decreases screen_labels.len() - i,
            {
                let ghost before = string_views(r@);
                r.push(screen_labels[i].clone());
                proof {
                    assert(string_views(r@) =~= before.push(screen_labels@[i as int]@));
                    assert(string_views(screen_labels@).subrange(0, i + 1) =~= string_views(
                        screen_labels@,
                    ).subrange(0, i as int).push(screen_labels@[i as int]@));
                }
                i = i + 1;
            }
            proof {
                assert(string_views(screen_labels@).subrange(0, screen_labels@.len() as int)
                    =~= string_views(screen_labels@));
            }
            r
        },
    }
}

/// The persisted assignment `m` after every screen in `labels` got `path`.
pub open spec fn assign_all(m: Map<Seq<char>, String>, labels: Seq<Seq<char>>, path: String) -> Map<
    Seq<char>,
    String,
>
    decreases labels.len(),
{
    if labels.len() == 0 {
        m
    } else {
        assign_all(m, labels.drop_last(), path).insert(labels.last(), path)
    }
}

/// Persists an applied wallpaper: the one screen named now has `path`; applied to every
/// screen, the assignment is replaced by every target screen having `path`.
pub fn assign_in_settings(
    assignments: &mut StrMap<String>,
    label: Option<&str>,
    targets: &Vec<String>,
    path: &String,
)
    ensures
        match label {
            Some(l) => final(assignments)@ == old(assignments)@.insert(l@, *path),
            None => final(assignments)@ == assign_all(
                Map::<Seq<char>, String>::empty(),
                string_views(targets@),
                *path,
            ),
        },
{
    match label {
        Some(l) => {
            assignments.insert(string_of(l), path.clone());
        },
        None => {
            assignments.clear();
            let mut i: usize = 0;
            while i < targets.len()
                invariant
                    i <= targets.len(),
                    assignments@ == assign_all(
                        Map::<Seq<char>, String>::empty(),
                        string_views(targets@).subrange(0, i as int),
                        *path,
                    ),
                decreases targets.len() - i,
            {
                proof {
                    let sub = string_views(targets@).subrange(0, i + 1);
                    assert(sub.drop_last() =~= string_views(targets@).subrange(0, i as int));
                    assert(sub.last() == targets@[i as int]@);
                }
                assignments.insert(targets[i].clone(), path.clone());
                i = i + 1;
            }
            proof {
                assert(string_views(targets@).subrange(0, targets@.len() as int) =~= string_views(
                    targets@,
                ));
            }
        },
    }
}

/// Forgets a cleared wallpaper: the screen named, or every screen.
pub fn unassign_in_settings(assignments: &mut StrMap<String>, label: Option<&str>)
    ensures
        match label {
            Some(l) => final(assignments)@ == old(assignments)@.remove(l@),
            None => final(assignments)@ == Map::<Seq<char>, String>::empty(),
        },
{
    match label {
        Some(l) => assignments.remove(l),
        None => assignments.clear(),
    }
}

/// Law: a screen given `path` shows it, and `path` counts as in use (it cannot be
/// removed or transcoded) until that screen is cleared.
pub proof fn law_assigned_screen_shows_path(m: Map<Seq<char>, String>, label: Seq<char>, path: String)
    ensures
        m.insert(label, path).contains_key(label),
        m.insert(label, path)[label] == path,
        in_use(m.insert(label, path), path@),
{
    let m2 = m.insert(label, path);
    assert(m2.contains_key(label) && m2[label]@ == path@);
}

/// Law: a cleared screen shows nothing; clearing one screen leaves the others as they were.
pub proof fn law_cleared_screen_shows_nothing(m: Map<Seq<char>, String>, label: Seq<char>, other: Seq<char>)
    requires
        other != label,
    ensures
        !m.remove(label).contains_key(label),
        m.remove(label).contains_key(other) == m.contains_key(other),
        m.contains_key(other) ==> m.remove(label)[other] == m[other],
{
}

/// Law: once every screen is cleared, no file is in use.
pub proof fn law_nothing_in_use_after_clear(path: Seq<char>)
    ensures
        !in_use(Map::<Seq<char>, String>::empty(), path),
{
}

/// Law: every screen restored at start-up is restored with its persisted path, and
/// every screen that has a persisted path is a candidate.
pub proof fn law_restore_candidates_match(m: Map<Seq<char>, String>, labels: Seq<Seq<char>>)
    ensures
        forall|i: int|
            0 <= i < spec_restore_candidates(m, labels).len() ==> {
                let c = #[trigger] spec_restore_candidates(m, labels)[i];
                &&& m.contains_key(c.0)
                &&& m[c.0]@ == c.1
                &&& labels.contains(c.0)
            },
        forall|j: int|
            0 <= j < labels.len() && m.contains_key(#[trigger] labels[j]) ==> exists|i: int|
                0 <= i < spec_restore_candidates(m, labels).len() && spec_restore_candidates(
                    m,
                    labels,
                )[i].0 == labels[j],
    decreases labels.len(),
{
    if labels.len() > 0 {
        let t = labels.drop_last();
        law_restore_candidates_match(m, t);
        let rest = spec_restore_candidates(m, t);
        let r = spec_restore_candidates(m, labels);
        assert forall|i: int| 0 <= i < r.len() implies {
            let c = #[trigger] r[i];
            &&& m.contains_key(c.0)
            &&& m[c.0]@ == c.1
            &&& labels.contains(c.0)
        } by {
            if i < rest.len() {
                assert(r[i] == rest[i]);
                let k = choose|k: int| 0 <= k < t.len() && t[k] == rest[i].0;
                assert(labels[k] == t[k]);
            } else {
                assert(labels[labels.len() - 1] == labels.last());
            }
        }
        assert forall|j: int| 0 <= j < labels.len() && m.contains_key(#[trigger] labels[j]) implies exists|i: int|
            0 <= i < r.len() && r[i].0 == labels[j] by {
            if j < labels.len() - 1 {
                assert(t[j] == labels[j]);
                let i = choose|i: int| 0 <= i < rest.len() && rest[i].0 == t[j];
                assert(r[i] == rest[i]);
            } else {
                assert(r[r.len() - 1].0 == labels[j]);
            }
        }
    }
}

/// Law: after a wallpaper is applied to every screen, each target screen has it.
pub proof fn law_assign_all_covers(m: Map<Seq<char>, String>, labels: Seq<Seq<char>>, path: String)
    ensures
        forall|i: int|
            0 <= i < labels.len() ==> assign_all(m, labels, path).contains_key(#[trigger] labels[i])
                && assign_all(m, labels, path)[labels[i]] == path,
    decreases labels.len(),
{
    if labels.len() > 0 {
        law_assign_all_covers(m, labels.drop_last(), path);
        assert forall|i: int| 0 <= i < labels.len() implies assign_all(m, labels, path).contains_key(
            #[trigger] labels[i],
        ) && assign_all(m, labels, path)[labels[i]] == path by {
            if i < labels.len() - 1 {
                assert(labels.drop_last()[i] == labels[i]);
            }
        }
    }
}

/// The persisted wallpapers to restore at start-up, in screen order: each screen
/// that has an assignment, with its path.
pub open spec fn spec_restore_candidates(m: Map<Seq<char>, String>, labels: Seq<Seq<char>>) -> Seq<
    (Seq<char>, Seq<char>),
>
    decreases labels.len(),
{
    if labels.len() == 0 {
        Seq::<(Seq<char>, Seq<char>)>::empty()
    } else {
        let rest = spec_restore_candidates(m, labels.drop_last());
        let l = labels.last();
        if m.contains_key(l) {
            rest.push((l, m[l]@))
        } else {
            rest
        }
    }
}

pub open spec fn pair_views(s: Seq<(String, String)>) -> Seq<(Seq<char>, Seq<char>)> {
    s.map_values(|p: (String, String)| (p.0@, p.1@))
}

/// The screens to restore from the persisted `assignments` (see `spec_restore_candidates`);
/// a screen is then restored when its file still exists and its window attaches.
pub fn restore_candidates(assignments: &StrMap<String>, screen_labels: &Vec<String>) -> (r: Vec<
    (String, String),
>)
    ensures
        pair_views(r@) == spec_restore_candidates(assignments@, string_views(screen_labels@)),
{
    let mut out: Vec<(String, String)> = Vec::new();
    let mut i: usize = 0;
    while i < screen_labels.len()
        invariant
            i <= screen_labels.len(),
            pair_views(out@) == spec_restore_candidates(
                assignments@,
                string_views(screen_labels@).subrange(0, i as int),
            ),
        decreases screen_labels.len() - i,
    {
        let l = &screen_labels[i];
        proof {
            let sub = string_views(screen_labels@).subrange(0, i + 1);
            assert(sub.drop_last() =~= string_views(screen_labels@).subrange(0, i as int));
            assert(sub.last() == l@);
        }
        let ghost before = pair_views(out@);
        match assignments.get(l.as_str()) {
            Some(p) => {
                out.push((l.clone(), p.clone()));
                proof {
                    assert(pair_views(out@) =~= before.push((l@, p@)));
                }
            },
            None => {},
        }
        i = i + 1;
    }
    proof {
        assert(string_views(screen_labels@).subrange(0, screen_labels@.len() as int)
            =~= string_views(screen_labels@));
    }
    out
}

/// What a wallpaper page fetches once loaded: its media and kind, and whether it
/// must start paused (full-screen or user pause).
pub struct MediaInfo {
    pub path: String,
    /// "video" | "image"
    pub kind: String,
    pub fullscreen_paused: bool,
    pub user_paused: bool,
}

/// The media of the screen `label`, or `None` when it shows nothing.
pub fn get_wallpaper_media(state: &WallpaperState, pauses: &PauseState, label: &str) -> (r: Option<
    MediaInfo,
>)
    ensures
        !state@.screens.contains_key(label@) ==> r is None,
        state@.screens.contains_key(label@) ==> (r matches Some(m) && m.path == state@.screens[label@]
            && m.kind@ == kind_text(spec_is_image(m.path@)) && m.fullscreen_paused == paused_in(
            pauses@,
            label@,
        ) && m.user_paused == state@.user_paused),
{
    let path = match state.wallpaper_of(label) {
        Some(p) => p,
        None => return None,
    };
    let kind = string_of(media_kind(path.as_str()));
    Some(
        MediaInfo {
            path,
            kind,
            fullscreen_paused: is_paused(pauses, label),
            user_paused: user_paused(state),
        },
    )
}

/// A screen as the system reports it.
pub struct MonitorInfo {
    pub name: Option<String>,
    pub x: i32,
    pub y: i32,
    pub width: u32,
    pub height: u32,
}

/// A screen as listed to the front end.
pub struct ScreenInfo {
    pub label: String,
    pub name: String,
    pub width: u32,
    pub height: u32,
    pub wallpaper_path: Option<String>,
}

pub open spec fn opt_str_view(o: Option<String>) -> Option<Seq<char>> {
    match o {
        Some(s) => Some(s@),
        None => None,
    }
}

/// `显示器 <n>`, the name of an unnamed screen.
pub open spec fn unnamed_screen(n: nat) -> Seq<char> {
    "显示器 "@ + decimal(n)
}

/// Label of the screen `m` at position `i`.
pub open spec fn label_of(m: MonitorInfo, i: int) -> Seq<char> {
    spec_monitor_label(opt_str_view(m.name), i as nat)
}

/// The screens of `monitors`, in order, with their labels, names (or `显示器 <position + 1>`),
/// sizes and current wallpaper.
pub fn build_screens(state: &WallpaperState, monitors: &Vec<MonitorInfo>) -> (r: Vec<ScreenInfo>)
    ensures
        r.len() == monitors.len(),
        forall|i: int|
            0 <= i < r.len() ==> {
                let s = #[trigger] r@[i];
                let m = monitors@[i];
                let l = label_of(m, i);
                &&& s.label@ == l
                &&& s.name@ == match m.name {
                    Some(n) => n@,
                    None => unnamed_screen((i + 1) as nat),
                }
                &&& s.width == m.width
                &&& s.height == m.height
                &&& opt_str_view(s.wallpaper_path) == if state@.screens.contains_key(l) {
                    Some(state@.screens[l]@)
                } else {
                    None
                }
            },
{
    let mut out: Vec<ScreenInfo> = Vec::new();
    let mut i: usize = 0;
    while i < monitors.len()
        invariant
            i <= monitors.len(),
            out.len() == i,
            forall|j: int|
                0 <= j < i ==> {
                    let s = #[trigger] out@[j];
                    let m = monitors@[j];
                    let l = label_of(m, j);
                    &&& s.label@ == l
                    &&& s.name@ == match m.name {
                        Some(n) => n@,
                        None => unnamed_screen((j + 1) as nat),
                    }
                    &&& s.width == m.width
                    &&& s.height == m.height
                    &&& opt_str_view(s.wallpaper_path) == if state@.screens.contains_key(l) {
                        Some(state@.screens[l]@)
                    } else {
                        None
                    }
                },
        decreases monitors.len() - i,
    {
        let m = &monitors[i];
        let label = match &m.name {
            Some(n) => monitor_label(Some(n.as_str()), i),
            None => monitor_label(None, i),
        };
        let name = match &m.name {
            Some(n) => n.clone(),
            None => {
                let mut t = chars_of("显示器 ");
                extend_chars(&mut t, &decimal_chars((i + 1) as u128));
                string_from_chars(&t)
            },
        };
        let wallpaper_path = state.wallpaper_of(label.as_str());
        out.push(ScreenInfo { label, name, width: m.width, height: m.height, wallpaper_path });
        i = i + 1;
    }
    out
}

// ---------- fitting a window into the desktop layer ----------

/// `WS_POPUP | WS_CAPTION | WS_THICKFRAME | WS_BORDER | WS_DLGFRAME`: the frame styles a
/// top-level borderless window keeps and a child window must drop.
pub open spec fn frame_styles() -> usize {
    0x80C4_0000
}

/// `WS_CHILD`.
pub open spec fn ws_child() -> usize {
    0x4000_0000
}

/// `WS_POPUP`.
pub open spec fn ws_popup() -> usize {
    0x8000_0000
}

/// `WS_EX_CLIENTEDGE | WS_EX_WINDOWEDGE | WS_EX_DLGMODALFRAME`.
pub open spec fn frame_ex_styles() -> usize {
    0x0000_0301
}

/// Window style of a wallpaper window attached below the desktop icons: frame styles
/// stripped, made a child window.
pub fn child_window_style(style: usize) -> (r: usize)
    ensures
        r == (style & !frame_styles()) | ws_child(),
{
    (style & !0x80C4_0000usize) | 0x4000_0000usize
}

/// Extended style of an attached wallpaper window: edge styles stripped.
pub fn child_window_ex_style(ex_style: usize) -> (r: usize)
    ensures
        r == ex_style & !frame_ex_styles(),
{
    ex_style & !0x0000_0301usize
}

/// Window style of a detached wallpaper window: a top-level borderless window again.
pub fn detached_window_style(style: usize) -> (r: usize)
    ensures
        r == (style & !ws_child()) | ws_popup(),
{
    (style & !0x4000_0000usize) | 0x8000_0000usize
}

/// Law: a wallpaper window attached to the desktop layer is a child window (`WS_CHILD`,
/// 0x4000_0000) with none of `WS_POPUP` (0x8000_0000), `WS_CAPTION` (0x00C0_0000),
/// `WS_THICKFRAME` (0x0004_0000), `WS_BORDER` (0x0080_0000), `WS_DLGFRAME`
/// (0x0040_0000) left, and none of the extended `WS_EX_CLIENTEDGE` (0x200),
/// `WS_EX_WINDOWEDGE` (0x100), `WS_EX_DLGMODALFRAME` (0x1); detached again it is a
/// pop-up and no child. Every other style bit is kept.
pub proof fn law_window_styles(style: usize, ex_style: usize)
    ensures
        ({
            let r = (style & !frame_styles()) | ws_child();
            &&& r & 0x4000_0000usize != 0
            &&& r & (0x8000_0000usize | 0x00C0_0000usize | 0x0004_0000usize | 0x0080_0000usize
                | 0x0040_0000usize) == 0
            &&& r & !0xC0C4_0000usize == style & !0xC0C4_0000usize
        }),
        ({
            let r = ex_style & !frame_ex_styles();
            &&& r & (0x200usize | 0x100usize | 0x1usize) == 0
            &&& r & !0x301usize == ex_style & !0x301usize
        }),
        ({
            let r = (style & !ws_child()) | ws_popup();
            &&& r & 0x8000_0000usize != 0
            &&& r & 0x4000_0000usize == 0
            &&& r & !0xC000_0000usize == style & !0xC000_0000usize
        }),
{
    let fs = frame_styles();
    let c = ws_child();
    let pp = ws_popup();
    let fe = frame_ex_styles();
    assert(fs == 0x80C4_0000usize && c == 0x4000_0000usize && pp == 0x8000_0000usize
        && fe == 0x301usize);
    assert({
        let r = (style & !fs) | c;
        &&& r & 0x4000_0000usize != 0
        &&& r & (0x8000_0000usize | 0x00C0_0000usize | 0x0004_0000usize | 0x0080_0000usize
            | 0x0040_0000usize) == 0
        &&& r & !0xC0C4_0000usize == style & !0xC0C4_0000usize
    }) by (bit_vector)
        requires
            fs == 0x80C4_0000usize,
            c == 0x4000_0000usize,
    ;
    assert({
        let r = ex_style & !fe;
        &&& r & (0x200usize | 0x100usize | 0x1usize) == 0
        &&& r & !0x301usize == ex_style & !0x301usize
    }) by (bit_vector)
        requires
            fe == 0x301usize,
    ;
    assert({
        let r = (style & !c) | pp;
        &&& r & 0x8000_0000usize != 0
        &&& r & 0x4000_0000usize == 0
        &&& r & !0xC000_0000usize == style & !0xC000_0000usize
    }) by (bit_vector)
        requires
            c == 0x4000_0000usize,
            pp == 0x8000_0000usize,
    ;
}

/// Position and size of a child window, relative to its parent.
pub struct Placement {
    pub x: i32,
    pub y: i32,
    pub width: i32,
    pub height: i32,
}

/// How far the client area is inset from the window rectangle on each side.
pub struct ClientInsets {
    pub dx: i32,
    pub dy: i32,
    pub right_gap: i32,
    pub bottom_gap: i32,
}

/// First placement of a screen's window inside the desktop layer `host`: the
/// screen's rectangle in the host's coordinates. Coordinates are 32-bit and wrap
/// around on overflow.
pub fn initial_placement(m: &MonitorInfo, host: Rect) -> (r: Placement)
    ensures
        r.x == (m.x - host.left) as i32,
        r.y == (m.y - host.top) as i32,
        r.width == m.width as i32,
        r.height == m.height as i32,
{
    Placement {
        x: #[verifier::truncate] ((m.x as i64 - host.left as i64) as i32),
        y: #[verifier::truncate] ((m.y as i64 - host.top as i64) as i32),
        width: #[verifier::truncate] (m.width as i32),
        height: #[verifier::truncate] (m.height as i32),
    }
}

/// Insets of the client area `client` (whose origin is at `(origin_x, origin_y)` on
/// screen) within the window rectangle `win` (32-bit, wrapping on overflow).
pub fn client_insets(client: Rect, origin_x: i32, origin_y: i32, win: Rect) -> (r: ClientInsets)
    ensures
        r.dx == (origin_x - win.left) as i32,
        r.dy == (origin_y - win.top) as i32,
        r.right_gap == ((win.right - win.left) - (client.right - client.left) - (origin_x
            - win.left)) as i32,
        r.bottom_gap == ((win.bottom - win.top) - (client.bottom - client.top) - (origin_y
            - win.top)) as i32,
{
    let dx = origin_x as i64 - win.left as i64;
    let dy = origin_y as i64 - win.top as i64;
    let right_gap = (win.right as i64 - win.left as i64) - (client.right as i64
        - client.left as i64) - dx;
    let bottom_gap = (win.bottom as i64 - win.top as i64) - (client.bottom as i64
        - client.top as i64) - dy;
    ClientInsets {
        dx: #[verifier::truncate] (dx as i32),
        dy: #[verifier::truncate] (dy as i32),
        right_gap: #[verifier::truncate] (right_gap as i32),
        bottom_gap: #[verifier::truncate] (bottom_gap as i32),
    }
}

/// Placement that moves and enlarges the window by its insets so that its client
/// area covers exactly the screen's rectangle (32-bit, wrapping on overflow).
pub fn compensated_placement(m: &MonitorInfo, host: Rect, ins: &ClientInsets) -> (r: Placement)
    ensures
        r.x == (m.x - ins.dx - host.left) as i32,
        r.y == (m.y - ins.dy - host.top) as i32,
        r.width == ((m.width as i32) + ins.dx + ins.right_gap) as i32,
        r.height == ((m.height as i32) + ins.dy + ins.bottom_gap) as i32,
{
    let w: i32 = #[verifier::truncate] (m.width as i32);
    let h: i32 = #[verifier::truncate] (m.height as i32);
    Placement {
        x: #[verifier::truncate] ((m.x as i64 - ins.dx as i64 - host.left as i64) as i32),
        y: #[verifier::truncate] ((m.y as i64 - ins.dy as i64 - host.top as i64) as i32),
        width: #[verifier::truncate] ((w as i64 + ins.dx as i64 + ins.right_gap as i64) as i32),
        height: #[verifier::truncate] ((h as i64 + ins.dy as i64 + ins.bottom_gap as i64) as i32),
    }
}

/// Visible region of a compensated window, in window coordinates: its client area,
/// so that the compensation margin does not cover the neighbouring screen.
pub fn visible_region(m: &MonitorInfo, ins: &ClientInsets) -> (r: Rect)
    ensures
        r.left == ins.dx,
        r.top == ins.dy,
        r.right == (ins.dx + (m.width as i32)) as i32,
        r.bottom == (ins.dy + (m.height as i32)) as i32,
{
    let w: i32 = #[verifier::truncate] (m.width as i32);
    let h: i32 = #[verifier::truncate] (m.height as i32);
    Rect {
        left: ins.dx,
        top: ins.dy,
        right: #[verifier::truncate] ((ins.dx as i64 + w as i64) as i32),
        bottom: #[verifier::truncate] ((ins.dy as i64 + h as i64) as i32),
    }
}

/// Law: the visible region of the compensated window is exactly the screen's
/// rectangle in the desktop layer's coordinates (in 32-bit window coordinates).
pub proof fn law_visible_region_is_screen(m: MonitorInfo, host: Rect, ins: ClientInsets, p: Placement, v: Rect)
    requires
        p.x == (m.x - ins.dx - host.left) as i32,
        p.y == (m.y - ins.dy - host.top) as i32,
        v.left == ins.dx,
        v.top == ins.dy,
        v.right == (ins.dx + (m.width as i32)) as i32,
        v.bottom == (ins.dy + (m.height as i32)) as i32,
    ensures
        (p.x + v.left) as i32 == (m.x - host.left) as i32,
        (p.y + v.top) as i32 == (m.y - host.top) as i32,
        (v.right - v.left) as i32 == m.width as i32,
        (v.bottom - v.top) as i32 == m.height as i32,
{
    let (mx, my, dx, dy, hl, ht) = (m.x, m.y, ins.dx, ins.dy, host.left, host.top);
    let (px, py, vr, vb) = (p.x, p.y, v.right, v.bottom);
    let (mw, mh) = (m.width, m.height);
    assert((px + dx) as i32 == (mx - hl) as i32) by (bit_vector)
        requires
            px == (mx - dx - hl) as i32,
    ;
    assert((py + dy) as i32 == (my - ht) as i32) by (bit_vector)
        requires
            py == (my - dy - ht) as i32,
    ;
    assert((vr - dx) as i32 == mw as i32) by (bit_vector)
        requires
            vr == (dx + (mw as i32)) as i32,
    ;
    assert((vb - dy) as i32 == mh as i32) by (bit_vector)
        requires
            vb == (dy + (mh as i32)) as i32,
    ;
}

} // verus!
