//! Application settings: the full-screen pause switch and the wallpaper assigned
//! to each screen, where they and the app's folders live, and which links may be
//! opened in the browser.
use vstd::prelude::*;

use crate::path::spec_join;
use crate::strmap::StrMap;
use crate::text::{chars_of, lower_chars, lower_seq, string_from_chars, string_of};

verus! {

/// The full-screen pause switch is on unless the user turned it off.
fn default_fullscreen_pause() -> (r: bool)
    ensures
        r,
{
    true
}

/// Persisted settings.
pub struct Settings {
    /// Pause a screen's wallpaper while a full-screen application covers that screen.
    pub fullscreen_pause: bool,
    /// Wallpaper of each screen (label -> media path), restored at start-up.
    pub wallpaper_assignments: StrMap<String>,
}

impl Default for Settings {
    fn default() -> (r: Self)
        ensures
            r.fullscreen_pause,
            r.wallpaper_assignments@ == Map::<Seq<char>, String>::empty(),
    {
        Settings { fullscreen_pause: default_fullscreen_pause(), wallpaper_assignments: StrMap::new() }
    }
}

/// Settings as sent to the front end: the settings and the resolved wallpaper folder.
pub struct SettingsView {
    pub settings: Settings,
    pub resolved_wallpapers_dir: String,
}

/// The settings view of `settings` with the wallpaper folder `dir`.
pub fn view(settings: Settings, dir: String) -> (r: SettingsView)
    ensures
        r.settings == settings,
        r.resolved_wallpapers_dir == dir,
{
    SettingsView { settings, resolved_wallpapers_dir: dir }
}

/// The in-memory copy of the full-screen pause switch that the poller reads every
/// few seconds instead of the settings file.
pub struct SettingsCache {
    fullscreen_pause: bool,
}

impl SettingsCache {
    pub closed spec fn spec_fullscreen_pause(&self) -> bool {
        self.fullscreen_pause
    }

    /// Before the settings are first read the switch counts as on.
    pub fn new() -> (r: Self)
        ensures
            r.spec_fullscreen_pause(),
    {
        SettingsCache { fullscreen_pause: true }
    }
}

/// The cached full-screen pause switch.
pub fn fullscreen_pause_cached(cache: &SettingsCache) -> (r: bool)
    ensures
        r == cache.spec_fullscreen_pause(),
{
    cache.fullscreen_pause
}

/// Records a new value of the switch (after it was saved).
pub fn set_fullscreen_pause_cached(cache: &mut SettingsCache, enabled: bool)
    ensures
        final(cache).spec_fullscreen_pause() == enabled,
{
    cache.fullscreen_pause = enabled;
}

/// The settings in effect given what was read and parsed from the settings file
/// (`None` when it is missing or unreadable): those, else the defaults. The cache
/// takes the switch of the settings in effect.
pub fn load(cache: &mut SettingsCache, stored: Option<Settings>) -> (r: Settings)
    ensures
        match stored {
            Some(s) => r == s,
            None => r.fullscreen_pause && r.wallpaper_assignments@ == Map::<
                Seq<char>,
                String,
            >::empty(),
        },
        final(cache).spec_fullscreen_pause() == r.fullscreen_pause,
{
    let settings = match stored {
        Some(s) => s,
        None => Settings::default(),
    };
    cache.fullscreen_pause = settings.fullscreen_pause;
    settings
}

pub open spec fn settings_file_name() -> Seq<char> {
    seq!['s', 'e', 't', 't', 'i', 'n', 'g', 's', '.', 'j', 's', 'o', 'n']
}


/// The settings file in the app's config folder: `<config>\settings.json`.
pub fn settings_path(config_dir: &str) -> (r: String)
    ensures
        r@ == spec_join(config_dir@, settings_file_name()),
{
    let name = vec!['s', 'e', 't', 't', 'i', 'n', 'g', 's', '.', 'j', 's', 'o', 'n'];
    assert(name@ =~= settings_file_name());
    string_from_chars(&crate::path::join_chars(&chars_of(config_dir), &name))
}

/// The file a new settings file is written to before it replaces the old one
/// (`settings_path(config).with_extension("json.tmp")`): `<config>\settings.json.tmp`.
pub fn settings_tmp_path(config_dir: &str) -> (r: String)
    ensures
        r@ == spec_join(config_dir@, settings_file_name() + seq!['.', 't', 'm', 'p']),
{
    let name = vec!['s', 'e', 't', 't', 'i', 'n', 'g', 's', '.', 'j', 's', 'o', 'n', '.', 't', 'm', 'p'];
    assert(name@ =~= settings_file_name() + seq!['.', 't', 'm', 'p']);
    string_from_chars(&crate::path::join_chars(&chars_of(config_dir), &name))
}

/// The wallpaper folder in the app's local data folder: `<data>\wallpapers`.
pub fn wallpapers_dir(data_dir: &str) -> (r: String)
    ensures
        r@ == spec_join(data_dir@, seq!['w', 'a', 'l', 'l', 'p', 'a', 'p', 'e', 'r', 's']),
{
    let name = vec!['w', 'a', 'l', 'l', 'p', 'a', 'p', 'e', 'r', 's'];
    assert(name@ =~= seq!['w', 'a', 'l', 'l', 'p', 'a', 'p', 'e', 'r', 's']);
    string_from_chars(&crate::path::join_chars(&chars_of(data_dir), &name))
}

/// `s` opens with `p`.
pub open spec fn has_prefix(s: Seq<char>, p: Seq<char>) -> bool {
    p.len() <= s.len() && s.subrange(0, p.len() as int) == p
}

pub open spec fn http_prefix() -> Seq<char> {
    seq!['h', 't', 't', 'p', ':', '/', '/']
}

pub open spec fn https_prefix() -> Seq<char> {
    seq!['h', 't', 't', 'p', 's', ':', '/', '/']
}

fn has_prefix_exec(s: &Vec<char>, p: &Vec<char>) -> (r: bool)
    ensures
        r == has_prefix(s@, p@),
{
    if p.len() > s.len() {
        return false;
    }
    let mut i: usize = 0;
    while i < p.len()
        invariant
            p.len() <= s.len(),
            i <= p.len(),
            forall|j: int| 0 <= j < i ==> s@[j] == p@[j],
        decreases p.len() - i,
    {
        if s[i] != p[i] {
            assert(s@.subrange(0, p@.len() as int)[i as int] != p@[i as int]);
            return false;
        }
        i = i + 1;
    }
    assert(s@.subrange(0, p@.len() as int) =~= p@);
    true
}

/// Whether `url` may be opened in the default browser: only `http://` and `https://`
/// links, in any letter case.
pub fn check_browser_url(url: &str) -> (r: Result<(), String>)
    ensures
        (has_prefix(lower_seq(url@), http_prefix()) || has_prefix(lower_seq(url@), https_prefix()))
            ==> r is Ok,
        !(has_prefix(lower_seq(url@), http_prefix()) || has_prefix(lower_seq(url@), https_prefix()))
            ==> (r matches Err(m) && m@ == "仅支持 http/https 链接"@),
        r is Ok <==> (has_prefix(lower_seq(url@), seq!['h', 't', 't', 'p', ':', '/', '/'])
            || has_prefix(lower_seq(url@), seq!['h', 't', 't', 'p', 's', ':', '/', '/'])),
{
    let u = chars_of(url);
    let lower = lower_chars(&u);
    let http = vec!['h', 't', 't', 'p', ':', '/', '/'];
    let https = vec!['h', 't', 't', 'p', 's', ':', '/', '/'];
    assert(http@ =~= http_prefix());
    assert(https@ =~= https_prefix());
    if !has_prefix_exec(&lower, &http) && !has_prefix_exec(&lower, &https) {
        return Err(string_of("仅支持 http/https 链接"));
    }
    Ok(())
}

/// Only existing folders may be opened in the file explorer.
pub fn check_explorer_dir(is_dir: bool) -> (r: Result<(), String>)
    ensures
        is_dir ==> r is Ok,
        !is_dir ==> (r matches Err(m) && m@ == "路径不是有效目录"@),
{
    if !is_dir {
        return Err(string_of("路径不是有效目录"));
    }
    Ok(())
}

} // verus!
