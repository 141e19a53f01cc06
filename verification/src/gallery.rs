//! The gallery: which files of the wallpaper folder are listed and how, where
//! their cover images and metadata sidecars live, how imported files are named,
//! and how a cover sent by the front end as a data URL is decoded.
use base64::Engine;
use vstd::prelude::*;
use vstd::string::StringSliceAdditionalSpecFns;

use crate::path::{
    file_name_chars, is_dotdot, is_plain_component, join_chars, last_dot, lemma_file_name_of_join,
    lemma_last_dot, lemma_last_dot_prefix, lemma_last_dot_skip, name_extension,
    name_extension_chars, name_stem, name_stem_chars, spec_extension, spec_file_name,
    spec_file_stem, spec_join,
};
use crate::probe::VideoMeta;
use crate::text::{
    chars_eq, chars_of, decimal, decimal_chars, extend_chars, fold_name, fold_name_exec,
    lower_chars, lower_seq, string_from_chars,
};

verus! {


/// Lower-cased extension of a path.
pub open spec fn spec_ext_of(p: Seq<char>) -> Option<Seq<char>> {
    match spec_extension(p) {
        Some(e) => Some(lower_seq(e)),
        None => None,
    }
}

/// Video formats that the wallpaper page plays reliably: mp4, webm, m4v.
pub open spec fn is_video_ext(e: Seq<char>) -> bool {
    ||| e =~= seq!['m', 'p', '4']
    ||| e =~= seq!['w', 'e', 'b', 'm']
    ||| e =~= seq!['m', '4', 'v']
}

/// Still-image formats: jpg, jpeg, png, webp, bmp, gif.
pub open spec fn is_image_ext(e: Seq<char>) -> bool {
    ||| e =~= seq!['j', 'p', 'g']
    ||| e =~= seq!['j', 'p', 'e', 'g']
    ||| e =~= seq!['p', 'n', 'g']
    ||| e =~= seq!['w', 'e', 'b', 'p']
    ||| e =~= seq!['b', 'm', 'p']
    ||| e =~= seq!['g', 'i', 'f']
}

pub open spec fn spec_is_video(p: Seq<char>) -> bool {
    match spec_ext_of(p) {
        Some(e) => is_video_ext(e),
        None => false,
    }
}

pub open spec fn spec_is_image(p: Seq<char>) -> bool {
    match spec_ext_of(p) {
        Some(e) => is_image_ext(e),
        None => false,
    }
}

/// The kind tag of a gallery entry: `image` or `video`.
pub open spec fn kind_text(image: bool) -> Seq<char> {
    if image {
        seq!['i', 'm', 'a', 'g', 'e']
    } else {
        seq!['v', 'i', 'd', 'e', 'o']
    }
}

/// Folder of cover images and metadata sidecars inside the wallpaper folder.
pub open spec fn thumb_dir() -> Seq<char> {
    seq!['.', 't', 'h', 'u', 'm', 'b', 's']
}

/// Cover image of the entry `name`: `<dir>\.thumbs\<name>.jpg`.
pub open spec fn spec_thumb_path(dir: Seq<char>, name: Seq<char>) -> Seq<char> {
    spec_join(spec_join(dir, thumb_dir()), name + seq!['.', 'j', 'p', 'g'])
}

/// Metadata sidecar of the entry `name`: `<dir>\.thumbs\<name>.json`.
pub open spec fn spec_meta_path(dir: Seq<char>, name: Seq<char>) -> Seq<char> {
    spec_join(spec_join(dir, thumb_dir()), name + seq!['.', 'j', 's', 'o', 'n'])
}

/// Law: the cover and the metadata sidecar of an entry lie inside the wallpaper
/// folder, for any entry name without separators or drive.
pub proof fn law_cache_paths_inside(dir: Seq<char>, name: Seq<char>)
    requires
        forall|i: int| 0 <= i < name.len() ==> !crate::path::is_sep(#[trigger] name[i]),
        crate::path::prefix_len(name) == 0,
    ensures
        crate::path::spec_starts_with(spec_thumb_path(dir, name), dir),
        crate::path::spec_starts_with(spec_meta_path(dir, name), dir),
{
    let jpg = name + seq!['.', 'j', 'p', 'g'];
    let json = name + seq!['.', 'j', 's', 'o', 'n'];
    let td = spec_join(dir, thumb_dir());
    assert(crate::path::is_plain_component(thumb_dir()));
    assert(crate::path::is_plain_component(jpg)) by {
        if name.len() >= 2 {
            assert(jpg[0] == name[0] && jpg[1] == name[1]);
        }
        assert forall|i: int| 0 <= i < jpg.len() implies !crate::path::is_sep(#[trigger] jpg[i]) by {
            if i < name.len() {
                assert(jpg[i] == name[i]);
            }
        }
    }
    assert(crate::path::is_plain_component(json)) by {
        if name.len() >= 2 {
            assert(json[0] == name[0] && json[1] == name[1]);
        }
        assert forall|i: int| 0 <= i < json.len() implies !crate::path::is_sep(#[trigger] json[i]) by {
            if i < name.len() {
                assert(json[i] == name[i]);
            }
        }
    }
    crate::path::law_join_appends_component(dir, thumb_dir());
    crate::path::law_join_appends_component(td, jpg);
    crate::path::law_join_appends_component(td, json);
    let cd = crate::path::spec_components(dir);
    assert(crate::path::spec_components(spec_thumb_path(dir, name)).subrange(0, cd.len() as int)
        =~= cd);
    assert(crate::path::spec_components(spec_meta_path(dir, name)).subrange(0, cd.len() as int)
        =~= cd);
}

/// Law: no file is both a video and an image, so every listed file has one kind.
pub proof fn law_video_and_image_exclusive(p: Seq<char>)
    ensures
        !(spec_is_video(p) && spec_is_image(p)),
        kind_text(spec_is_image(p)) == seq!['v', 'i', 'd', 'e', 'o'] <==> !spec_is_image(p),
{
    if let Some(e) = spec_ext_of(p) {
        if is_video_ext(e) && is_image_ext(e) {
            assert(e.len() == 3 || e.len() == 4);
            if e.len() == 3 {
                assert(e[0] == 'm');
            } else {
                assert(e[0] == 'w' && e[3] == 'm');
            }
        }
    }
    if spec_is_image(p) {
        assert(kind_text(true)[0] != seq!['v', 'i', 'd', 'e', 'o'][0]);
    }
}


fn ext_of_chars(p: &Vec<char>) -> (r: Option<Vec<char>>)
    ensures
        match r {
            Some(v) => spec_ext_of(p@) == Some(v@),
            None => spec_ext_of(p@) is None,
        },
{
    match file_name_chars(p) {
        Some(n) => match name_extension_chars(&n) {
            Some(e) => Some(lower_chars(&e)),
            None => None,
        },
        None => None,
    }
}

/// Lower-cased extension of `path`.
pub fn ext_of(path: &str) -> (r: Option<String>)
    ensures
        match r {
            Some(v) => spec_ext_of(path@) == Some(v@),
            None => spec_ext_of(path@) is None,
        },
{
    let p = chars_of(path);
    match ext_of_chars(&p) {
        Some(e) => Some(string_from_chars(&e)),
        None => None,
    }
}

fn is_video_ext_exec(e: &Vec<char>) -> (r: bool)
    ensures
        r == is_video_ext(e@),
{
    let n = e.len();
    (n == 3 && e[0] == 'm' && e[1] == 'p' && e[2] == '4') || (n == 4 && e[0] == 'w' && e[1] == 'e'
        && e[2] == 'b' && e[3] == 'm') || (n == 3 && e[0] == 'm' && e[1] == '4' && e[2] == 'v')
}

fn is_image_ext_exec(e: &Vec<char>) -> (r: bool)
    ensures
        r == is_image_ext(e@),
{
    let n = e.len();
    (n == 3 && e[0] == 'j' && e[1] == 'p' && e[2] == 'g') || (n == 4 && e[0] == 'j' && e[1] == 'p'
        && e[2] == 'e' && e[3] == 'g') || (n == 3 && e[0] == 'p' && e[1] == 'n' && e[2] == 'g') || (
    n == 4 && e[0] == 'w' && e[1] == 'e' && e[2] == 'b' && e[3] == 'p') || (n == 3 && e[0] == 'b'
        && e[1] == 'm' && e[2] == 'p') || (n == 3 && e[0] == 'g' && e[1] == 'i' && e[2] == 'f')
}

/// Whether `path` names a supported video (mp4, webm, m4v; any letter case).
pub fn is_video(path: &str) -> (r: bool)
    ensures
        r == spec_is_video(path@),
{
    let p = chars_of(path);
    match ext_of_chars(&p) {
        Some(e) => is_video_ext_exec(&e),
        None => false,
    }
}

/// Whether `path` names a supported still image (jpg, jpeg, png, webp, bmp, gif; any letter case).
pub fn is_image(path: &str) -> (r: bool)
    ensures
        r == spec_is_image(path@),
{
    let p = chars_of(path);
    match ext_of_chars(&p) {
        Some(e) => is_image_ext_exec(&e),
        None => false,
    }
}

/// The kind tag of a media file: `"image"` for a still image, `"video"` for anything else.
pub fn media_kind(path: &str) -> (r: &'static str)
    ensures
        r@ == kind_text(spec_is_image(path@)),
{
    if is_image(path) {
        proof {
            reveal_strlit("image");
        }
        "image"
    } else {
        proof {
            reveal_strlit("video");
        }
        "video"
    }
}

fn thumb_dir_chars() -> (r: Vec<char>)
    ensures
        r@ == thumb_dir(),
{
    let mut r: Vec<char> = Vec::new();
    r.push('.');
    r.push('t');
    r.push('h');
    r.push('u');
    r.push('m');
    r.push('b');
    r.push('s');
    assert(r@ =~= thumb_dir());
    r
}

/// Cover image path of the entry `name` in the wallpaper folder `dir`.
pub fn thumb_path_for(dir: &str, name: &str) -> (r: String)
    ensures
        r@ == spec_thumb_path(dir@, name@),
{
    let d = chars_of(dir);
    let mut n = chars_of(name);
    n.push('.');
    n.push('j');
    n.push('p');
    n.push('g');
    let td = join_chars(&d, &thumb_dir_chars());
    proof {
        assert(n@ =~= name@ + seq!['.', 'j', 'p', 'g']);
    }
    string_from_chars(&join_chars(&td, &n))
}

/// Metadata sidecar path of the entry `name` in the wallpaper folder `dir`.
pub fn meta_path_for(dir: &str, name: &str) -> (r: String)
    ensures
        r@ == spec_meta_path(dir@, name@),
{
    let d = chars_of(dir);
    let mut n = chars_of(name);
    n.push('.');
    n.push('j');
    n.push('s');
    n.push('o');
    n.push('n');
    let td = join_chars(&d, &thumb_dir_chars());
    proof {
        assert(n@ =~= name@ + seq!['.', 'j', 's', 'o', 'n']);
    }
    string_from_chars(&join_chars(&td, &n))
}

/// Cover and sidecar paths of the file at `path` (its cached derivatives, removed when
/// the file is removed or replaced); `None` when the path has no file name.
pub fn entry_cache_paths(dir: &str, path: &str) -> (r: Option<(String, String)>)
    ensures
        match spec_file_name(path@) {
            Some(n) => r matches Some((t, m)) && t@ == spec_thumb_path(dir@, n) && m@
                == spec_meta_path(dir@, n),
            None => r is None,
        },
{
    let p = chars_of(path);
    match file_name_chars(&p) {
        Some(n) => {
            let name = string_from_chars(&n);
            Some((thumb_path_for(dir, name.as_str()), meta_path_for(dir, name.as_str())))
        },
        None => None,
    }
}

/// One entry of the gallery listing.
pub struct GalleryEntry {
    pub name: String,
    pub path: String,
    /// "video" | "image"
    pub kind: String,
    pub size_bytes: u64,
    pub modified_ms: Option<u64>,
    pub thumb_path: Option<String>,
    /// Video metadata from the sidecar; `None` for images or when the sidecar is missing.
    pub meta: Option<VideoMeta>,
}

/// A gallery entry as values.
pub struct GalleryEntryView {
    pub name: Seq<char>,
    pub path: Seq<char>,
    pub kind: Seq<char>,
    pub size_bytes: u64,
    pub modified_ms: Option<u64>,
    pub thumb_path: Option<Seq<char>>,
    pub meta: Option<VideoMeta>,
}

pub open spec fn opt_view(o: Option<String>) -> Option<Seq<char>> {
    match o {
        Some(s) => Some(s@),
        None => None,
    }
}

impl View for GalleryEntry {
    type V = GalleryEntryView;

    open spec fn view(&self) -> GalleryEntryView {
        GalleryEntryView {
            name: self.name@,
            path: self.path@,
            kind: self.kind@,
            size_bytes: self.size_bytes,
            modified_ms: self.modified_ms,
            thumb_path: opt_view(self.thumb_path),
            meta: self.meta,
        }
    }
}

/// What the file system says of one item of the wallpaper folder.
pub struct GalleryItem {
    pub path: String,
    pub is_file: bool,
    pub size_bytes: u64,
    pub modified_ms: Option<u64>,
    /// Whether the cover image `thumb_path_for(dir, name)` exists.
    pub thumb_exists: bool,
    /// The parsed metadata sidecar, if there is one.
    pub meta: Option<VideoMeta>,
}

/// File name of `p`, or the empty text.
pub open spec fn name_or_empty(p: Seq<char>) -> Seq<char> {
    match spec_file_name(p) {
        Some(n) => n,
        None => Seq::<char>::empty(),
    }
}

/// The listing entry of one media file: images are their own cover; videos use
/// their cover image when it exists, and carry their sidecar metadata.
pub open spec fn spec_entry(
    dir: Seq<char>,
    path: Seq<char>,
    size_bytes: u64,
    modified_ms: Option<u64>,
    thumb_exists: bool,
    meta: Option<VideoMeta>,
) -> GalleryEntryView {
    let image = spec_is_image(path);
    let name = name_or_empty(path);
    GalleryEntryView {
        name,
        path,
        kind: kind_text(image),
        size_bytes,
        modified_ms,
        thumb_path: if image {
            Some(path)
        } else if thumb_exists {
            Some(spec_thumb_path(dir, name))
        } else {
            None
        },
        meta: if image {
            None
        } else {
            meta
        },
    }
}

/// A folder item is listed when it is a file of a supported video or image format.
pub open spec fn spec_is_listed(path: Seq<char>, is_file: bool) -> bool {
    is_file && (spec_is_video(path) || spec_is_image(path))
}

/// Whether a folder item belongs in the gallery.
pub fn is_listed(path: &str, is_file: bool) -> (r: bool)
    ensures
        r == spec_is_listed(path@, is_file),
{
    is_file && (is_video(path) || is_image(path))
}

/// The gallery entry of the media file at `path` in the wallpaper folder `dir`.
pub fn gallery_entry(
    dir: &str,
    path: String,
    size_bytes: u64,
    modified_ms: Option<u64>,
    thumb_exists: bool,
    meta: Option<VideoMeta>,
) -> (r: GalleryEntry)
    ensures
        r@ == spec_entry(dir@, path@, size_bytes, modified_ms, thumb_exists, meta),
{
    let image = is_image(path.as_str());
    let name = match crate::path::file_name(path.as_str()) {
        Some(n) => n,
        None => String::new(),
    };
    let kind = crate::text::string_of(media_kind(path.as_str()));
    let thumb_path = if image {
        Some(path.clone())
    } else if thumb_exists {
        Some(thumb_path_for(dir, name.as_str()))
    } else {
        None
    };
    let meta = if image {
        None
    } else {
        meta
    };
    let r = GalleryEntry { name, path, kind, size_bytes, modified_ms, thumb_path, meta };
    assert(r@ =~= spec_entry(dir@, r.path@, size_bytes, modified_ms, thumb_exists, r.meta));
    r
}

/// Ordering key of a modification time; an unknown time sorts below every known one.
pub open spec fn modified_key(m: Option<u64>) -> int {
    match m {
        Some(v) => v as int,
        None => -1,
    }
}

/// First index at or after `i` whose entry has a key below `k`, else the length.
pub open spec fn first_lower(s: Seq<GalleryEntryView>, k: int, i: int) -> int
    decreases s.len() - i,
{
    if i >= s.len() {
        s.len() as int
    } else if modified_key(s[i].modified_ms) < k {
        i
    } else {
        first_lower(s, k, i + 1)
    }
}

/// `x` placed after every entry of `s` modified no earlier than it.
pub open spec fn insert_by_modified(s: Seq<GalleryEntryView>, x: GalleryEntryView) -> Seq<
    GalleryEntryView,
> {
    s.insert(first_lower(s, modified_key(x.modified_ms), 0), x)
}

/// Stable sort, most recently modified first (`sort_by(|a, b| b.modified_ms.cmp(&a.modified_ms))`).
pub open spec fn sort_by_modified_desc(s: Seq<GalleryEntryView>) -> Seq<GalleryEntryView>
    decreases s.len(),
{
    if s.len() == 0 {
        s
    } else {
        insert_by_modified(sort_by_modified_desc(s.drop_last()), s.last())
    }
}

pub open spec fn entry_views(s: Seq<GalleryEntry>) -> Seq<GalleryEntryView> {
    s.map_values(|e: GalleryEntry| e@)
}

fn modified_ge(a: Option<u64>, b: Option<u64>) -> (r: bool)
    ensures
        r == (modified_key(a) >= modified_key(b)),
{
    match (a, b) {
        (Some(x), Some(y)) => x >= y,
        (Some(_), None) => true,
        (None, Some(_)) => false,
        (None, None) => true,
    }
}

/// Stable sort of gallery entries, most recently modified first.
pub fn sort_by_modified(entries: Vec<GalleryEntry>) -> (r: Vec<GalleryEntry>)
    ensures
        entry_views(r@) == sort_by_modified_desc(entry_views(entries@)),
{
    let ghost input = entry_views(entries@);
    let n: usize = entries.len();
    let mut rest = entries;
    let mut out: Vec<GalleryEntry> = Vec::new();
    let mut k: usize = 0;
    while rest.len() > 0
        invariant
            n == input.len(),
            n <= usize::MAX,
            k + rest.len() == n,
            entry_views(rest@) == input.subrange(k as int, n as int),
            entry_views(out@) == sort_by_modified_desc(input.subrange(0, k as int)),
        decreases rest.len(),
    {
        let ghost before = entry_views(out@);
        let ghost old_rest = rest@;
        let e = rest.remove(0);
        proof {
            assert(entry_views(old_rest)[0] == old_rest[0]@);
            assert(input.subrange(k as int, n as int)[0] == input[k as int]);
            assert(e@ == input[k as int]);
            assert(rest@ =~= old_rest.subrange(1, old_rest.len() as int));
            assert forall|j: int| 0 <= j < rest@.len() implies #[trigger] entry_views(rest@)[j]
                == input.subrange(k + 1, n as int)[j] by {
                assert(entry_views(old_rest)[j + 1] == old_rest[j + 1]@);
                assert(input.subrange(k as int, n as int)[j + 1] == input[k + 1 + j]);
            }
            assert(entry_views(rest@) =~= input.subrange(k + 1, n as int));
        }
        let mut j: usize = 0;
        while j < out.len() && modified_ge(out[j].modified_ms, e.modified_ms)
            invariant
                j <= out.len(),
                before == entry_views(out@),
                first_lower(before, modified_key(e.modified_ms), j as int) == first_lower(
                    before,
                    modified_key(e.modified_ms),
                    0,
                ),
            decreases out.len() - j,
        {
            j = j + 1;
        }
        let ghost ev = e@;
        out.insert(j, e);
        proof {
            let sub = input.subrange(0, k + 1);
            assert(sub.drop_last() =~= input.subrange(0, k as int));
            assert(sub.last() == ev);
            assert(entry_views(out@) =~= before.insert(j as int, ev));
        }
        k = k + 1;
    }
    proof {
        assert(input.subrange(0, n as int) =~= input);
    }
    out
}

/// The gallery listing: the listed items in folder order, as entries.
pub open spec fn spec_listing(dir: Seq<char>, items: Seq<GalleryItem>) -> Seq<GalleryEntryView>
    decreases items.len(),
{
    if items.len() == 0 {
        Seq::<GalleryEntryView>::empty()
    } else {
        let rest = spec_listing(dir, items.drop_last());
        let it = items.last();
        if spec_is_listed(it.path@, it.is_file) {
            rest.push(
                spec_entry(dir, it.path@, it.size_bytes, it.modified_ms, it.thumb_exists, it.meta),
            )
        } else {
            rest
        }
    }
}

/// The gallery of the wallpaper folder `dir` from what the file system says of its items:
/// supported media files only, most recently modified first, ties in folder order.
pub fn list_gallery(dir: &str, items: Vec<GalleryItem>) -> (r: Vec<GalleryEntry>)
    ensures
        entry_views(r@) == sort_by_modified_desc(spec_listing(dir@, items@)),
{
    let ghost all = items@;
    let n: usize = items.len();
    let mut rest = items;
    let mut out: Vec<GalleryEntry> = Vec::new();
    let mut k: usize = 0;
    while rest.len() > 0
        invariant
            n == all.len(),
            n <= usize::MAX,
            k + rest.len() == n,
            rest@ == all.subrange(k as int, n as int),
            entry_views(out@) == spec_listing(dir@, all.subrange(0, k as int)),
        decreases rest.len(),
    {
        let it = rest.remove(0);
        proof {
            assert(it == all[k as int]);
            assert(rest@ =~= all.subrange(k + 1, n as int));
            let sub = all.subrange(0, k + 1);
            assert(sub.drop_last() =~= all.subrange(0, k as int));
            assert(sub.last() == it);
        }
        if is_listed(it.path.as_str(), it.is_file) {
            let ghost before = entry_views(out@);
            let e = gallery_entry(
                dir,
                it.path,
                it.size_bytes,
                it.modified_ms,
                it.thumb_exists,
                it.meta,
            );
            out.push(e);
            proof {
                assert(entry_views(out@) =~= before.push(e@));
            }
        }
        k = k + 1;
    }
    proof {
        assert(all.subrange(0, n as int) =~= all);
    }
    sort_by_modified(out)
}

/// Entries in `s` are ordered most recently modified first.
pub open spec fn is_sorted_by_modified(s: Seq<GalleryEntryView>) -> bool {
    forall|i: int, j: int|
        0 <= i < j < s.len() ==> modified_key(s[i].modified_ms) >= modified_key(s[j].modified_ms)
}

/// Entries of `s` modified at the key `k`, in order.
pub open spec fn with_modified_key(s: Seq<GalleryEntryView>, k: int) -> Seq<GalleryEntryView> {
    s.filter(|e: GalleryEntryView| modified_key(e.modified_ms) == k)
}

proof fn lemma_first_lower(s: Seq<GalleryEntryView>, k: int, i: int)
    requires
        0 <= i <= s.len(),
    ensures
        i <= first_lower(s, k, i) <= s.len(),
        forall|j: int| i <= j < first_lower(s, k, i) ==> modified_key(s[j].modified_ms) >= k,
        first_lower(s, k, i) < s.len() ==> modified_key(s[first_lower(s, k, i)].modified_ms) < k,
    decreases s.len() - i,
{
    if i < s.len() && modified_key(s[i].modified_ms) >= k {
        lemma_first_lower(s, k, i + 1);
    }
}

/// Law: the gallery order is most recently modified first.
pub proof fn law_sorted_by_modified(s: Seq<GalleryEntryView>)
    ensures
        is_sorted_by_modified(sort_by_modified_desc(s)),
    decreases s.len(),
{
    if s.len() > 0 {
        let t = sort_by_modified_desc(s.drop_last());
        let x = s.last();
        let kx = modified_key(x.modified_ms);
        law_sorted_by_modified(s.drop_last());
        lemma_first_lower(t, kx, 0);
        let p = first_lower(t, kx, 0);
        let r = t.insert(p, x);
        assert forall|i: int, j: int| 0 <= i < j < r.len() implies modified_key(r[i].modified_ms)
            >= modified_key(r[j].modified_ms) by {
            if j < p {
            } else if j == p {
                assert(r[i] == t[i]);
            } else if i < p {
                assert(r[j] == t[j - 1]);
                assert(r[i] == t[i]);
                assert(modified_key(t[p].modified_ms) >= modified_key(t[j - 1].modified_ms));
            } else if i == p {
                assert(r[j] == t[j - 1]);
                assert(modified_key(t[p].modified_ms) >= modified_key(t[j - 1].modified_ms));
            } else {
                assert(r[j] == t[j - 1]);
                assert(r[i] == t[i - 1]);
            }
        }
    }
}

/// Law: the gallery holds exactly the listed entries, each as often as before.
pub proof fn law_sort_is_permutation(s: Seq<GalleryEntryView>)
    ensures
        sort_by_modified_desc(s).to_multiset() == s.to_multiset(),
    decreases s.len(),
{
    broadcast use vstd::seq_lib::to_multiset_insert, vstd::seq_lib::to_multiset_build;

    if s.len() > 0 {
        let t = sort_by_modified_desc(s.drop_last());
        let x = s.last();
        law_sort_is_permutation(s.drop_last());
        lemma_first_lower(t, modified_key(x.modified_ms), 0);
        assert(s.drop_last().push(x) =~= s);
    }
}

/// Law: entries modified at the same time keep their folder order (the sort is stable).
pub proof fn law_sort_is_stable(s: Seq<GalleryEntryView>, k: int)
    ensures
        with_modified_key(sort_by_modified_desc(s), k) == with_modified_key(s, k),
    decreases s.len(),
{
    broadcast use Seq::filter_distributes_over_add;

    let pred = |e: GalleryEntryView| modified_key(e.modified_ms) == k;
    if s.len() == 0 {
        reveal(Seq::filter);
    } else {
        let t = sort_by_modified_desc(s.drop_last());
        let x = s.last();
        let kx = modified_key(x.modified_ms);
        law_sort_is_stable(s.drop_last(), k);
        law_sorted_by_modified(s.drop_last());
        lemma_first_lower(t, kx, 0);
        let p = first_lower(t, kx, 0);
        let a = t.subrange(0, p);
        let b = t.subrange(p, t.len() as int);
        assert(t =~= a + b);
        assert(t.insert(p, x) =~= a + seq![x] + b);
        assert(seq![x].filter(pred) == (if pred(x) {
            seq![x]
        } else {
            Seq::<GalleryEntryView>::empty()
        })) by {
            reveal_with_fuel(Seq::filter, 2);
            assert(seq![x].drop_last() =~= Seq::<GalleryEntryView>::empty());
        }
        reveal(Seq::filter);
        assert(s.drop_last().push(x) =~= s);
        if k == kx {
            assert(b.all(|e: GalleryEntryView| !pred(e))) by {
                assert forall|j: int| 0 <= j < b.len() implies !pred(#[trigger] b[j]) by {
                    assert(b[j] == t[p + j]);
                    assert(modified_key(t[p].modified_ms) >= modified_key(t[p + j].modified_ms));
                }
            }
            b.lemma_all_neg_filter_empty(pred);
            assert(b.filter(pred) =~= Seq::<GalleryEntryView>::empty());
            assert((a + seq![x] + b).filter(pred) =~= a.filter(pred) + seq![x]);
            assert(t.filter(pred) =~= a.filter(pred));
        } else {
            assert((a + seq![x] + b).filter(pred) =~= a.filter(pred) + b.filter(pred));
        }
    }
}

/// The item `it` of the wallpaper folder is listed, as the entry `e`.
pub open spec fn item_gives(dir: Seq<char>, it: GalleryItem, e: GalleryEntryView) -> bool {
    spec_is_listed(it.path@, it.is_file) && e == spec_entry(
        dir,
        it.path@,
        it.size_bytes,
        it.modified_ms,
        it.thumb_exists,
        it.meta,
    )
}

proof fn lemma_listing_members(dir: Seq<char>, items: Seq<GalleryItem>, e: GalleryEntryView)
    ensures
        spec_listing(dir, items).contains(e) <==> exists|i: int|
            0 <= i < items.len() && item_gives(dir, #[trigger] items[i], e),
    decreases items.len(),
{
    if items.len() > 0 {
        let its = items.drop_last();
        lemma_listing_members(dir, its, e);
        let rest = spec_listing(dir, its);
        let l = spec_listing(dir, items);
        if rest.contains(e) {
            let k = choose|k: int| 0 <= k < rest.len() && rest[k] == e;
            assert(l[k] == e);
            let i = choose|i: int| 0 <= i < its.len() && item_gives(dir, #[trigger] its[i], e);
            assert(items[i] == its[i]);
        }
        if l.contains(e) {
            let k = choose|k: int| 0 <= k < l.len() && l[k] == e;
            if k < rest.len() {
                assert(rest[k] == e);
            } else {
                assert(item_gives(dir, items[items.len() - 1], e));
            }
        }
        if exists|i: int| 0 <= i < items.len() && item_gives(dir, #[trigger] items[i], e) {
            let i = choose|i: int| 0 <= i < items.len() && item_gives(dir, #[trigger] items[i], e);
            if i < its.len() {
                assert(its[i] == items[i]);
                assert(rest.contains(e));
                let k = choose|k: int| 0 <= k < rest.len() && rest[k] == e;
                assert(l[k] == e);
            } else {
                assert(l[l.len() - 1] == e);
            }
        }
    }
}

/// Law: the gallery lists exactly the entries of the folder's video and image files,
/// each given by `spec_entry`: its name is the file name of its path, its kind is
/// `image` or `video` by the path's extension, an image is its own cover and has no
/// metadata, a video's cover is its image in the cover folder when that exists, and it
/// carries its sidecar metadata.
pub proof fn law_listing_entries(dir: Seq<char>, items: Seq<GalleryItem>)
    ensures
        forall|e: GalleryEntryView|
            #[trigger] sort_by_modified_desc(spec_listing(dir, items)).contains(e) <==> exists|i: int|
                0 <= i < items.len() && item_gives(dir, #[trigger] items[i], e),
        forall|e: GalleryEntryView|
            #[trigger] sort_by_modified_desc(spec_listing(dir, items)).contains(e) ==> spec_file_name(
                e.path,
            ) == Some(e.name),
{
    broadcast use vstd::seq_lib::to_multiset_contains;

    law_sort_is_permutation(spec_listing(dir, items));
    let srt = sort_by_modified_desc(spec_listing(dir, items));
    assert forall|e: GalleryEntryView| #[trigger] srt.contains(e) <==> exists|i: int|
        0 <= i < items.len() && item_gives(dir, #[trigger] items[i], e) by {
        lemma_listing_members(dir, items, e);
        assert(srt.contains(e) <==> srt.to_multiset().count(e) > 0);
        assert(spec_listing(dir, items).contains(e) <==> spec_listing(dir, items).to_multiset().count(e) > 0);
    }
    assert forall|e: GalleryEntryView| #[trigger] srt.contains(e) implies spec_file_name(e.path) == Some(e.name) by {
        let i = choose|i: int| 0 <= i < items.len() && item_gives(dir, #[trigger] items[i], e);
        assert(spec_file_name(items[i].path@) is Some);
    }
}

/// Law: each entry of the gallery comes from a file of the folder and carries that
/// file's path, size and modification time; its name is the path's file name; an image
/// (by extension jpg, jpeg, png, webp, bmp or gif) is tagged `image`, is its own cover
/// and has no metadata; any other entry is a video (mp4, webm or m4v), tagged `video`,
/// whose cover is `<dir>\.thumbs\<name>.jpg` when that file exists, and which carries
/// the file's sidecar metadata.
pub proof fn law_listing_fields(dir: Seq<char>, items: Seq<GalleryItem>)
    ensures
        forall|e: GalleryEntryView|
            #[trigger] sort_by_modified_desc(spec_listing(dir, items)).contains(e) ==> exists|i: int|
                0 <= i < items.len() && (#[trigger] items[i]).is_file && e.path == items[i].path@
                    && e.size_bytes == items[i].size_bytes && e.modified_ms == items[i].modified_ms
                    && spec_file_name(e.path) == Some(e.name) && if spec_is_image(e.path) {
                    &&& e.kind == seq!['i', 'm', 'a', 'g', 'e']
                    &&& e.thumb_path == Some(e.path)
                    &&& e.meta is None
                } else {
                    &&& spec_is_video(e.path)
                    &&& e.kind == seq!['v', 'i', 'd', 'e', 'o']
                    &&& e.thumb_path == (if items[i].thumb_exists {
                        Some(
                            spec_join(
                                spec_join(dir, seq!['.', 't', 'h', 'u', 'm', 'b', 's']),
                                e.name + seq!['.', 'j', 'p', 'g'],
                            ),
                        )
                    } else {
                        None
                    })
                    &&& e.meta == items[i].meta
                },
{
    law_listing_entries(dir, items);
    let srt = sort_by_modified_desc(spec_listing(dir, items));
    assert forall|e: GalleryEntryView| #[trigger] srt.contains(e) implies exists|i: int|
        0 <= i < items.len() && (#[trigger] items[i]).is_file && e.path == items[i].path@
            && e.size_bytes == items[i].size_bytes && e.modified_ms == items[i].modified_ms
            && spec_file_name(e.path) == Some(e.name) && if spec_is_image(e.path) {
            &&& e.kind == seq!['i', 'm', 'a', 'g', 'e']
            &&& e.thumb_path == Some(e.path)
            &&& e.meta is None
        } else {
            &&& spec_is_video(e.path)
            &&& e.kind == seq!['v', 'i', 'd', 'e', 'o']
            &&& e.thumb_path == (if items[i].thumb_exists {
                Some(
                    spec_join(
                        spec_join(dir, seq!['.', 't', 'h', 'u', 'm', 'b', 's']),
                        e.name + seq!['.', 'j', 'p', 'g'],
                    ),
                )
            } else {
                None
            })
            &&& e.meta == items[i].meta
        } by {
        let i = choose|i: int| 0 <= i < items.len() && item_gives(dir, #[trigger] items[i], e);
        assert(items[i] == items[i]);
    }
}

// ---------- naming imported and backed-up files ----------

/// Stem of `name`, or `video` when it has none.
pub open spec fn stem_or_video(name: Seq<char>) -> Seq<char> {
    match spec_file_stem(name) {
        Some(st) => st,
        None => seq!['v', 'i', 'd', 'e', 'o'],
    }
}

/// `.` and the extension of `name`, or nothing when it has none.
pub open spec fn dot_ext(name: Seq<char>) -> Seq<char> {
    match spec_extension(name) {
        Some(e) => seq!['.'] + e,
        None => Seq::<char>::empty(),
    }
}

/// `<stem> (<i>)<ext>`.
pub open spec fn numbered_name(stem: Seq<char>, i: nat, ext: Seq<char>) -> Seq<char> {
    stem + seq![' ', '('] + decimal(i) + seq![')'] + ext
}

/// Some name in `taken` is `n` as the Windows file system compares names, letter case
/// folded (see `fold_name`).
pub open spec fn is_taken(taken: Seq<String>, n: Seq<char>) -> bool {
    exists|i: int| 0 <= i < taken.len() && fold_name(taken[i]@) == fold_name(n)
}

/// The first `i` in `[from, 1000)` whose numbered name is free.
pub open spec fn first_free(stem: Seq<char>, ext: Seq<char>, taken: Seq<String>, from: int) -> Option<
    int,
>
    decreases 1000 - from,
{
    if from >= 1000 {
        None
    } else if !is_taken(taken, numbered_name(stem, from as nat, ext)) {
        Some(from)
    } else {
        first_free(stem, ext, taken, from + 1)
    }
}

/// The name an imported file gets in a folder holding `taken`: its own name when
/// free, else `stem (i)ext` for the first free `i` from 2 to 999, else `stem (stamp)ext`.
pub open spec fn spec_dedupe_name(name: Seq<char>, taken: Seq<String>, stamp: u128) -> Seq<char> {
    let stem = stem_or_video(name);
    let ext = dot_ext(name);
    if !is_taken(taken, name) {
        name
    } else {
        match first_free(stem, ext, taken, 2) {
            Some(i) => numbered_name(stem, i as nat, ext),
            None => numbered_name(stem, stamp as nat, ext),
        }
    }
}

/// Where a replaced video is backed up in a folder `dir` holding `taken`: `dir\name` when
/// free, else `dir\stem (i)ext` for the first free `i` from 2 to 999, else `dir\stem-backup ext`.
pub open spec fn spec_dedupe_backup_path(dir: Seq<char>, name: Seq<char>, taken: Seq<String>) -> Seq<
    char,
> {
    let stem = stem_or_video(name);
    let ext = dot_ext(name);
    if !is_taken(taken, name) {
        spec_join(dir, name)
    } else {
        match first_free(stem, ext, taken, 2) {
            Some(i) => spec_join(dir, numbered_name(stem, i as nat, ext)),
            None => spec_join(dir, stem + seq!['-', 'b', 'a', 'c', 'k', 'u', 'p'] + ext),
        }
    }
}

proof fn lemma_first_free(stem: Seq<char>, ext: Seq<char>, taken: Seq<String>, from: int)
    ensures
        first_free(stem, ext, taken, from) matches Some(i) ==> from <= i < 1000 && !is_taken(
            taken,
            numbered_name(stem, i as nat, ext),
        ),
    decreases 1000 - from,
{
    if from < 1000 && is_taken(taken, numbered_name(stem, from as nat, ext)) {
        lemma_first_free(stem, ext, taken, from + 1);
    }
}

/// Law: an import never overwrites a file: no name in the folder equals its name with
/// letter case folded, unless all of `name`, `stem (2)ext` .. `stem (999)ext` are taken (then
/// the time stamp decides).
pub proof fn law_dedupe_name_is_free(name: Seq<char>, taken: Seq<String>, stamp: u128)
    ensures
        (!is_taken(taken, name) || first_free(stem_or_video(name), dot_ext(name), taken, 2) is Some)
            ==> !is_taken(taken, spec_dedupe_name(name, taken, stamp)),
        !is_taken(taken, name) ==> spec_dedupe_name(name, taken, stamp) == name,
{
    lemma_first_free(stem_or_video(name), dot_ext(name), taken, 2);
}

proof fn lemma_decimal_digits(k: nat)
    ensures
        decimal(k).len() >= 1,
        forall|i: int| 0 <= i < decimal(k).len() ==> '0' <= #[trigger] decimal(k)[i] <= '9',
    decreases k,
{
    if k >= 10 {
        lemma_decimal_digits(k / 10);
        assert forall|i: int| 0 <= i < decimal(k).len() implies '0' <= #[trigger] decimal(k)[i] <= '9' by {
            if i < decimal(k / 10).len() {
                assert(decimal(k)[i] == decimal(k / 10)[i]);
            }
        }
    }
}

/// A plain file name is its own file name.
proof fn lemma_plain_file_name(n: Seq<char>)
    requires
        is_plain_component(n),
        !is_dotdot(n),
    ensures
        spec_file_name(n) == Some(n),
{
    lemma_file_name_of_join(Seq::<char>::empty(), n);
    assert(!crate::path::is_sep(n[0]));
    assert(spec_join(Seq::<char>::empty(), n) =~= n);
}

/// A numbered name keeps the extension of the name it was made from, and is a plain name.
proof fn lemma_numbered_extension(n: Seq<char>, k: nat)
    requires
        is_plain_component(n),
        !is_dotdot(n),
    ensures
        is_plain_component(numbered_name(stem_or_video(n), k, dot_ext(n))),
        !is_dotdot(numbered_name(stem_or_video(n), k, dot_ext(n))),
        name_extension(numbered_name(stem_or_video(n), k, dot_ext(n))) == name_extension(n),
{
    lemma_plain_file_name(n);
    lemma_decimal_digits(k);
    lemma_last_dot(n, n.len() as int);
    let d = last_dot(n, n.len() as int);
    let st = stem_or_video(n);
    let ext = dot_ext(n);
    let t = seq![' ', '('] + decimal(k) + seq![')'];
    let r = numbered_name(st, k, ext);
    assert(r =~= st + t + ext);
    assert forall|j: int| 0 <= j < t.len() implies #[trigger] t[j] != '.' && !crate::path::is_sep(t[j]) by {
        if 2 <= j < 2 + decimal(k).len() {
            assert(t[j] == decimal(k)[j - 2]);
        }
    }
    if d > 0 {
        let e = n.subrange(d + 1, n.len() as int);
        assert(st == n.subrange(0, d));
        assert(ext =~= seq!['.'] + e);
        let q: int = (st.len() + t.len()) as int;
        assert(r[q] == '.');
        assert forall|j: int| q + 1 <= j < r.len() implies #[trigger] r[j] != '.' by {
            assert(r[j] == n[d + 1 + (j - q - 1)]);
        }
        lemma_last_dot_skip(r, q + 1, r.len() as int);
        assert(last_dot(r, q + 1) == q);
        assert(r.subrange(q + 1, r.len() as int) =~= e);
        assert forall|j: int| 0 <= j < r.len() implies !crate::path::is_sep(#[trigger] r[j]) by {
            if j < st.len() {
                assert(r[j] == n[j]);
            } else if j < q {
                assert(r[j] == t[j - st.len()]);
            } else if j > q {
                assert(r[j] == n[d + 1 + (j - q - 1)]);
            }
        }
        if st.len() >= 2 {
            assert(r[0] == n[0] && r[1] == n[1]);
        } else {
            assert(r[1] == t[0]);
        }
    } else {
        assert(st == n);
        assert(ext =~= Seq::<char>::empty());
        assert(r =~= n + t);
        assert forall|j: int| n.len() <= j < r.len() implies #[trigger] r[j] != '.' by {
            assert(r[j] == t[j - n.len()]);
        }
        lemma_last_dot_skip(r, n.len() as int, r.len() as int);
        lemma_last_dot_prefix(n, t, n.len() as int);
        assert forall|j: int| 0 <= j < r.len() implies !crate::path::is_sep(#[trigger] r[j]) by {
            if j < n.len() {
                assert(r[j] == n[j]);
            } else {
                assert(r[j] == t[j - n.len()]);
            }
        }
        if n.len() >= 2 {
            assert(r[0] == n[0] && r[1] == n[1]);
        } else {
            assert(r[1] == t[0]);
        }
    }
}

/// Law: an imported file keeps the kind of its source. Its destination is the wallpaper
/// folder joined with the deduplicated name, whose file name is that name and whose
/// extension is the source's, so it is a video or an image exactly when the source is
/// (for sources whose file name does not start with a drive).
pub proof fn law_import_keeps_kind(source: Seq<char>, dir: Seq<char>, taken: Seq<String>, stamp: u128)
    requires
        spec_file_name(source) is Some,
        crate::path::prefix_len(spec_file_name(source)->0) == 0,
    ensures
        ({
            let name = spec_dedupe_name(spec_file_name(source)->0, taken, stamp);
            let dest = spec_join(dir, name);
            &&& spec_file_name(dest) == Some(name)
            &&& spec_extension(dest) == spec_extension(source)
            &&& spec_is_image(dest) == spec_is_image(source)
            &&& spec_is_video(dest) == spec_is_video(source)
        }),
{
    let n = spec_file_name(source)->0;
    let lo = crate::path::prefix_len(source);
    crate::path::lemma_name_bounds_range(source, lo, source.len() as int);
    let (s, e) = crate::path::last_name_bounds(source, lo, source.len() as int)->0;
    assert(n == source.subrange(s, e));
    assert forall|i: int| 0 <= i < n.len() implies !crate::path::is_sep(#[trigger] n[i]) by {
        assert(n[i] == source[s + i]);
    }
    assert(is_plain_component(n));
    let name = spec_dedupe_name(n, taken, stamp);
    if is_taken(taken, n) {
        match first_free(stem_or_video(n), dot_ext(n), taken, 2) {
            Some(i) => lemma_numbered_extension(n, i as nat),
            None => lemma_numbered_extension(n, stamp as nat),
        }
    }
    lemma_file_name_of_join(dir, name);
}

proof fn lemma_first_free_is(stem: Seq<char>, ext: Seq<char>, taken: Seq<String>, from: int, i: int)
    requires
        0 <= from <= i < 1000,
        !is_taken(taken, numbered_name(stem, i as nat, ext)),
        forall|j: nat| from <= j < i ==> is_taken(taken, #[trigger] numbered_name(stem, j, ext)),
    ensures
        first_free(stem, ext, taken, from) == Some(i),
    decreases i - from,
{
    if from < i {
        assert(is_taken(taken, numbered_name(stem, from as nat, ext)));
        lemma_first_free_is(stem, ext, taken, from + 1, i);
    }
}

proof fn lemma_first_free_none(stem: Seq<char>, ext: Seq<char>, taken: Seq<String>, from: int)
    requires
        from >= 2,
        forall|j: nat| 2 <= j < 1000 ==> is_taken(taken, #[trigger] numbered_name(stem, j, ext)),
    ensures
        first_free(stem, ext, taken, from) is None,
    decreases 1000 - from,
{
    if from < 1000 {
        assert(is_taken(taken, numbered_name(stem, from as nat, ext)));
        lemma_first_free_none(stem, ext, taken, from + 1);
    }
}

/// Law: naming an imported file or a backup tries the name itself, then
/// `stem (2)ext`, `stem (3)ext`, ... up to `stem (999)ext`, and takes the first one that
/// is not taken; only when all of them are taken does it fall back (to the time stamp
/// for an import, to `stem-backup ext` for a backup). A backup goes into `dir`.
pub proof fn law_dedupe_tries_in_order(name: Seq<char>, taken: Seq<String>, stamp: u128, dir: Seq<char>)
    ensures
        !is_taken(taken, name) ==> spec_dedupe_name(name, taken, stamp) == name
            && spec_dedupe_backup_path(dir, name, taken) == spec_join(dir, name),
        forall|i: nat|
            is_taken(taken, name) && 2 <= i < 1000 && !is_taken(
                taken,
                #[trigger] numbered_name(stem_or_video(name), i, dot_ext(name)),
            ) && (forall|j: nat|
                2 <= j < i ==> is_taken(
                    taken,
                    #[trigger] numbered_name(stem_or_video(name), j, dot_ext(name)),
                )) ==> spec_dedupe_name(name, taken, stamp) == stem_or_video(name) + seq![' ', '(']
                + decimal(i) + seq![')'] + dot_ext(name) && spec_dedupe_backup_path(dir, name, taken)
                == spec_join(
                dir,
                stem_or_video(name) + seq![' ', '('] + decimal(i) + seq![')'] + dot_ext(name),
            ),
        is_taken(taken, name) && (forall|j: nat|
            2 <= j < 1000 ==> is_taken(
                taken,
                #[trigger] numbered_name(stem_or_video(name), j, dot_ext(name)),
            )) ==> spec_dedupe_name(name, taken, stamp) == stem_or_video(name) + seq![' ', '(']
            + decimal(stamp as nat) + seq![')'] + dot_ext(name) && spec_dedupe_backup_path(
            dir,
            name,
            taken,
        ) == spec_join(dir, stem_or_video(name) + seq!['-', 'b', 'a', 'c', 'k', 'u', 'p'] + dot_ext(name)),
{
    let stem = stem_or_video(name);
    let ext = dot_ext(name);
    assert forall|i: nat|
        is_taken(taken, name) && 2 <= i < 1000 && !is_taken(
            taken,
            #[trigger] numbered_name(stem, i, ext),
        ) && (forall|j: nat| 2 <= j < i ==> is_taken(taken, #[trigger] numbered_name(stem, j, ext)))
        implies first_free(stem, ext, taken, 2) == Some(i as int) by {
        lemma_first_free_is(stem, ext, taken, 2, i as int);
    }
    if is_taken(taken, name) && (forall|j: nat|
        2 <= j < 1000 ==> is_taken(taken, #[trigger] numbered_name(stem, j, ext))) {
        lemma_first_free_none(stem, ext, taken, 2);
    }
}

/// Law: the media kinds by extension, in any letter case: a path is an image exactly
/// when its extension is jpg, jpeg, png, webp, bmp or gif, and a video exactly when it
/// is mp4, webm or m4v; no path is both.
pub proof fn law_media_kinds(p: Seq<char>)
    ensures
        spec_ext_of(p) == (match spec_extension(p) {
            Some(e) => Some(e.map_values(|c: char| if 'A' <= c <= 'Z' {
                ((c as u32) + 32) as char
            } else {
                c
            })),
            None => None,
        }),
        spec_is_image(p) <==> (spec_ext_of(p) == Some(seq!['j', 'p', 'g']) || spec_ext_of(p) == Some(
            seq!['j', 'p', 'e', 'g'],
        ) || spec_ext_of(p) == Some(seq!['p', 'n', 'g']) || spec_ext_of(p) == Some(
            seq!['w', 'e', 'b', 'p'],
        ) || spec_ext_of(p) == Some(seq!['b', 'm', 'p']) || spec_ext_of(p) == Some(
            seq!['g', 'i', 'f'],
        )),
        spec_is_video(p) <==> (spec_ext_of(p) == Some(seq!['m', 'p', '4']) || spec_ext_of(p) == Some(
            seq!['w', 'e', 'b', 'm'],
        ) || spec_ext_of(p) == Some(seq!['m', '4', 'v'])),
        !(spec_is_image(p) && spec_is_video(p)),
{
    match spec_extension(p) {
        Some(e) => {
            assert(lower_seq(e) =~= e.map_values(|c: char| if 'A' <= c <= 'Z' {
                ((c as u32) + 32) as char
            } else {
                c
            }));
        },
        None => {},
    }
    law_video_and_image_exclusive(p);
}

fn is_taken_exec(taken: &Vec<String>, n: &String) -> (r: bool)
    ensures
        r == is_taken(taken@, n@),
{
    let fnm = fold_name_exec(n.as_str());
    let mut i: usize = 0;
    while i < taken.len()
        invariant
            i <= taken.len(),
            fnm@ == fold_name(n@),
            forall|j: int| 0 <= j < i ==> fold_name(taken@[j]@) != fold_name(n@),
        decreases taken.len() - i,
    {
        let ft = fold_name_exec(taken[i].as_str());
        if chars_eq(&ft, &fnm) {
            return true;
        }
        i = i + 1;
    }
    false
}

pub(crate) fn stem_or_video_chars(name: &Vec<char>) -> (r: Vec<char>)
    ensures
        r@ == stem_or_video(name@),
{
    match file_name_chars(name) {
        Some(n) => name_stem_chars(&n),
        None => {
            let v = vec!['v', 'i', 'd', 'e', 'o'];
            assert(v@ =~= seq!['v', 'i', 'd', 'e', 'o']);
            v
        },
    }
}

fn dot_ext_chars(name: &Vec<char>) -> (r: Vec<char>)
    ensures
        r@ == dot_ext(name@),
{
    let mut r: Vec<char> = Vec::new();
    match file_name_chars(name) {
        Some(n) => match name_extension_chars(&n) {
            Some(e) => {
                r.push('.');
                extend_chars(&mut r, &e);
                assert(r@ =~= seq!['.'] + e@);
            },
            None => {},
        },
        None => {},
    }
    r
}

fn numbered_name_chars(stem: &Vec<char>, i: u128, ext: &Vec<char>) -> (r: Vec<char>)
    ensures
        r@ == numbered_name(stem@, i as nat, ext@),
{
    let mut r = crate::text::slice_chars(stem, 0, stem.len());
    r.push(' ');
    r.push('(');
    extend_chars(&mut r, &decimal_chars(i));
    r.push(')');
    extend_chars(&mut r, ext);
    proof {
        assert(stem@.subrange(0, stem@.len() as int) =~= stem@);
        assert(r@ =~= numbered_name(stem@, i as nat, ext@));
    }
    r
}

/// The first free numbered name from 2 to 999, as `first_free`.
fn first_free_exec(stem: &Vec<char>, ext: &Vec<char>, taken: &Vec<String>) -> (r: Option<u128>)
    ensures
        match r {
            Some(i) => first_free(stem@, ext@, taken@, 2) == Some(i as int),
            None => first_free(stem@, ext@, taken@, 2) is None,
        },
{
    let mut i: u128 = 2;
    while i < 1000
        invariant
            2 <= i <= 1000,
            first_free(stem@, ext@, taken@, i as int) == first_free(stem@, ext@, taken@, 2),
        decreases 1000 - i,
    {
        let cand = string_from_chars(&numbered_name_chars(stem, i, ext));
        if !is_taken_exec(taken, &cand) {
            return Some(i);
        }
        i = i + 1;
    }
    None
}

/// Name for a file imported as `name` into a folder whose file names are `taken`;
/// `stamp` (milliseconds since the epoch) is the last resort.
pub fn dedupe_name(name: &str, taken: &Vec<String>, stamp: u128) -> (r: String)
    ensures
        r@ == spec_dedupe_name(name@, taken@, stamp),
{
    let own = crate::text::string_of(name);
    if !is_taken_exec(taken, &own) {
        return own;
    }
    let n = chars_of(name);
    let stem = stem_or_video_chars(&n);
    let ext = dot_ext_chars(&n);
    match first_free_exec(&stem, &ext, taken) {
        Some(i) => string_from_chars(&numbered_name_chars(&stem, i, &ext)),
        None => string_from_chars(&numbered_name_chars(&stem, stamp, &ext)),
    }
}

/// Backup path for the replaced video `name` in the backup folder `dir` whose file names are `taken`.
pub fn dedupe_backup_path(dir: &str, name: &str, taken: &Vec<String>) -> (r: String)
    ensures
        r@ == spec_dedupe_backup_path(dir@, name@, taken@),
{
    let d = chars_of(dir);
    let n = chars_of(name);
    let own = crate::text::string_of(name);
    if !is_taken_exec(taken, &own) {
        return string_from_chars(&join_chars(&d, &n));
    }
    let stem = stem_or_video_chars(&n);
    let ext = dot_ext_chars(&n);
    match first_free_exec(&stem, &ext, taken) {
        Some(i) => string_from_chars(&join_chars(&d, &numbered_name_chars(&stem, i, &ext))),
        None => {
            let mut b = crate::text::slice_chars(&stem, 0, stem.len());
            b.push('-');
            b.push('b');
            b.push('a');
            b.push('c');
            b.push('k');
            b.push('u');
            b.push('p');
            extend_chars(&mut b, &ext);
            proof {
                assert(stem@.subrange(0, stem@.len() as int) =~= stem@);
                assert(b@ =~= stem@ + seq!['-', 'b', 'a', 'c', 'k', 'u', 'p'] + ext@);
            }
            string_from_chars(&join_chars(&d, &b))
        },
    }
}

// ---------- importing ----------

/// Whether a file offered for import may be copied in: it must exist as a file
/// and be a supported video or image.
pub fn check_import_source(source: &str, is_file: bool) -> (r: Result<(), String>)
    ensures
        !is_file ==> (r matches Err(m) && m@ == "源文件不存在"@),
        is_file && !spec_is_video(source@) && !spec_is_image(source@) ==> (r matches Err(m) && m@
            == "仅支持视频（mp4/webm/m4v）或图片（jpg/png/webp/bmp/gif）"@),
        is_file && (spec_is_video(source@) || spec_is_image(source@)) ==> r is Ok,
{
    if !is_file {
        return Err(crate::text::string_of("源文件不存在"));
    }
    if !is_video(source) && !is_image(source) {
        return Err(crate::text::string_of("仅支持视频（mp4/webm/m4v）或图片（jpg/png/webp/bmp/gif）"));
    }
    Ok(())
}

/// The file name an import starts from: the source's own file name.
pub fn import_name(source: &str) -> (r: Result<String, String>)
    ensures
        match spec_file_name(source@) {
            Some(n) => r matches Ok(v) && v@ == n,
            None => r matches Err(m) && m@ == "文件名异常"@,
        },
{
    match crate::path::file_name(source) {
        Some(n) => Ok(n),
        None => Err(crate::text::string_of("文件名异常")),
    }
}

/// Where a file imported from `source` goes in the wallpaper folder `dir`, whose file
/// names are `taken`: its deduplicated name and the folder joined with that name.
pub fn import_target(dir: &str, source: &str, taken: &Vec<String>, stamp: u128) -> (r: Result<
    (String, String),
    String,
>)
    ensures
        match spec_file_name(source@) {
            Some(n) => r matches Ok((name, dest)) && name@ == spec_dedupe_name(n, taken@, stamp)
                && dest@ == spec_join(dir@, name@),
            None => r matches Err(m) && m@ == "文件名异常"@,
        },
{
    let n = import_name(source)?;
    let name = dedupe_name(n.as_str(), taken, stamp);
    let dest = crate::path::join(dir, name.as_str());
    Ok((name, dest))
}

/// The gallery entry of a freshly imported file at `dest` named `name`: an image is
/// its own cover and has no metadata; a video has no cover yet and carries `meta`.
pub fn imported_entry(
    dest: String,
    name: String,
    size_bytes: u64,
    modified_ms: Option<u64>,
    meta: Option<VideoMeta>,
) -> (r: GalleryEntry)
    ensures
        r@ == (GalleryEntryView {
            name: name@,
            path: dest@,
            kind: kind_text(spec_is_image(dest@)),
            size_bytes,
            modified_ms,
            thumb_path: if spec_is_image(dest@) {
                Some(dest@)
            } else {
                None
            },
            meta: if spec_is_image(dest@) {
                None
            } else {
                meta
            },
        }),
{
    let image = is_image(dest.as_str());
    let kind = crate::text::string_of(media_kind(dest.as_str()));
    let thumb_path = if image {
        Some(dest.clone())
    } else {
        None
    };
    let meta = if image {
        None
    } else {
        meta
    };
    GalleryEntry { name, path: dest, kind, size_bytes, modified_ms, thumb_path, meta }
}

/// A video in the wallpaper folder lacking its metadata sidecar is probed in the
/// background: the name of the item at `path` when it is a video file.
pub fn backfill_candidate(path: &str, is_file: bool) -> (r: Option<String>)
    ensures
        match r {
            Some(n) => is_file && spec_is_video(path@) && spec_file_name(path@) == Some(n@),
            None => !is_file || !spec_is_video(path@) || spec_file_name(path@) is None,
        },
{
    if !is_file || !is_video(path) {
        return None;
    }
    crate::path::file_name(path)
}

// ---------- covers ----------

/// The bytes of `data:image/jpeg;base64,`, the prefix of every cover data URL.
pub open spec fn thumb_data_url_prefix() -> Seq<u8> {
    seq![
        100u8, 97, 116, 97, 58, 105, 109, 97, 103, 101, 47, 106, 112, 101, 103, 59, 98, 97, 115,
        101, 54, 52, 44,
    ]
}

/// `s` opens with the cover data URL prefix.
pub open spec fn has_thumb_prefix(s: Seq<u8>) -> bool {
    s.len() >= 23 && s.subrange(0, 23) == thumb_data_url_prefix()
}

/// What standard base64 (`base64::engine::general_purpose::STANDARD`) decodes
/// `input` to; `None` when it rejects it.
pub uninterp spec fn standard_base64_decode(input: Seq<u8>) -> Option<Seq<u8>>;

#[verifier::external_type_specification]
#[verifier::external_body]
pub struct ExDecodeError(base64::DecodeError);

/// `Engine::decode` of the standard base64 engine. The result depends on the input
/// alone: it is `Ok` exactly when the engine accepts the input, with the decoded bytes.
#[verifier::external_body]
fn decode_standard_base64(input: &[u8]) -> (r: Result<Vec<u8>, base64::DecodeError>)
    ensures
        (r is Ok) == (standard_base64_decode(input@) is Some),
        r matches Ok(v) ==> standard_base64_decode(input@) == Some(v@),
{
    base64::engine::general_purpose::STANDARD.decode(input)
}

/// The `Display` text of a base64 decoding error (`ToString::to_string`).
/// Nothing is stated of the text.
#[verifier::external_body]
fn decode_error_text(e: &base64::DecodeError) -> String {
    e.to_string()
}

/// The base64 part of a cover data URL: what follows `data:image/jpeg;base64,`;
/// `None` when the URL does not start with it.
pub fn thumbnail_payload(data_url: &str) -> (r: Option<Vec<u8>>)
    ensures
        match r {
            Some(v) => has_thumb_prefix(data_url.spec_bytes()) && v@ == data_url.spec_bytes().subrange(
                23,
                data_url.spec_bytes().len() as int,
            ),
            None => !has_thumb_prefix(data_url.spec_bytes()),
        },
{
    let b = data_url.as_bytes();
    let p = vec![
        100u8, 97, 116, 97, 58, 105, 109, 97, 103, 101, 47, 106, 112, 101, 103, 59, 98, 97, 115,
        101, 54, 52, 44,
    ];
    assert(p@ =~= thumb_data_url_prefix());
    assert(b@ == data_url.spec_bytes());
    if b.len() < 23 {
        assert(b@.len() < 23);
        return None;
    }
    let mut i: usize = 0;
    while i < 23
        invariant
            i <= 23 <= b@.len(),
            b@ == data_url.spec_bytes(),
            p@ == thumb_data_url_prefix(),
            forall|j: int| 0 <= j < i ==> b@[j] == p@[j],
        decreases 23 - i,
    {
        if b[i] != p[i] {
            assert(b@.subrange(0, 23)[i as int] != thumb_data_url_prefix()[i as int]);
            assert(b@.subrange(0, 23) != thumb_data_url_prefix());
            return None;
        }
        i = i + 1;
    }
    assert(b@.subrange(0, 23) =~= thumb_data_url_prefix());
    let mut out: Vec<u8> = Vec::new();
    let mut k: usize = 23;
    while k < b.len()
        invariant
            23 <= k <= b@.len(),
            b@ == data_url.spec_bytes(),
            b@.subrange(0, 23) == thumb_data_url_prefix(),
            out@ == b@.subrange(23, k as int),
        decreases b.len() - k,
    {
        out.push(b[k]);
        k = k + 1;
    }
    Some(out)
}

/// Where a decoded cover of the entry `name` is written: `Ok((cover path, bytes))`
/// when decoding gave `Ok(bytes)`; for `Err(text)` the error reports the decoding failure.
pub fn thumbnail_from_decoded(dir: &str, name: &str, decoded: Result<Vec<u8>, String>) -> (r:
    Result<(String, Vec<u8>), String>)
    ensures
        match decoded {
            Ok(v) => r matches Ok((t, w)) && t@ == spec_thumb_path(dir@, name@) && w == v,
            Err(e) => r matches Err(m) && m@ == "封面数据解码失败: "@ + e@,
        },
{
    match decoded {
        Ok(bytes) => Ok((thumb_path_for(dir, name), bytes)),
        Err(e) => {
            let mut m = crate::text::string_of("封面数据解码失败: ");
            m.append(e.as_str());
            Err(m)
        },
    }
}

/// A cover for the file at `path`, sent as a JPEG data URL, ready to be written:
/// its path in the cover folder of `dir` and its decoded bytes.
pub fn prepare_thumbnail(dir: &str, path: &str, data_url: &str) -> (r: Result<
    (String, Vec<u8>),
    String,
>)
    ensures
        spec_file_name(path@) is None ==> (r matches Err(m) && m@ == "文件名异常"@),
        spec_file_name(path@) is Some && !has_thumb_prefix(data_url.spec_bytes()) ==> (r matches Err(
            m,
        ) && m@ == "封面数据格式异常"@),
        spec_file_name(path@) is Some && has_thumb_prefix(data_url.spec_bytes()) ==> {
            let payload = data_url.spec_bytes().subrange(23, data_url.spec_bytes().len() as int);
            match standard_base64_decode(payload) {
                Some(bytes) => r matches Ok((t, w)) && t@ == spec_thumb_path(
                    dir@,
                    spec_file_name(path@)->0,
                ) && w@ == bytes,
                None => r matches Err(m) && m@.len() >= "封面数据解码失败: "@.len() && m@.subrange(
                    0,
                    "封面数据解码失败: "@.len() as int,
                ) == "封面数据解码失败: "@,
            }
        },
{
    let name = match crate::path::file_name(path) {
        Some(n) => n,
        None => return Err(crate::text::string_of("文件名异常")),
    };
    let payload = match thumbnail_payload(data_url) {
        Some(p) => p,
        None => return Err(crate::text::string_of("封面数据格式异常")),
    };
    let decoded = match decode_standard_base64(payload.as_slice()) {
        Ok(bytes) => Ok(bytes),
        Err(e) => Err(decode_error_text(&e)),
    };
    let r = thumbnail_from_decoded(dir, name.as_str(), decoded);
    proof {
        if standard_base64_decode(payload@) is None {
            let m = r->Err_0;
            assert(m@.subrange(0, "封面数据解码失败: "@.len() as int) =~= "封面数据解码失败: "@);
        }
    }
    r
}

// ---------- confinement ----------

/// Whether the file at `path` lies inside the wallpaper folder `dir`, given what
/// canonicalizing each gave: `dir` as `Ok(canonical)` or `Err(error text)`, `path` as the
/// canonical path or `None` when it could not be resolved. Guards every command that
/// deletes or writes files on the front end's behalf.
pub fn ensure_inside(dir: &Result<String, String>, path: &Option<String>) -> (r: Result<(), String>)
    ensures
        match (dir, path) {
            (Err(e), _) => r matches Err(m) && m@ == "解析目录失败: "@ + e@,
            (Ok(_), None) => r matches Err(m) && m@ == "文件不存在或已被移动"@,
            (Ok(d), Some(p)) => if crate::path::spec_starts_with(p@, d@) {
                r is Ok
            } else {
                r matches Err(m) && m@ == "路径不在壁纸目录内"@
            },
        },
{
    match dir {
        Err(e) => {
            let mut m = crate::text::string_of("解析目录失败: ");
            m.append(e.as_str());
            Err(m)
        },
        Ok(d) => match path {
            None => Err(crate::text::string_of("文件不存在或已被移动")),
            Some(p) => {
                if crate::path::starts_with(p.as_str(), d.as_str()) {
                    Ok(())
                } else {
                    Err(crate::text::string_of("路径不在壁纸目录内"))
                }
            },
        },
    }
}

} // verus!
