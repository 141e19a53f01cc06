//! A model of Windows path text: drive prefixes (`C:`), the separators `\`
//! and `/`, `.` and `..` components. Paths are strings; every operation is
//! stated over the characters of its arguments. Verbatim (`\\?\`) and UNC
//! (`\\server\share`) prefixes are not modelled: such a path reads as a root
//! followed by ordinary components, which keeps comparisons between two paths of
//! the same form (as canonicalized paths are) consistent.
use vstd::prelude::*;

use crate::text::{
    ascii_upper, chars_eq, chars_of, extend_chars, slice_chars, string_from_chars, to_ascii_upper,
};

verus! {

/// Path separators on Windows.
pub open spec fn is_sep(c: char) -> bool {
    c == '/' || c == '\\'
}

pub fn is_sep_char(c: char) -> (r: bool)
    ensures
        r == is_sep(c),
{
    c == '/' || c == '\\'
}

pub open spec fn is_drive_letter(c: char) -> bool {
    ('a' <= c && c <= 'z') || ('A' <= c && c <= 'Z')
}

/// Length of the drive prefix (`C:`) that opens the path; 0 when there is none.
pub open spec fn prefix_len(p: Seq<char>) -> int {
    if p.len() >= 2 && is_drive_letter(p[0]) && p[1] == ':' {
        2
    } else {
        0
    }
}

/// The path has a root: a separator right after its prefix.
pub open spec fn has_root(p: Seq<char>) -> bool {
    prefix_len(p) < p.len() && is_sep(p[prefix_len(p)])
}

pub open spec fn is_dot(seg: Seq<char>) -> bool {
    seg.len() == 1 && seg[0] == '.'
}

pub open spec fn is_dotdot(seg: Seq<char>) -> bool {
    seg.len() == 2 && seg[0] == '.' && seg[1] == '.'
}

/// Start of the run of non-separator characters of `p[lo..end]` that ends at `end`.
pub open spec fn run_start(p: Seq<char>, lo: int, end: int) -> int
    decreases end - lo,
{
    if end <= lo || is_sep(p[end - 1]) {
        end
    } else {
        run_start(p, lo, end - 1)
    }
}

/// End of the run of non-separator characters that starts at `i`.
pub open spec fn run_end(p: Seq<char>, i: int) -> int
    decreases p.len() - i,
{
    if i >= p.len() || is_sep(p[i]) {
        i
    } else {
        run_end(p, i + 1)
    }
}

pub proof fn lemma_run_start(p: Seq<char>, lo: int, end: int)
    ensures
        lo <= end ==> lo <= run_start(p, lo, end),
        run_start(p, lo, end) <= end,
        lo < end && !is_sep(p[end - 1]) ==> run_start(p, lo, end) < end,
        forall|k: int| run_start(p, lo, end) <= k < end ==> !is_sep(#[trigger] p[k]),
        lo < run_start(p, lo, end) ==> is_sep(p[run_start(p, lo, end) - 1]),
    decreases end - lo,
{
    if end <= lo || is_sep(p[end - 1]) {
    } else {
        lemma_run_start(p, lo, end - 1);
    }
}

pub proof fn lemma_run_end(p: Seq<char>, i: int)
    ensures
        i <= p.len() ==> run_end(p, i) <= p.len(),
        i <= run_end(p, i),
        i < p.len() && !is_sep(p[i]) ==> i < run_end(p, i),
        forall|k: int| i <= k < run_end(p, i) ==> !is_sep(#[trigger] p[k]),
        run_end(p, i) < p.len() ==> is_sep(p[run_end(p, i)]),
    decreases p.len() - i,
{
    if i >= p.len() || is_sep(p[i]) {
    } else {
        lemma_run_end(p, i + 1);
    }
}

/// Bounds of the last component of `p[lo..end]` once trailing separators and
/// `.` components are skipped; `None` when there is none or it is `..`.
pub open spec fn last_name_bounds(p: Seq<char>, lo: int, end: int) -> Option<(int, int)>
    decreases end - lo,
{
    if end <= lo {
        None
    } else if is_sep(p[end - 1]) {
        last_name_bounds(p, lo, end - 1)
    } else {
        let s = run_start(p, lo, end);
        proof {
            lemma_run_start(p, lo, end);
        }
        if is_dot(p.subrange(s, end)) {
            last_name_bounds(p, lo, s)
        } else if is_dotdot(p.subrange(s, end)) {
            None
        } else {
            Some((s, end))
        }
    }
}

/// `Path::file_name`: the last normal component.
pub open spec fn spec_file_name(p: Seq<char>) -> Option<Seq<char>> {
    match last_name_bounds(p, prefix_len(p), p.len() as int) {
        Some((s, e)) => Some(p.subrange(s, e)),
        None => None,
    }
}

/// Index of the last `.` in `n[..i]`, or -1.
pub open spec fn last_dot(n: Seq<char>, i: int) -> int
    decreases i,
{
    if i <= 0 {
        -1
    } else if n[i - 1] == '.' {
        i - 1
    } else {
        last_dot(n, i - 1)
    }
}

/// Extension of a file name: what follows its last `.`, when that dot is not its first character.
pub open spec fn name_extension(n: Seq<char>) -> Option<Seq<char>> {
    let d = last_dot(n, n.len() as int);
    if d <= 0 {
        None
    } else {
        Some(n.subrange(d + 1, n.len() as int))
    }
}

/// Stem of a file name: what precedes its last `.`, or the whole name.
pub open spec fn name_stem(n: Seq<char>) -> Seq<char> {
    let d = last_dot(n, n.len() as int);
    if d <= 0 {
        n
    } else {
        n.subrange(0, d)
    }
}

/// `Path::extension`.
pub open spec fn spec_extension(p: Seq<char>) -> Option<Seq<char>> {
    match spec_file_name(p) {
        Some(n) => name_extension(n),
        None => None,
    }
}

/// `Path::file_stem`.
pub open spec fn spec_file_stem(p: Seq<char>) -> Option<Seq<char>> {
    match spec_file_name(p) {
        Some(n) => Some(name_stem(n)),
        None => None,
    }
}

/// `PathBuf::push` would add a separator between `d` and a relative component.
pub open spec fn needs_sep(d: Seq<char>) -> bool {
    d.len() > 0 && !is_sep(d[d.len() - 1]) && !(prefix_len(d) == 2 && d.len() == 2)
}

/// `Path::join`: a component with a drive replaces the base, one with a root
/// keeps only the base's drive, any other is appended after a `\` where one is needed.
pub open spec fn spec_join(d: Seq<char>, n: Seq<char>) -> Seq<char> {
    if prefix_len(n) > 0 {
        n
    } else if n.len() > 0 && is_sep(n[0]) {
        d.subrange(0, prefix_len(d)) + n
    } else if needs_sep(d) {
        d.push('\\') + n
    } else {
        d + n
    }
}

/// End of the text that `Path::parent` keeps when the last component starts at `end`:
/// trailing separators and `.` components are dropped.
pub open spec fn trim_back(p: Seq<char>, lo: int, end: int) -> int
    decreases end - lo,
{
    if end <= lo {
        lo
    } else if is_sep(p[end - 1]) {
        trim_back(p, lo, end - 1)
    } else {
        let s = run_start(p, lo, end);
        proof {
            lemma_run_start(p, lo, end);
        }
        if is_dot(p.subrange(s, end)) {
            trim_back(p, lo, s)
        } else {
            end
        }
    }
}

/// Length of the parent of `p` when its file name starts at `s`; the root is kept.
pub open spec fn parent_len(p: Seq<char>, s: int) -> int {
    let t = trim_back(p, prefix_len(p), s);
    if t == prefix_len(p) && has_root(p) {
        t + 1
    } else {
        t
    }
}

/// `Path::with_file_name`.
pub open spec fn spec_with_file_name(p: Seq<char>, n: Seq<char>) -> Seq<char> {
    match last_name_bounds(p, prefix_len(p), p.len() as int) {
        Some((s, e)) => spec_join(p.subrange(0, parent_len(p, s)), n),
        None => spec_join(p, n),
    }
}

/// `Path::parent` of a path that has a file name: the text before that name, with
/// trailing separators and `.` components dropped and the root kept.
pub open spec fn spec_parent_of_file(p: Seq<char>) -> Option<Seq<char>> {
    match last_name_bounds(p, prefix_len(p), p.len() as int) {
        Some((s, e)) => Some(p.subrange(0, parent_len(p, s))),
        None => None,
    }
}

/// Normal and `..` components of `p[i..]`, in order; `.` components are dropped.
pub open spec fn seg_list(p: Seq<char>, i: int) -> Seq<Seq<char>>
    decreases p.len() - i,
{
    if i >= p.len() {
        seq![]
    } else if is_sep(p[i]) {
        seg_list(p, i + 1)
    } else {
        let e = run_end(p, i);
        proof {
            lemma_run_end(p, i);
        }
        if is_dot(p.subrange(i, e)) {
            seg_list(p, e)
        } else {
            seq![p.subrange(i, e)] + seg_list(p, e)
        }
    }
}

/// The path opens with a `.` component (and has no root).
pub open spec fn has_cur_dir(p: Seq<char>) -> bool {
    let lo = prefix_len(p);
    !has_root(p) && lo < p.len() && p[lo] == '.' && (lo + 1 == p.len() || is_sep(p[lo + 1]))
}

/// `Path::components`, each written as text: the drive as `X:` (letter in upper
/// case), the root as `\`, a leading `.`, then the normal and `..` components.
pub open spec fn spec_components(p: Seq<char>) -> Seq<Seq<char>> {
    let lo = prefix_len(p);
    let pre = if lo == 2 {
        seq![seq![ascii_upper(p[0]), ':']]
    } else {
        Seq::<Seq<char>>::empty()
    };
    let root = if has_root(p) {
        seq![seq!['\\']]
    } else {
        Seq::<Seq<char>>::empty()
    };
    let cur = if has_cur_dir(p) {
        seq![seq!['.']]
    } else {
        Seq::<Seq<char>>::empty()
    };
    pre + root + cur + seg_list(p, lo)
}

/// `Path::starts_with`: the components of `base` open the components of `p`.
pub open spec fn spec_starts_with(p: Seq<char>, base: Seq<char>) -> bool {
    let cp = spec_components(p);
    let cb = spec_components(base);
    cb.len() <= cp.len() && cp.subrange(0, cb.len() as int) == cb
}

// ---------- joining adds one component ----------

/// A single relative component: not empty, not `.`, no separator, no drive.
pub open spec fn is_plain_component(n: Seq<char>) -> bool {
    &&& n.len() > 0
    &&& !is_dot(n)
    &&& prefix_len(n) == 0
    &&& forall|i: int| 0 <= i < n.len() ==> !is_sep(#[trigger] n[i])
}

proof fn lemma_run_end_shift(a: Seq<char>, b: Seq<char>, j: int)
    requires
        0 <= j <= b.len(),
    ensures
        run_end(a + b, a.len() + j) == a.len() + run_end(b, j),
    decreases b.len() - j,
{
    let p = a + b;
    if j < b.len() {
        assert(p[a.len() + j] == b[j]);
        if !is_sep(b[j]) {
            lemma_run_end_shift(a, b, j + 1);
        }
    }
}

proof fn lemma_seg_list_shift(a: Seq<char>, b: Seq<char>, j: int)
    requires
        0 <= j <= b.len(),
    ensures
        seg_list(a + b, a.len() + j) == seg_list(b, j),
    decreases b.len() - j,
{
    let p = a + b;
    if j < b.len() {
        assert(p[a.len() + j] == b[j]);
        if is_sep(b[j]) {
            lemma_seg_list_shift(a, b, j + 1);
        } else {
            lemma_run_end_shift(a, b, j);
            lemma_run_end(b, j);
            let e = run_end(b, j);
            assert(p.subrange(a.len() + j, a.len() + e) =~= b.subrange(j, e));
            lemma_seg_list_shift(a, b, e);
        }
    }
}

proof fn lemma_run_end_prefix(a: Seq<char>, b: Seq<char>, i: int)
    requires
        a.len() > 0,
        is_sep(a.last()),
        0 <= i < a.len(),
    ensures
        run_end(a + b, i) == run_end(a, i),
    decreases a.len() - i,
{
    let p = a + b;
    assert(p[i] == a[i]);
    if !is_sep(a[i]) {
        assert(i + 1 < a.len());
        lemma_run_end_prefix(a, b, i + 1);
    }
}

proof fn lemma_seg_list_split(a: Seq<char>, b: Seq<char>, i: int)
    requires
        a.len() > 0,
        is_sep(a.last()),
        0 <= i <= a.len(),
    ensures
        seg_list(a + b, i) == seg_list(a, i) + seg_list(b, 0),
    decreases a.len() - i,
{
    let p = a + b;
    if i == a.len() {
        lemma_seg_list_shift(a, b, 0);
        assert(seg_list(a, i) =~= Seq::<Seq<char>>::empty());
        assert(seg_list(a, i) + seg_list(b, 0) =~= seg_list(b, 0));
    } else {
        assert(p[i] == a[i]);
        if is_sep(a[i]) {
            lemma_seg_list_split(a, b, i + 1);
        } else {
            lemma_run_end_prefix(a, b, i);
            lemma_run_end(a, i);
            let e = run_end(a, i);
            assert(e < a.len());
            assert(p.subrange(i, e) =~= a.subrange(i, e));
            lemma_seg_list_split(a, b, e);
            if !is_dot(a.subrange(i, e)) {
                assert(seq![a.subrange(i, e)] + (seg_list(a, e) + seg_list(b, 0)) =~= (seq![
                    a.subrange(i, e),
                ] + seg_list(a, e)) + seg_list(b, 0));
            }
        }
    }
}

proof fn lemma_run_end_push_sep(d: Seq<char>, c: char, i: int)
    requires
        is_sep(c),
        0 <= i <= d.len(),
    ensures
        run_end(d.push(c), i) == run_end(d, i),
    decreases d.len() - i,
{
    let p = d.push(c);
    if i < d.len() {
        assert(p[i] == d[i]);
        if !is_sep(d[i]) {
            lemma_run_end_push_sep(d, c, i + 1);
        }
    } else {
        assert(p[i] == c);
    }
}

proof fn lemma_seg_list_push_sep(d: Seq<char>, c: char, i: int)
    requires
        is_sep(c),
        0 <= i <= d.len(),
    ensures
        seg_list(d.push(c), i) == seg_list(d, i),
    decreases d.len() + 1 - i,
{
    let p = d.push(c);
    if i == d.len() {
        assert(p[i] == c);
        assert(seg_list(p, i + 1) =~= Seq::<Seq<char>>::empty());
    } else {
        assert(p[i] == d[i]);
        if is_sep(d[i]) {
            lemma_seg_list_push_sep(d, c, i + 1);
        } else {
            lemma_run_end_push_sep(d, c, i);
            lemma_run_end(d, i);
            let e = run_end(d, i);
            assert(p.subrange(i, e) =~= d.subrange(i, e));
            lemma_seg_list_push_sep(d, c, e);
        }
    }
}

proof fn lemma_seg_list_plain(n: Seq<char>)
    requires
        is_plain_component(n),
    ensures
        seg_list(n, 0) == seq![n],
{
    lemma_run_end(n, 0);
    lemma_run_end_full(n, 0);
    assert(n.subrange(0, n.len() as int) =~= n);
    assert(seg_list(n, n.len() as int) =~= Seq::<Seq<char>>::empty());
    assert(seq![n] + Seq::<Seq<char>>::empty() =~= seq![n]);
}

proof fn lemma_run_end_full(n: Seq<char>, i: int)
    requires
        0 <= i <= n.len(),
        forall|k: int| 0 <= k < n.len() ==> !is_sep(#[trigger] n[k]),
    ensures
        run_end(n, i) == n.len(),
    decreases n.len() - i,
{
    if i < n.len() {
        lemma_run_end_full(n, i + 1);
    }
}

/// Law: joining a single plain component to a path adds exactly that component,
/// whatever the path (empty, a bare drive, with or without a trailing separator).
pub proof fn law_join_appends_component(d: Seq<char>, n: Seq<char>)
    requires
        is_plain_component(n),
    ensures
        spec_components(spec_join(d, n)) == spec_components(d).push(n),
{
    let p = spec_join(d, n);
    lemma_seg_list_plain(n);
    assert(!is_sep(n[0]));
    if d.len() == 0 {
        assert(p =~= n);
        assert(!has_root(n));
        assert(!has_cur_dir(n)) by {
            if n[0] == '.' && n.len() > 1 {
                assert(!is_sep(n[1]));
            }
        }
        assert(spec_components(d) =~= Seq::<Seq<char>>::empty());
        assert(spec_components(p) =~= seq![n]);
    } else if prefix_len(d) == 2 && d.len() == 2 {
        assert(p =~= d + n);
        assert(prefix_len(p) == 2);
        assert(p[2] == n[0]);
        assert(!has_root(p));
        assert(!has_cur_dir(p)) by {
            if p[2] == '.' && p.len() > 3 {
                assert(p[3] == n[1]);
            }
        }
        lemma_seg_list_shift(d, n, 0);
        assert(seg_list(d, 2) =~= Seq::<Seq<char>>::empty());
        assert(spec_components(p) =~= spec_components(d).push(n));
    } else {
        let a = if needs_sep(d) {
            d.push('\\')
        } else {
            d
        };
        assert(p =~= a + n);
        assert(a.len() > 0 && is_sep(a.last()));
        let lo = prefix_len(d);
        assert(lo < d.len());
        assert(prefix_len(p) == lo) by {
            if d.len() >= 2 {
                assert(p[0] == d[0] && p[1] == d[1]);
            } else {
                assert(p[0] == d[0]);
                if needs_sep(d) {
                    assert(p[1] == '\\');
                } else {
                    assert(is_sep(d[0]));
                }
            }
        }
        assert(p[lo] == d[lo]);
        assert(has_root(p) == has_root(d));
        assert(has_cur_dir(p) == has_cur_dir(d)) by {
            if lo + 1 < d.len() {
                assert(p[lo + 1] == d[lo + 1]);
            } else if needs_sep(d) {
                assert(p[lo + 1] == '\\');
            }
        }
        lemma_seg_list_split(a, n, lo);
        if needs_sep(d) {
            lemma_seg_list_push_sep(d, '\\', lo);
        }
        assert(seg_list(p, lo) =~= seg_list(d, lo).push(n));
        assert(spec_components(p) =~= spec_components(d).push(n));
    }
}

/// Law: a path with its file name replaced by a plain component lies inside the
/// folder of the file it started from.
pub proof fn law_with_file_name_stays_beside(p: Seq<char>, n: Seq<char>)
    requires
        is_plain_component(n),
        spec_file_name(p) is Some,
    ensures
        spec_starts_with(spec_with_file_name(p, n), spec_parent_of_file(p)->0),
{
    let lo = prefix_len(p);
    let (s, e) = last_name_bounds(p, lo, p.len() as int)->0;
    law_join_stays_inside(p.subrange(0, parent_len(p, s)), n);
}

/// Law: a path joined with a plain component lies inside the path.
pub proof fn law_join_stays_inside(d: Seq<char>, n: Seq<char>)
    requires
        is_plain_component(n),
    ensures
        spec_starts_with(spec_join(d, n), d),
{
    law_join_appends_component(d, n);
    let cd = spec_components(d);
    assert(spec_components(spec_join(d, n)).subrange(0, cd.len() as int) =~= cd);
}

// ---------- executable ----------

fn prefix_len_exec(cs: &Vec<char>) -> (r: usize)
    ensures
        r == prefix_len(cs@),
{
    if cs.len() >= 2 && cs[1] == ':' && (('a' <= cs[0] && cs[0] <= 'z') || ('A' <= cs[0]
        && cs[0] <= 'Z')) {
        2
    } else {
        0
    }
}

fn run_start_exec(cs: &Vec<char>, lo: usize, end: usize) -> (r: usize)
    requires
        lo <= end <= cs.len(),
    ensures
        r == run_start(cs@, lo as int, end as int),
{
    let mut j = end;
    while j > lo && !is_sep_char(cs[j - 1])
        invariant
            lo <= j <= end <= cs.len(),
            run_start(cs@, lo as int, j as int) == run_start(cs@, lo as int, end as int),
        decreases j,
    {
        j = j - 1;
    }
    j
}

fn run_end_exec(cs: &Vec<char>, i: usize) -> (r: usize)
    requires
        i <= cs.len(),
    ensures
        r == run_end(cs@, i as int),
{
    let mut j = i;
    while j < cs.len() && !is_sep_char(cs[j])
        invariant
            i <= j <= cs.len(),
            run_end(cs@, j as int) == run_end(cs@, i as int),
        decreases cs.len() - j,
    {
        j = j + 1;
    }
    j
}

fn is_dot_at(cs: &Vec<char>, s: usize, e: usize) -> (r: bool)
    requires
        s <= e <= cs.len(),
    ensures
        r == is_dot(cs@.subrange(s as int, e as int)),
{
    e - s == 1 && cs[s] == '.'
}

fn is_dotdot_at(cs: &Vec<char>, s: usize, e: usize) -> (r: bool)
    requires
        s <= e <= cs.len(),
    ensures
        r == is_dotdot(cs@.subrange(s as int, e as int)),
{
    e - s == 2 && cs[s] == '.' && cs[s + 1] == '.'
}

/// Bounds of the file name of `cs`, as `last_name_bounds` over the whole text.
fn name_bounds(cs: &Vec<char>) -> (r: Option<(usize, usize)>)
    ensures
        match r {
            Some((s, e)) => last_name_bounds(cs@, prefix_len(cs@), cs@.len() as int) == Some(
                (s as int, e as int),
            ) && s < e <= cs.len(),
            None => last_name_bounds(cs@, prefix_len(cs@), cs@.len() as int) is None,
        },
{
    let lo = prefix_len_exec(cs);
    let mut end = cs.len();
    loop
        invariant
            lo == prefix_len(cs@),
            lo <= end <= cs.len(),
            last_name_bounds(cs@, lo as int, end as int) == last_name_bounds(
                cs@,
                lo as int,
                cs@.len() as int,
            ),
        decreases end,
    {
        if end <= lo {
            return None;
        }
        if is_sep_char(cs[end - 1]) {
            end = end - 1;
        } else {
            let s = run_start_exec(cs, lo, end);
            proof {
                lemma_run_start(cs@, lo as int, end as int);
            }
            if is_dot_at(cs, s, end) {
                end = s;
            } else if is_dotdot_at(cs, s, end) {
                return None;
            } else {
                return Some((s, end));
            }
        }
    }
}

proof fn lemma_trim_back(p: Seq<char>, lo: int, end: int)
    requires
        lo <= end,
    ensures
        lo <= trim_back(p, lo, end) <= end,
    decreases end - lo,
{
    if end <= lo {
    } else if is_sep(p[end - 1]) {
        lemma_trim_back(p, lo, end - 1);
    } else {
        lemma_run_start(p, lo, end);
        let s = run_start(p, lo, end);
        if is_dot(p.subrange(s, end)) {
            lemma_trim_back(p, lo, s);
        }
    }
}

fn trim_back_exec(cs: &Vec<char>, lo: usize, stop: usize) -> (r: usize)
    requires
        lo <= stop <= cs.len(),
    ensures
        r == trim_back(cs@, lo as int, stop as int),
        lo <= r <= stop,
{
    proof {
        lemma_trim_back(cs@, lo as int, stop as int);
    }
    let mut end = stop;
    let ghost end0 = stop as int;
    loop
        invariant
            lo <= end <= end0 <= cs.len(),
            end0 == stop,
            trim_back(cs@, lo as int, end as int) == trim_back(cs@, lo as int, end0),
        decreases end,
    {
        if end <= lo {
            return lo;
        }
        if is_sep_char(cs[end - 1]) {
            end = end - 1;
        } else {
            let s = run_start_exec(cs, lo, end);
            proof {
                lemma_run_start(cs@, lo as int, end as int);
            }
            if is_dot_at(cs, s, end) {
                end = s;
            } else {
                return end;
            }
        }
    }
}

/// `Path::file_name`, on characters.
pub fn file_name_chars(cs: &Vec<char>) -> (r: Option<Vec<char>>)
    ensures
        match r {
            Some(v) => spec_file_name(cs@) == Some(v@),
            None => spec_file_name(cs@) is None,
        },
{
    match name_bounds(cs) {
        Some((s, e)) => Some(slice_chars(cs, s, e)),
        None => None,
    }
}

/// `Path::file_name`: the last normal component of `path`.
pub fn file_name(path: &str) -> (r: Option<String>)
    ensures
        match r {
            Some(v) => spec_file_name(path@) == Some(v@),
            None => spec_file_name(path@) is None,
        },
{
    let cs = chars_of(path);
    match file_name_chars(&cs) {
        Some(v) => Some(string_from_chars(&v)),
        None => None,
    }
}

pub proof fn lemma_last_dot(n: Seq<char>, i: int)
    requires
        0 <= i <= n.len(),
    ensures
        -1 <= last_dot(n, i) < i,
        0 <= last_dot(n, i) ==> n[last_dot(n, i)] == '.',
        forall|j: int| last_dot(n, i) < j < i ==> #[trigger] n[j] != '.',
    decreases i,
{
    if i > 0 && n[i - 1] != '.' {
        lemma_last_dot(n, i - 1);
    }
}

/// Characters other than `.` in `n[k..i]` do not move the last dot.
pub proof fn lemma_last_dot_skip(n: Seq<char>, k: int, i: int)
    requires
        0 <= k <= i <= n.len(),
        forall|j: int| k <= j < i ==> #[trigger] n[j] != '.',
    ensures
        last_dot(n, i) == last_dot(n, k),
    decreases i - k,
{
    if i > k {
        lemma_last_dot_skip(n, k, i - 1);
    }
}

/// The last dot of a prefix does not see what follows it.
pub proof fn lemma_last_dot_prefix(a: Seq<char>, b: Seq<char>, i: int)
    requires
        0 <= i <= a.len(),
    ensures
        last_dot(a + b, i) == last_dot(a, i),
    decreases i,
{
    if i > 0 {
        assert((a + b)[i - 1] == a[i - 1]);
        lemma_last_dot_prefix(a, b, i - 1);
    }
}

proof fn lemma_run_start_suffix(a: Seq<char>, m: Seq<char>, lo: int, j: int)
    requires
        0 <= lo <= a.len(),
        a.len() == lo || is_sep(a.last()),
        forall|k: int| 0 <= k < m.len() ==> !is_sep(#[trigger] m[k]),
        0 <= j <= m.len(),
    ensures
        run_start(a + m, lo, a.len() + j) == a.len(),
    decreases j,
{
    let p = a + m;
    if j == 0 {
        if a.len() > lo {
            assert(p[a.len() - 1] == a.last());
        }
    } else {
        assert(p[a.len() + j - 1] == m[j - 1]);
        lemma_run_start_suffix(a, m, lo, j - 1);
    }
}

/// The file name of a path joined with a plain component (other than `..`) is that component.
pub proof fn lemma_file_name_of_join(d: Seq<char>, m: Seq<char>)
    requires
        is_plain_component(m),
        !is_dotdot(m),
    ensures
        spec_file_name(spec_join(d, m)) == Some(m),
{
    let p = spec_join(d, m);
    assert(!is_sep(m[0]));
    let a = if d.len() == 0 {
        d
    } else if prefix_len(d) == 2 && d.len() == 2 {
        d
    } else if needs_sep(d) {
        d.push('\\')
    } else {
        d
    };
    assert(p =~= a + m);
    let lo = prefix_len(p);
    if d.len() == 0 {
        assert(p =~= m);
        assert(lo == 0);
    } else if prefix_len(d) == 2 && d.len() == 2 {
        assert(p[0] == d[0] && p[1] == d[1]);
        assert(lo == 2);
    } else {
        assert(a.len() > 0 && is_sep(a.last()));
        assert(lo == prefix_len(d)) by {
            if d.len() >= 2 {
                assert(p[0] == d[0] && p[1] == d[1]);
            } else {
                assert(p[0] == d[0]);
                if needs_sep(d) {
                    assert(p[1] == '\\');
                } else {
                    assert(is_sep(d[0]));
                }
            }
        }
        assert(lo < a.len());
    }
    lemma_run_start_suffix(a, m, lo, m.len() as int);
    assert(p[p.len() - 1] == m[m.len() - 1]);
    assert(p.subrange(a.len() as int, p.len() as int) =~= m);
}

fn last_dot_exec(n: &Vec<char>) -> (r: Option<usize>)
    ensures
        match r {
            Some(d) => last_dot(n@, n@.len() as int) == d && d < n.len(),
            None => last_dot(n@, n@.len() as int) == -1,
        },
{
    proof {
        lemma_last_dot(n@, n@.len() as int);
    }
    let mut i = n.len();
    while i > 0 && n[i - 1] != '.'
        invariant
            i <= n.len(),
            last_dot(n@, i as int) == last_dot(n@, n@.len() as int),
        decreases i,
    {
        i = i - 1;
    }
    if i == 0 {
        None
    } else {
        Some(i - 1)
    }
}

/// Extension of a file name (see `name_extension`).
pub fn name_extension_chars(n: &Vec<char>) -> (r: Option<Vec<char>>)
    ensures
        match r {
            Some(v) => name_extension(n@) == Some(v@),
            None => name_extension(n@) is None,
        },
{
    match last_dot_exec(n) {
        Some(d) if d > 0 => Some(slice_chars(n, d + 1, n.len())),
        _ => None,
    }
}

/// Stem of a file name (see `name_stem`).
pub fn name_stem_chars(n: &Vec<char>) -> (r: Vec<char>)
    ensures
        r@ == name_stem(n@),
{
    match last_dot_exec(n) {
        Some(d) if d > 0 => slice_chars(n, 0, d),
        _ => {
            proof {
                assert(n@.subrange(0, n@.len() as int) =~= n@);
            }
            slice_chars(n, 0, n.len())
        },
    }
}

/// `Path::join`, on characters.
pub fn join_chars(d: &Vec<char>, n: &Vec<char>) -> (r: Vec<char>)
    ensures
        r@ == spec_join(d@, n@),
{
    let pn = prefix_len_exec(n);
    if pn > 0 {
        return slice_chars(n, 0, n.len());
    }
    if n.len() > 0 && is_sep_char(n[0]) {
        let pd = prefix_len_exec(d);
        let mut r = slice_chars(d, 0, pd);
        extend_chars(&mut r, n);
        return r;
    }
    let pd = prefix_len_exec(d);
    let need = d.len() > 0 && !is_sep_char(d[d.len() - 1]) && !(pd == 2 && d.len() == 2);
    let mut r = slice_chars(d, 0, d.len());
    if need {
        r.push('\\');
    }
    extend_chars(&mut r, n);
    proof {
        assert(d@.subrange(0, d@.len() as int) =~= d@);
    }
    r
}

/// `Path::join`: `dir` followed by the component `name`.
pub fn join(dir: &str, name: &str) -> (r: String)
    ensures
        r@ == spec_join(dir@, name@),
{
    let d = chars_of(dir);
    let n = chars_of(name);
    string_from_chars(&join_chars(&d, &n))
}

/// `Path::with_file_name`, on characters.
pub fn with_file_name_chars(p: &Vec<char>, n: &Vec<char>) -> (r: Vec<char>)
    ensures
        r@ == spec_with_file_name(p@, n@),
{
    match name_bounds(p) {
        Some((s, _e)) => {
            let lo = prefix_len_exec(p);
            proof {
                lemma_name_bounds_range(p@, lo as int, p@.len() as int);
            }
            let t = trim_back_exec(p, lo, s);
            let keep = if t == lo && lo < p.len() && is_sep_char(p[lo]) {
                t + 1
            } else {
                t
            };
            let parent = slice_chars(p, 0, keep);
            join_chars(&parent, n)
        },
        None => join_chars(p, n),
    }
}

/// The folder of the file at `path` (`Path::parent` when `path` has a file name);
/// `None` when it has none.
pub fn parent_of_file(path: &str) -> (r: Option<String>)
    ensures
        match r {
            Some(v) => spec_parent_of_file(path@) == Some(v@),
            None => spec_parent_of_file(path@) is None,
        },
{
    let p = chars_of(path);
    match name_bounds(&p) {
        Some((s, _e)) => {
            let lo = prefix_len_exec(&p);
            proof {
                lemma_name_bounds_range(p@, lo as int, p@.len() as int);
            }
            let t = trim_back_exec(&p, lo, s);
            let keep = if t == lo && lo < p.len() && is_sep_char(p[lo]) {
                t + 1
            } else {
                t
            };
            Some(string_from_chars(&slice_chars(&p, 0, keep)))
        },
        None => None,
    }
}

pub proof fn lemma_name_bounds_range(p: Seq<char>, lo: int, end: int)
    requires
        0 <= lo <= end <= p.len(),
    ensures
        last_name_bounds(p, lo, end) matches Some((s, e)) ==> lo <= s < e <= end && forall|k: int|
            s <= k < e ==> !is_sep(#[trigger] p[k]),
        last_name_bounds(p, lo, end) matches Some((s, e)) ==> !is_dot(p.subrange(s, e)) && !is_dotdot(
            p.subrange(s, e),
        ),
    decreases end - lo,
{
    if end <= lo {
    } else if is_sep(p[end - 1]) {
        lemma_name_bounds_range(p, lo, end - 1);
    } else {
        lemma_run_start(p, lo, end);
        let s = run_start(p, lo, end);
        if is_dot(p.subrange(s, end)) {
            lemma_name_bounds_range(p, lo, s);
        }
    }
}

/// Components of `cs[i..]` (see `seg_list`).
fn seg_list_exec(cs: &Vec<char>, i: usize) -> (r: Vec<Vec<char>>)
    requires
        i <= cs.len(),
    ensures
        r@.map_values(|v: Vec<char>| v@) == seg_list(cs@, i as int),
{
    let mut out: Vec<Vec<char>> = Vec::new();
    let mut j = i;
    while j < cs.len()
        invariant
            i <= j <= cs.len(),
            out@.map_values(|v: Vec<char>| v@) + seg_list(cs@, j as int) == seg_list(
                cs@,
                i as int,
            ),
        decreases cs.len() - j,
    {
        if is_sep_char(cs[j]) {
            j = j + 1;
        } else {
            let e = run_end_exec(cs, j);
            proof {
                lemma_run_end(cs@, j as int);
            }
            if is_dot_at(cs, j, e) {
                j = e;
            } else {
                let seg = slice_chars(cs, j, e);
                let ghost before = out@.map_values(|v: Vec<char>| v@);
                out.push(seg);
                proof {
                    assert(out@.map_values(|v: Vec<char>| v@) =~= before.push(seg@));
                    assert(before.push(seg@) + seg_list(cs@, e as int) =~= before + (seq![seg@]
                        + seg_list(cs@, e as int)));
                }
                j = e;
            }
        }
    }
    proof {
        assert(out@.map_values(|v: Vec<char>| v@) + seg_list(cs@, j as int) =~= out@.map_values(
            |v: Vec<char>| v@,
        ));
    }
    out
}

/// `Path::components` of `cs`, each as text (see `spec_components`).
pub fn components_chars(cs: &Vec<char>) -> (r: Vec<Vec<char>>)
    ensures
        r@.map_values(|v: Vec<char>| v@) == spec_components(cs@),
{
    let lo = prefix_len_exec(cs);
    let mut head: Vec<Vec<char>> = Vec::new();
    let ghost pre = if lo == 2 {
        seq![seq![ascii_upper(cs@[0]), ':']]
    } else {
        Seq::<Seq<char>>::empty()
    };
    if lo == 2 {
        let mut d: Vec<char> = Vec::new();
        d.push(to_ascii_upper(cs[0]));
        d.push(':');
        assert(d@ =~= seq![ascii_upper(cs@[0]), ':']);
        head.push(d);
    }
    assert(head@.map_values(|v: Vec<char>| v@) =~= pre);
    let root = lo < cs.len() && is_sep_char(cs[lo]);
    let ghost rt = if has_root(cs@) {
        seq![seq!['\\']]
    } else {
        Seq::<Seq<char>>::empty()
    };
    if root {
        let mut d: Vec<char> = Vec::new();
        d.push('\\');
        assert(d@ =~= seq!['\\']);
        head.push(d);
    }
    assert(head@.map_values(|v: Vec<char>| v@) =~= pre + rt);
    let ghost cur = if has_cur_dir(cs@) {
        seq![seq!['.']]
    } else {
        Seq::<Seq<char>>::empty()
    };
    if !root && lo < cs.len() && cs[lo] == '.' && (lo + 1 == cs.len() || is_sep_char(cs[lo + 1])) {
        let mut d: Vec<char> = Vec::new();
        d.push('.');
        assert(d@ =~= seq!['.']);
        head.push(d);
    }
    assert(head@.map_values(|v: Vec<char>| v@) =~= pre + rt + cur);
    let ghost hv = head@.map_values(|v: Vec<char>| v@);
    let segs = seg_list_exec(cs, lo);
    let mut i: usize = 0;
    while i < segs.len()
        invariant
            i <= segs.len(),
            head@.map_values(|v: Vec<char>| v@) == hv + segs@.map_values(|v: Vec<char>| v@).subrange(
                0,
                i as int,
            ),
        decreases segs.len() - i,
    {
        let ghost before = head@.map_values(|v: Vec<char>| v@);
        head.push(slice_chars(&segs[i], 0, segs[i].len()));
        proof {
            assert(segs[i as int]@.subrange(0, segs[i as int]@.len() as int) =~= segs[i as int]@);
            assert(head@.map_values(|v: Vec<char>| v@) =~= before.push(segs[i as int]@));
            assert(segs@.map_values(|v: Vec<char>| v@).subrange(0, i + 1) =~= segs@.map_values(
                |v: Vec<char>| v@,
            ).subrange(0, i as int).push(segs[i as int]@));
        }
        i = i + 1;
    }
    proof {
        assert(segs@.map_values(|v: Vec<char>| v@).subrange(0, segs.len() as int) =~= segs@.map_values(
            |v: Vec<char>| v@,
        ));
        assert(hv =~= pre + rt + cur);
    }
    head
}

/// `Path::starts_with`, on characters.
pub fn starts_with_chars(p: &Vec<char>, base: &Vec<char>) -> (r: bool)
    ensures
        r == spec_starts_with(p@, base@),
{
    let cp = components_chars(p);
    let cb = components_chars(base);
    let ghost vp = cp@.map_values(|v: Vec<char>| v@);
    let ghost vb = cb@.map_values(|v: Vec<char>| v@);
    if cb.len() > cp.len() {
        return false;
    }
    let mut i: usize = 0;
    while i < cb.len()
        invariant
            cb.len() <= cp.len(),
            i <= cb.len(),
            vp == cp@.map_values(|v: Vec<char>| v@),
            vb == cb@.map_values(|v: Vec<char>| v@),
            vp == spec_components(p@),
            vb == spec_components(base@),
            forall|j: int| 0 <= j < i ==> vp[j] == vb[j],
        decreases cb.len() - i,
    {
        if !chars_eq(&cp[i], &cb[i]) {
            proof {
                assert(vp.subrange(0, vb.len() as int)[i as int] != vb[i as int]);
            }
            return false;
        }
        i = i + 1;
    }
    proof {
        assert(vp.subrange(0, vb.len() as int) =~= vb);
    }
    true
}

/// `Path::starts_with`: `base`'s components open `path`'s components.
pub fn starts_with(path: &str, base: &str) -> (r: bool)
    ensures
        r == spec_starts_with(path@, base@),
{
    let p = chars_of(path);
    let b = chars_of(base);
    starts_with_chars(&p, &b)
}

} // verus!
