use vstd::prelude::*;

use crate::matcher::is_ascii_alpha;
use crate::text::{push_chars, views};

verus! {

// ---------------------------------------------------------------------------
// Specification: Windows path prefixes, roots and components (`std::path` on Windows)
// ---------------------------------------------------------------------------

/// The kinds of prefix a Windows path can start with (`std::path::Prefix`): none, a drive
/// (`C:`), a UNC share (`\\server\share`), a device (`\\.\COM42`), and the verbatim forms
/// (`\\?\name`, `\\?\UNC\server\share`, `\\?\C:`).
#[derive(PartialEq, Eq, Structural, Clone, Copy, Debug)]
pub enum WinPrefix {
    NoPrefix,
    Disk,
    Unc,
    DeviceNs,
    Verbatim,
    VerbatimUnc,
    VerbatimDisk,
}

/// A separator of a Windows path: `\` always, `/` except after a verbatim prefix.
pub open spec fn is_sep_in(c: char, verbatim: bool) -> bool {
    c == '\\' || (!verbatim && c == '/')
}

/// Where the component that starts at `i` ends: at the first separator from `i` on, or at
/// the end of the path.
pub open spec fn component_end(p: Seq<char>, i: int, verbatim: bool) -> int
    decreases p.len() - i,
{
    if i < 0 || i >= p.len() {
        p.len() as int
    } else if is_sep_in(p[i], verbatim) {
        i
    } else {
        component_end(p, i + 1, verbatim)
    }
}

/// Where a server-and-share pair that starts at `i` ends: after the share when it is not
/// empty, else after the server.
pub open spec fn pair_end(p: Seq<char>, i: int, verbatim: bool) -> int {
    let s = component_end(p, i, verbatim);
    if s < p.len() && component_end(p, s + 1, verbatim) > s + 1 {
        component_end(p, s + 1, verbatim)
    } else {
        s
    }
}

/// The prefix of a Windows path and its length. Two leading separators (either kind) start
/// a UNC prefix when a non-empty server and share follow, or a device prefix when `.` and a
/// separator follow; `\\?\` (backslashes only) starts a verbatim prefix, in which only `\`
/// separates. A letter and a colon are a drive.
pub open spec fn win_prefix(p: Seq<char>) -> (WinPrefix, int) {
    if p.len() >= 2 && is_sep_in(p[0], false) && is_sep_in(p[1], false) {
        if p.len() >= 4 && p[0] == '\\' && p[1] == '\\' && p[2] == '?' && p[3] == '\\' {
            if p.len() >= 8 && p[4] == 'U' && p[5] == 'N' && p[6] == 'C' && is_sep_in(p[7], false) {
                (WinPrefix::VerbatimUnc, pair_end(p, 8, true))
            } else if p.len() >= 6 && is_ascii_alpha(p[4]) && p[5] == ':' && (p.len() == 6 || p[6]
                == '\\') {
                (WinPrefix::VerbatimDisk, 6)
            } else {
                (WinPrefix::Verbatim, component_end(p, 4, true))
            }
        } else if p.len() >= 4 && p[2] == '.' && is_sep_in(p[3], false) {
            (WinPrefix::DeviceNs, component_end(p, 4, false))
        } else {
            let s = component_end(p, 2, false);
            if s > 2 && s < p.len() && component_end(p, s + 1, false) > s + 1 {
                (WinPrefix::Unc, component_end(p, s + 1, false))
            } else {
                (WinPrefix::NoPrefix, 0)
            }
        }
    } else if p.len() >= 2 && is_ascii_alpha(p[0]) && p[1] == ':' {
        (WinPrefix::Disk, 2)
    } else {
        (WinPrefix::NoPrefix, 0)
    }
}

/// The verbatim prefixes.
pub open spec fn prefix_verbatim(k: WinPrefix) -> bool {
    k == WinPrefix::Verbatim || k == WinPrefix::VerbatimUnc || k == WinPrefix::VerbatimDisk
}

/// The drive prefixes (`C:` and `\\?\C:`).
pub open spec fn prefix_is_drive(k: WinPrefix) -> bool {
    k == WinPrefix::Disk || k == WinPrefix::VerbatimDisk
}

/// Whether a Windows path has a root: a separator right after its prefix, or a prefix
/// other than a drive (those stand for a root of their own).
pub open spec fn win_has_root(p: Seq<char>) -> bool {
    let (k, n) = win_prefix(p);
    (0 <= n < p.len() && is_sep_in(p[n], prefix_verbatim(k))) || (k != WinPrefix::NoPrefix
        && !prefix_is_drive(k))
}

/// Whether a Windows path is absolute: it has a prefix and a root.
pub open spec fn win_is_absolute(p: Seq<char>) -> bool {
    win_prefix(p).0 != WinPrefix::NoPrefix && win_has_root(p)
}

/// The non-empty pieces of `p` from index `i` on between separators, given the piece `cur`
/// being read and the pieces `acc` read so far.
pub open spec fn segments_from(
    p: Seq<char>,
    i: int,
    verbatim: bool,
    cur: Seq<char>,
    acc: Seq<Seq<char>>,
) -> Seq<Seq<char>>
    decreases p.len() - i,
{
    if i < 0 || i >= p.len() {
        if cur.len() > 0 {
            acc.push(cur)
        } else {
            acc
        }
    } else if is_sep_in(p[i], verbatim) {
        segments_from(
            p,
            i + 1,
            verbatim,
            Seq::empty(),
            if cur.len() > 0 {
                acc.push(cur)
            } else {
                acc
            },
        )
    } else {
        segments_from(p, i + 1, verbatim, cur.push(p[i]), acc)
    }
}

/// The non-empty pieces of `p` between separators, in order.
pub open spec fn segments(p: Seq<char>, verbatim: bool) -> Seq<Seq<char>> {
    segments_from(p, 0, verbatim, Seq::empty(), Seq::empty())
}

/// A piece that names an entry (neither `.` nor `..`).
pub open spec fn is_normal_segment(s: Seq<char>) -> bool {
    s != "."@ && s != ".."@
}

/// The pieces after one more piece of a pushed path: `.` changes nothing, `..` removes a
/// last entry name, any other piece is added.
pub open spec fn segment_step(segs: Seq<Seq<char>>, s: Seq<char>) -> Seq<Seq<char>> {
    if s == "."@ {
        segs
    } else if s == ".."@ {
        if segs.len() > 0 && is_normal_segment(segs.last()) {
            segs.drop_last()
        } else {
            segs
        }
    } else {
        segs.push(s)
    }
}

/// The pieces after the pieces `rs` of a pushed path, in turn.
pub open spec fn apply_segments(segs: Seq<Seq<char>>, rs: Seq<Seq<char>>) -> Seq<Seq<char>>
    decreases rs.len(),
{
    if rs.len() == 0 {
        segs
    } else {
        apply_segments(segment_step(segs, rs[0]), rs.drop_first())
    }
}

/// The pieces joined with `\`.
pub open spec fn join_backslash(segs: Seq<Seq<char>>) -> Seq<char>
    decreases segs.len(),
{
    if segs.len() == 0 {
        Seq::empty()
    } else if segs.len() == 1 {
        segs[0]
    } else {
        join_backslash(segs.drop_last()).push('\\') + segs.last()
    }
}

/// A relative path without a prefix pushed onto a path with a verbatim prefix, as
/// `PathBuf::push` does: the components are rebuilt, `.` pieces of the pushed path are
/// dropped and its `..` pieces remove a last entry name; a pushed path with a root keeps
/// only the prefix of the base.
pub open spec fn verbatim_push(base: Seq<char>, rel: Seq<char>) -> Seq<char> {
    let (bk, bn) = win_prefix(base);
    let base_root = 0 <= bn < base.len() && base[bn] == '\\';
    let base_segs = segments(base.skip(if base_root { bn + 1 } else { bn }), true);
    let rel_root = rel.len() > 0 && is_sep_in(rel[0], false);
    let segs = apply_segments(
        if rel_root {
            Seq::empty()
        } else {
            base_segs
        },
        segments(rel, false),
    );
    let root = base_root || rel_root;
    base.take(bn) + (if root || (bk != WinPrefix::VerbatimDisk && segs.len() > 0) {
        seq!['\\']
    } else {
        Seq::empty()
    }) + join_backslash(segs)
}

/// `rel` pushed onto `base` on Windows, as `PathBuf::push` does: an absolute path or one
/// with a prefix replaces the base; onto a verbatim base the components are rebuilt; a
/// rooted path keeps only the base's prefix; otherwise `\` goes between the two unless the
/// base is empty, ends with a separator or is a bare drive.
pub open spec fn win_push(base: Seq<char>, rel: Seq<char>) -> Seq<char> {
    let (bk, bn) = win_prefix(base);
    if win_is_absolute(rel) || win_prefix(rel).0 != WinPrefix::NoPrefix {
        rel
    } else if prefix_verbatim(bk) && rel.len() > 0 {
        verbatim_push(base, rel)
    } else if win_has_root(rel) {
        base.take(bn) + rel
    } else if base.len() > 0 && !is_sep_in(base.last(), false) && !(bn > 0 && bn == base.len()
        && prefix_is_drive(bk)) {
        base.push('\\') + rel
    } else {
        base + rel
    }
}

// ---------------------------------------------------------------------------
// Executable Windows path rules
// ---------------------------------------------------------------------------

fn sep_in(c: char, verbatim: bool) -> (b: bool)
    ensures
        b == is_sep_in(c, verbatim),
{
    c == '\\' || (!verbatim && c == '/')
}

fn alpha(c: char) -> (b: bool)
    ensures
        b == is_ascii_alpha(c),
{
    ('a' <= c && c <= 'z') || ('A' <= c && c <= 'Z')
}

/// Where the component that starts at `i` ends.
fn component_end_at(p: &[char], i: usize, verbatim: bool) -> (e: usize)
    ensures
        e == component_end(p@, i as int, verbatim),
        i <= p@.len() ==> i <= e <= p@.len(),
        i > p@.len() ==> e == p@.len(),
{
    let mut j = i;
    if j >= p.len() {
        return p.len();
    }
    while j < p.len() && !sep_in(p[j], verbatim)
        invariant
            i <= j <= p@.len(),
            component_end(p@, i as int, verbatim) == component_end(p@, j as int, verbatim),
        decreases p@.len() - j,
    {
        j = j + 1;
    }
    j
}

/// The prefix of a Windows path and its length.
pub fn windows_prefix(p: &[char]) -> (out: (WinPrefix, usize))
    ensures
        out.0 == win_prefix(p@).0,
        out.1 == win_prefix(p@).1,
        out.1 <= p@.len(),
{
    let n = p.len();
    if n >= 2 && sep_in(p[0], false) && sep_in(p[1], false) {
        if n >= 4 && p[0] == '\\' && p[1] == '\\' && p[2] == '?' && p[3] == '\\' {
            if n >= 8 && p[4] == 'U' && p[5] == 'N' && p[6] == 'C' && sep_in(p[7], false) {
                let s = component_end_at(p, 8, true);
                if s < n {
                    let e = component_end_at(p, s + 1, true);
                    if e > s + 1 {
                        return (WinPrefix::VerbatimUnc, e);
                    }
                }
                return (WinPrefix::VerbatimUnc, s);
            } else if n >= 6 && alpha(p[4]) && p[5] == ':' && (n == 6 || p[6] == '\\') {
                return (WinPrefix::VerbatimDisk, 6);
            } else {
                let e = component_end_at(p, 4, true);
                return (WinPrefix::Verbatim, e);
            }
        } else if n >= 4 && p[2] == '.' && sep_in(p[3], false) {
            let e = component_end_at(p, 4, false);
            return (WinPrefix::DeviceNs, e);
        } else {
            let s = component_end_at(p, 2, false);
            if s > 2 && s < n {
                let e = component_end_at(p, s + 1, false);
                if e > s + 1 {
                    return (WinPrefix::Unc, e);
                }
            }
            return (WinPrefix::NoPrefix, 0);
        }
    } else if n >= 2 && alpha(p[0]) && p[1] == ':' {
        return (WinPrefix::Disk, 2);
    }
    (WinPrefix::NoPrefix, 0)
}

fn verbatim_kind(k: WinPrefix) -> (b: bool)
    ensures
        b == prefix_verbatim(k),
{
    k == WinPrefix::Verbatim || k == WinPrefix::VerbatimUnc || k == WinPrefix::VerbatimDisk
}

fn drive_kind(k: WinPrefix) -> (b: bool)
    ensures
        b == prefix_is_drive(k),
{
    k == WinPrefix::Disk || k == WinPrefix::VerbatimDisk
}

/// Whether a Windows path has a root.
pub fn windows_has_root(p: &[char]) -> (b: bool)
    ensures
        b == win_has_root(p@),
{
    let (k, n) = windows_prefix(p);
    (n < p.len() && sep_in(p[n], verbatim_kind(k))) || (k != WinPrefix::NoPrefix && !drive_kind(k))
}

/// Whether a Windows path is absolute: it has a prefix and a root.
pub fn windows_is_absolute(p: &[char]) -> (b: bool)
    ensures
        b == win_is_absolute(p@),
{
    let (k, _) = windows_prefix(p);
    k != WinPrefix::NoPrefix && windows_has_root(p)
}

/// The non-empty pieces of `p` between separators, in order.
fn segments_of(p: &[char], verbatim: bool) -> (out: Vec<Vec<char>>)
    ensures
        views(out@) == segments(p@, verbatim),
{
    let mut acc: Vec<Vec<char>> = Vec::new();
    let mut cur: Vec<char> = Vec::new();
    let mut i: usize = 0;
    assert(views(acc@) =~= Seq::<Seq<char>>::empty());
    assert(cur@ =~= Seq::<char>::empty());
    while i < p.len()
        invariant
            i <= p@.len(),
            segments_from(p@, i as int, verbatim, cur@, views(acc@)) == segments(p@, verbatim),
        decreases p@.len() - i,
    {
        if sep_in(p[i], verbatim) {
            if cur.len() > 0 {
                let ghost before = views(acc@);
                acc.push(cur);
                assert(views(acc@) =~= before.push(cur@));
            }
            cur = Vec::new();
        } else {
            cur.push(p[i]);
        }
        i = i + 1;
    }
    if cur.len() > 0 {
        let ghost before = views(acc@);
        acc.push(cur);
        assert(views(acc@) =~= before.push(cur@));
    }
    acc
}

fn is_dot(s: &[char]) -> (b: bool)
    ensures
        b == (s@ == "."@),
{
    proof {
        reveal_strlit(".");
    }
    let r = s.len() == 1 && s[0] == '.';
    if r {
        assert(s@ =~= "."@);
    }
    if !r && s.len() == 1 {
        assert(s@[0] != "."@[0]);
    }
    r
}

fn is_dot_dot(s: &[char]) -> (b: bool)
    ensures
        b == (s@ == ".."@),
{
    proof {
        reveal_strlit("..");
    }
    let r = s.len() == 2 && s[0] == '.' && s[1] == '.';
    if r {
        assert(s@ =~= ".."@);
    }
    if !r && s.len() == 2 {
        assert(s@[0] != ".."@[0] || s@[1] != ".."@[1]);
    }
    r
}

/// The pieces after the pieces `rs` of a pushed path, in turn.
fn apply_segments_exec(segs: Vec<Vec<char>>, rs: &Vec<Vec<char>>) -> (out: Vec<Vec<char>>)
    ensures
        views(out@) == apply_segments(views(segs@), views(rs@)),
{
    let mut out = segs;
    let ghost r = views(rs@);
    let mut i: usize = 0;
    assert(r.skip(0) =~= r);
    while i < rs.len()
        invariant
            i <= rs@.len(),
            r == views(rs@),
            apply_segments(views(out@), r.skip(i as int)) == apply_segments(views(segs@), r),
        decreases rs@.len() - i,
    {
        let s = rs[i].as_slice();
        proof {
            assert(r.skip(i as int)[0] == s@);
            assert(r.skip(i as int).drop_first() =~= r.skip(i + 1));
        }
        let ghost before = views(out@);
        if is_dot(s) {
        } else if is_dot_dot(s) {
            let m = out.len();
            if m > 0 && !is_dot(out[m - 1].as_slice()) && !is_dot_dot(out[m - 1].as_slice()) {
                out.pop();
                assert(views(out@) =~= before.drop_last());
            }
        } else {
            let mut v: Vec<char> = Vec::new();
            push_chars(&mut v, s);
            out.push(v);
            assert(views(out@) =~= before.push(s@));
        }
        i = i + 1;
    }
    assert(r.skip(rs@.len() as int) =~= Seq::<Seq<char>>::empty());
    out
}

/// The pieces joined with `\`.
fn join_backslash_exec(segs: &Vec<Vec<char>>, out: &mut Vec<char>)
    ensures
        final(out)@ == old(out)@ + join_backslash(views(segs@)),
{
    let ghost start = out@;
    let ghost v = views(segs@);
    let mut i: usize = 0;
    while i < segs.len()
        invariant
            i <= segs@.len(),
            v == views(segs@),
            out@ == start + join_backslash(v.take(i as int)),
        decreases segs@.len() - i,
    {
        proof {
            assert(v.take(i + 1).drop_last() =~= v.take(i as int));
        }
        if i > 0 {
            out.push('\\');
        }
        push_chars(out, segs[i].as_slice());
        i = i + 1;
        assert(out@ =~= start + join_backslash(v.take(i as int)));
    }
    assert(v.take(segs@.len() as int) =~= v);
}

/// A relative path without a prefix pushed onto a path with a verbatim prefix.
fn verbatim_push_exec(base: &[char], rel: &[char]) -> (out: Vec<char>)
    requires
        prefix_verbatim(win_prefix(base@).0),
    ensures
        out@ == verbatim_push(base@, rel@),
{
    let (bk, bn) = windows_prefix(base);
    let base_root = bn < base.len() && base[bn] == '\\';
    let start = if base_root { bn + 1 } else { bn };
    let mut rest: Vec<char> = Vec::new();
    let mut k = start;
    while k < base.len()
        invariant
            start <= k <= base@.len(),
            rest@ == base@.subrange(start as int, k as int),
        decreases base@.len() - k,
    {
        rest.push(base[k]);
        k = k + 1;
        assert(rest@ =~= base@.subrange(start as int, k as int));
    }
    assert(rest@ =~= base@.skip(start as int));
    let rel_root = rel.len() > 0 && sep_in(rel[0], false);
    let initial = if rel_root { Vec::new() } else { segments_of(rest.as_slice(), true) };
    proof {
        if rel_root {
            assert(views(initial@) =~= Seq::<Seq<char>>::empty());
        }
    }
    let rel_segs = segments_of(rel, false);
    let segs = apply_segments_exec(initial, &rel_segs);
    let mut out: Vec<char> = Vec::new();
    let mut j: usize = 0;
    while j < bn
        invariant
            j <= bn <= base@.len(),
            out@ == base@.take(j as int),
        decreases bn - j,
    {
        out.push(base[j]);
        j = j + 1;
        assert(out@ =~= base@.take(j as int));
    }
    let ghost pre = out@;
    if base_root || rel_root || (bk != WinPrefix::VerbatimDisk && segs.len() > 0) {
        out.push('\\');
        assert(out@ =~= pre + seq!['\\']);
    } else {
        assert(out@ =~= pre + Seq::<char>::empty());
    }
    join_backslash_exec(&segs, &mut out);
    out
}

/// `rel` pushed onto `base` on Windows, as `PathBuf::push` does.
pub fn windows_push(base: &[char], rel: &[char]) -> (out: Vec<char>)
    ensures
        out@ == win_push(base@, rel@),
{
    let (bk, bn) = windows_prefix(base);
    let (rk, _) = windows_prefix(rel);
    let mut out: Vec<char> = Vec::new();
    if windows_is_absolute(rel) || rk != WinPrefix::NoPrefix {
        push_chars(&mut out, rel);
        assert(out@ =~= rel@);
        return out;
    }
    if verbatim_kind(bk) && rel.len() > 0 {
        return verbatim_push_exec(base, rel);
    }
    if windows_has_root(rel) {
        let mut j: usize = 0;
        while j < bn
            invariant
                j <= bn <= base@.len(),
                out@ == base@.take(j as int),
            decreases bn - j,
        {
            out.push(base[j]);
            j = j + 1;
            assert(out@ =~= base@.take(j as int));
        }
        push_chars(&mut out, rel);
        return out;
    }
    push_chars(&mut out, base);
    let n = base.len();
    if n > 0 && !sep_in(base[n - 1], false) && !(bn > 0 && bn == n && drive_kind(bk)) {
        out.push('\\');
    }
    push_chars(&mut out, rel);
    assert(out@ =~= win_push(base@, rel@));
    out
}

} // verus!
