//! Mathematical model of the path algebra: segments, collapsing of `.` and
//! `..`, rendering with a single canonical separator, and the Windows prefix
//! classification (UNC marker, drive marker, bare separator).
use vstd::prelude::*;

verus! {

/// Both `/` and `\` separate path segments.
pub open spec fn is_sep(c: char) -> bool {
    c == '/' || c == '\\'
}

pub open spec fn starts_with_sep(s: Seq<char>) -> bool {
    s.len() > 0 && is_sep(s[0])
}

/// The navigation marker `.`: stays in place.
pub open spec fn dot() -> Seq<char> {
    seq!['.']
}

/// The navigation marker `..`: pops the previous real segment.
pub open spec fn dotdot() -> Seq<char> {
    seq!['.', '.']
}

/// Splits a path into its non-empty segments; `cur` is the partial segment
/// read so far.
pub open spec fn split_rec(s: Seq<char>, cur: Seq<char>) -> Seq<Seq<char>>
    decreases s.len(),
{
    if s.len() == 0 {
        if cur.len() == 0 {
            Seq::empty()
        } else {
            seq![cur]
        }
    } else if is_sep(s[0]) {
        if cur.len() == 0 {
            split_rec(s.skip(1), Seq::empty())
        } else {
            seq![cur] + split_rec(s.skip(1), Seq::empty())
        }
    } else {
        split_rec(s.skip(1), cur.push(s[0]))
    }
}

/// The ordered list of non-empty segments of a path.
pub open spec fn segments(s: Seq<char>) -> Seq<Seq<char>> {
    split_rec(s, Seq::empty())
}

/// One step of `.`/`..` collapsing: `.` is dropped, `..` pops the previous
/// real segment when one exists and is otherwise retained, and any other
/// segment is kept.
pub open spec fn collapse_step(acc: Seq<Seq<char>>, seg: Seq<char>) -> Seq<Seq<char>> {
    if seg == dot() {
        acc
    } else if seg == dotdot() {
        if acc.len() > 0 && acc.last() != dotdot() {
            acc.drop_last()
        } else {
            acc.push(seg)
        }
    } else {
        acc.push(seg)
    }
}

pub open spec fn collapse_rec(segs: Seq<Seq<char>>, acc: Seq<Seq<char>>) -> Seq<Seq<char>>
    decreases segs.len(),
{
    if segs.len() == 0 {
        acc
    } else {
        collapse_rec(segs.skip(1), collapse_step(acc, segs[0]))
    }
}

/// Collapses `.` and `..` navigation markers, left to right.
pub open spec fn collapse(segs: Seq<Seq<char>>) -> Seq<Seq<char>> {
    collapse_rec(segs, Seq::empty())
}

/// Each segment preceded by one `/`.
pub open spec fn join_sl(segs: Seq<Seq<char>>) -> Seq<char>
    decreases segs.len(),
{
    if segs.len() == 0 {
        Seq::empty()
    } else {
        seq!['/'] + segs[0] + join_sl(segs.skip(1))
    }
}

/// Joins segments with a single canonical `/`. An absolute result begins with
/// exactly one `/` (a bare root is `/`); a relative result never does (an
/// empty one is the empty string).
pub open spec fn render(segs: Seq<Seq<char>>, abs: bool) -> Seq<char> {
    if abs {
        if segs.len() == 0 {
            seq!['/']
        } else {
            join_sl(segs)
        }
    } else {
        if segs.len() == 0 {
            Seq::empty()
        } else {
            join_sl(segs).skip(1)
        }
    }
}

/// Full normalization: split, collapse, re-join, keeping absoluteness.
pub open spec fn normalize(s: Seq<char>) -> Seq<char> {
    render(collapse(segments(s)), starts_with_sep(s))
}

/// The generic (prefix-less) resolution: an absolute addition replaces the
/// base entirely; otherwise the base is treated as a directory and the
/// addition's segments follow its own.
pub open spec fn spec_resolve_generic(base: Seq<char>, add: Seq<char>) -> Seq<char> {
    if starts_with_sep(add) {
        normalize(add)
    } else {
        render(collapse(segments(base) + segments(add)), starts_with_sep(base))
    }
}

/// Length of the longest shared segment prefix.
pub open spec fn common_len(a: Seq<Seq<char>>, b: Seq<Seq<char>>) -> int
    decreases a.len(),
{
    if a.len() == 0 || b.len() == 0 || a[0] != b[0] {
        0
    } else {
        1 + common_len(a.skip(1), b.skip(1))
    }
}

/// The generic relative path: one `..` for every segment of `from` beyond the
/// shared prefix, then the remaining segments of `to`; empty when nothing
/// remains on either side.
pub open spec fn spec_relative_generic(from: Seq<char>, to: Seq<char>) -> Seq<char> {
    let f = collapse(segments(from));
    let t = collapse(segments(to));
    let k = common_len(f, t);
    render(Seq::new((f.len() - k) as nat, |i: int| dotdot()) + t.skip(k), false)
}

/// A well-formed segment: non-empty and free of separators.
pub open spec fn seg_ok(s: Seq<char>) -> bool {
    s.len() > 0 && forall|i: int| 0 <= i < s.len() ==> !is_sep(s[i])
}

pub open spec fn all_segs_ok(segs: Seq<Seq<char>>) -> bool {
    forall|i: int| 0 <= i < segs.len() ==> seg_ok(#[trigger] segs[i])
}

/// A fully collapsed segment list: every segment well-formed and not `.`,
/// and the retained `..` markers forming a prefix of the list.
pub open spec fn is_canon(segs: Seq<Seq<char>>) -> bool {
    &&& forall|i: int| 0 <= i < segs.len() ==> seg_ok(#[trigger] segs[i]) && segs[i] != dot()
    &&& forall|i: int, j: int|
        0 <= i < j < segs.len() && #[trigger] segs[j] == dotdot() ==> #[trigger] segs[i]
            == dotdot()
}

pub open spec fn is_ascii_letter(c: char) -> bool {
    (97 <= c as u32 && c as u32 <= 122) || (65 <= c as u32 && c as u32 <= 90)
}

/// A UNC marker: two backslashes at offset 0.
pub open spec fn has_unc_prefix(s: Seq<char>) -> bool {
    s.len() >= 2 && s[0] == '\\' && s[1] == '\\'
}

/// A drive marker: an ASCII letter followed by `:` at offset 0.
pub open spec fn has_drive_prefix(s: Seq<char>) -> bool {
    s.len() >= 2 && is_ascii_letter(s[0]) && s[1] == ':'
}

/// The prefix-only matcher: the exact matched text of a UNC or drive marker.
pub open spec fn win_prefix(s: Seq<char>) -> Option<Seq<char>> {
    if has_unc_prefix(s) || has_drive_prefix(s) {
        Some(s.take(2))
    } else {
        None
    }
}

/// The broader matcher: UNC marker, drive marker, or a bare leading separator
/// not followed by a second backslash; the matched text of the last form is
/// the separator itself.
pub open spec fn win_root(s: Seq<char>) -> Option<Seq<char>> {
    if has_unc_prefix(s) || has_drive_prefix(s) {
        Some(s.take(2))
    } else if s.len() > 0 && is_sep(s[0]) && (s.len() == 1 || s[1] != '\\') {
        Some(s.take(1))
    } else {
        None
    }
}

/// Replaces a recognized UNC or drive marker with a single `/`; a path
/// without one is left untouched.
pub open spec fn strip_win_prefix(s: Seq<char>) -> Seq<char> {
    if win_prefix(s) is Some {
        seq!['/'] + s.skip(2)
    } else {
        s
    }
}

/// A stripped path handed back to the generic algebra, with a leading
/// separator re-added when the strip left none (a drive-only path becomes
/// `/` rather than empty).
pub open spec fn with_lead_sep(s: Seq<char>) -> Seq<char> {
    if starts_with_sep(s) {
        s
    } else {
        seq!['/'] + s
    }
}

/// Prepends the chosen prefix to a generically resolved absolute result; for
/// the UNC marker the result's own leading separator is dropped first so the
/// two backslashes are not followed by a redundant `/`.
pub open spec fn reattach(prefix: Seq<char>, r: Seq<char>) -> Seq<char> {
    if prefix == seq!['\\', '\\'] {
        prefix + r.skip(1)
    } else {
        prefix + r
    }
}

} // verus!
