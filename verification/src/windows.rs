//! Executable recognition of Windows-style prefixes: the UNC marker, the
//! drive marker, and the bare leading separator, matching the model's
//! `win_prefix` and `win_root` matchers.
use vstd::prelude::*;
use vstd::string::{StrSliceExecFns, StringExecFns};
use crate::model::{
    collapse, is_ascii_letter, join_sl, render, segments, spec_resolve_generic, starts_with_sep,
    strip_win_prefix, win_prefix, win_root, with_lead_sep,
};
use crate::segment::slash_string;

verus! {

/// Whether a character is an ASCII letter, as a drive marker requires.
pub fn is_letter(c: char) -> (r: bool)
    ensures
        r == is_ascii_letter(c),
{
    let u = c as u32;
    (97 <= u && u <= 122) || (65 <= u && u <= 90)
}

/// Whether the path starts with a UNC marker or a drive marker.
pub fn has_prefix(s: &str) -> (r: bool)
    ensures
        r == (win_prefix(s@) is Some),
{
    let n = s.unicode_len();
    if n < 2 {
        false
    } else {
        let c0 = s.get_char(0);
        let c1 = s.get_char(1);
        (c0 == '\\' && c1 == '\\') || (is_letter(c0) && c1 == ':')
    }
}

/// Replaces a recognized UNC or drive marker with a single `/`; a path
/// without one is returned unchanged.
pub fn strip_prefix(s: &str) -> (r: String)
    ensures
        r@ == strip_win_prefix(s@),
{
    if has_prefix(s) {
        let n = s.unicode_len();
        let mut out = slash_string();
        let tail = s.substring_char(2, n);
        out.append(tail);
        proof {
            assert(out@ =~= seq!['/'] + s@.skip(2));
        }
        out
    } else {
        String::from_str(s)
    }
}

proof fn lemma_render_abs_starts(segs: Seq<Seq<char>>)
    ensures
        render(segs, true).len() >= 1,
        render(segs, true)[0] == '/',
{
    if segs.len() > 0 {
        assert(join_sl(segs)[0] == '/');
    }
}

/// A generic resolution with an absolute base or addition is itself
/// absolute: it begins with `/`.
pub proof fn lemma_resolve_generic_abs(base: Seq<char>, add: Seq<char>)
    requires
        starts_with_sep(base) || starts_with_sep(add),
    ensures
        spec_resolve_generic(base, add).len() >= 1,
        spec_resolve_generic(base, add)[0] == '/',
        starts_with_sep(spec_resolve_generic(base, add)),
{
    if starts_with_sep(add) {
        lemma_render_abs_starts(collapse(segments(add)));
    } else {
        lemma_render_abs_starts(collapse(segments(base) + segments(add)));
    }
}

/// Length of the matched text of the broader matcher: 2 for a UNC or drive
/// marker, 1 for a bare separator.
pub fn root_len(s: &str) -> (n: usize)
    requires
        win_root(s@) is Some,
    ensures
        1 <= n <= 2,
        n <= s@.len(),
        win_root(s@) == Some(s@.take(n as int)),
{
    let len = s.unicode_len();
    if len >= 2 {
        let c0 = s.get_char(0);
        let c1 = s.get_char(1);
        if (c0 == '\\' && c1 == '\\') || (is_letter(c0) && c1 == ':') {
            2
        } else {
            1
        }
    } else {
        1
    }
}

/// Prepends a leading `/` to a stripped path that does not already start
/// with a separator, so a drive-only path becomes `/` rather than empty.
pub fn with_lead(s: &str, n: usize) -> (r: String)
    requires
        n <= s@.len(),
    ensures
        r@ == with_lead_sep(s@.skip(n as int)),
{
    let len = s.unicode_len();
    let sub = s.substring_char(n, len);
    if !sub.is_empty() {
        let c0 = sub.get_char(0);
        if c0 == '/' || c0 == '\\' {
            return String::from_str(sub);
        }
    }
    let mut out = slash_string();
    out.append(sub);
    proof {
        assert(out@ =~= seq!['/'] + s@.skip(n as int));
    }
    out
}

} // verus!
