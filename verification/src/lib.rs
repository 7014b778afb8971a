//! OS-aware path-string algebra: resolving one path against another,
//! relative paths between absolute paths, and lexical absoluteness, for a
//! generic separator-only flavour and a Windows-aware flavour that preserves
//! UNC and drive prefixes. Nothing here touches a real filesystem: every
//! property is purely lexical.
pub mod model;
pub mod segment;
pub mod windows;
pub mod laws;

use vstd::prelude::*;
use vstd::string::{StrSliceExecFns, StringExecFns};
use crate::model::{
    reattach, spec_relative_generic, spec_resolve_generic, starts_with_sep, strip_win_prefix,
    win_prefix, win_root, with_lead_sep,
};
use crate::segment::{relative_generic, resolve_generic, str_eq};
use crate::windows::{has_prefix, is_letter, lemma_resolve_generic_abs, root_len, strip_prefix,
    with_lead};

verus! {

/// Selects how paths are manipulated: generically (separators only) or
/// compatibly with the Windows operating system (prefix-aware).
#[derive(Clone, Copy, PartialEq, Eq, Structural, Debug)]
pub enum OsPathManipulation {
    /// Paths are manipulated in a generic way: only a leading separator
    /// makes a path absolute, and there is no prefix concept.
    Default,
    /// Paths are manipulated compatibly with the Windows operating system:
    /// UNC markers and drive markers are recognized and preserved.
    Windows,
}

/// Whether a path is absolute under the given mode: a leading separator
/// under `Default`; a UNC marker, drive marker, or bare leading separator
/// under `Windows`.
pub open spec fn spec_is_absolute(s: Seq<char>, manipulation: OsPathManipulation) -> bool {
    match manipulation {
        OsPathManipulation::Default => starts_with_sep(s),
        OsPathManipulation::Windows => win_root(s) is Some,
    }
}

/// What `resolve` returns: under `Default` the generic resolution; under
/// `Windows`, when either input carries a UNC or drive marker, the later
/// marker wins, both inputs are stripped of that marker pattern, resolved
/// generically, and the marker is reattached.
pub open spec fn spec_resolve(p1: Seq<char>, p2: Seq<char>, manipulation: OsPathManipulation)
    -> Seq<char> {
    match manipulation {
        OsPathManipulation::Default => spec_resolve_generic(p1, p2),
        OsPathManipulation::Windows => {
            if win_prefix(p1) is None && win_prefix(p2) is None {
                spec_resolve_generic(p1, p2)
            } else {
                let prefix = if win_prefix(p2) is Some {
                    win_prefix(p2).unwrap()
                } else {
                    win_prefix(p1).unwrap()
                };
                reattach(
                    prefix,
                    spec_resolve_generic(strip_win_prefix(p1), strip_win_prefix(p2)),
                )
            }
        },
    }
}

/// Left fold of `spec_resolve` over the remaining paths.
pub open spec fn fold_resolve(
    acc: Seq<char>,
    rest: Seq<Seq<char>>,
    manipulation: OsPathManipulation,
) -> Seq<char>
    decreases rest.len(),
{
    if rest.len() == 0 {
        acc
    } else {
        fold_resolve(spec_resolve(acc, rest[0], manipulation), rest.skip(1), manipulation)
    }
}

/// What `resolve_n` returns: the empty string for no paths, a lone path
/// resolved against an empty relative addition, and otherwise the strictly
/// left-associative fold of `spec_resolve`.
pub open spec fn spec_resolve_n(paths: Seq<Seq<char>>, manipulation: OsPathManipulation)
    -> Seq<char> {
    if paths.len() == 0 {
        Seq::empty()
    } else if paths.len() == 1 {
        spec_resolve(paths[0], Seq::empty(), manipulation)
    } else {
        fold_resolve(
            spec_resolve(paths[0], paths[1], manipulation),
            paths.skip(2),
            manipulation,
        )
    }
}

/// What `resolve_one` returns: the path resolved against an empty relative
/// addition, i.e. normalized under the mode.
pub open spec fn spec_resolve_one(p: Seq<char>, manipulation: OsPathManipulation) -> Seq<char> {
    spec_resolve(p, Seq::empty(), manipulation)
}

/// What `relative` returns: under `Default` the generic relative path;
/// under `Windows`, when the two roots differ textually the fully resolved
/// absolute target, and otherwise the generic relative path of the two
/// root-stripped forms.
pub open spec fn spec_relative(from: Seq<char>, to: Seq<char>, manipulation: OsPathManipulation)
    -> Seq<char>
    recommends
        spec_is_absolute(from, manipulation),
        spec_is_absolute(to, manipulation),
{
    match manipulation {
        OsPathManipulation::Default => spec_relative_generic(from, to),
        OsPathManipulation::Windows => {
            let pr1 = win_root(from).unwrap();
            let pr2 = win_root(to).unwrap();
            if pr1 != pr2 {
                spec_resolve_one(to, manipulation)
            } else {
                spec_relative_generic(
                    with_lead_sep(from.skip(pr1.len() as int)),
                    with_lead_sep(to.skip(pr2.len() as int)),
                )
            }
        },
    }
}

/// Determines if a path is absolute. Under `Default`, absolute paths only
/// start with a path separator; under `Windows`, any rooted form (UNC,
/// drive, or separator-led) is absolute.
pub fn is_absolute(path: &str, manipulation: OsPathManipulation) -> (r: bool)
    ensures
        r == spec_is_absolute(path@, manipulation),
{
    let n = path.unicode_len();
    match manipulation {
        OsPathManipulation::Default => {
            if n == 0 {
                false
            } else {
                let c0 = path.get_char(0);
                c0 == '/' || c0 == '\\'
            }
        },
        OsPathManipulation::Windows => {
            if n == 0 {
                false
            } else if n == 1 {
                let c0 = path.get_char(0);
                c0 == '/' || c0 == '\\'
            } else {
                let c0 = path.get_char(0);
                let c1 = path.get_char(1);
                (c0 == '\\' && c1 == '\\') || (is_letter(c0) && c1 == ':') || ((c0 == '/' || c0
                    == '\\') && c1 != '\\')
            }
        },
    }
}

/// Resolves `path2` relative to `path1`. Under `Windows`, whichever input
/// carries a UNC or drive marker lends it to the result, the later one
/// winning when both do.
pub fn resolve(path1: &str, path2: &str, manipulation: OsPathManipulation) -> (r: String)
    ensures
        r@ == spec_resolve(path1@, path2@, manipulation),
{
    match manipulation {
        OsPathManipulation::Default => resolve_generic(path1, path2),
        OsPathManipulation::Windows => {
            let has1 = has_prefix(path1);
            let has2 = has_prefix(path2);
            if !has1 && !has2 {
                resolve_generic(path1, path2)
            } else {
                let prefix: &str = if has2 {
                    path2.substring_char(0, 2)
                } else {
                    path1.substring_char(0, 2)
                };
                proof {
                    if has2 {
                        assert(prefix@ =~= path2@.take(2));
                    } else {
                        assert(prefix@ =~= path1@.take(2));
                    }
                }
                let p1s = strip_prefix(path1);
                let p2s = strip_prefix(path2);
                let g = resolve_generic(p1s.as_str(), p2s.as_str());
                proof {
                    if has2 {
                        assert(starts_with_sep(strip_win_prefix(path2@)));
                    } else {
                        assert(starts_with_sep(strip_win_prefix(path1@)));
                    }
                    lemma_resolve_generic_abs(strip_win_prefix(path1@), strip_win_prefix(path2@));
                }
                let c0 = prefix.get_char(0);
                if c0 == '\\' {
                    proof {
                        assert(prefix@ =~= seq!['\\', '\\']);
                    }
                    let glen = g.as_str().unicode_len();
                    let tail = g.as_str().substring_char(1, glen);
                    let mut out = String::from_str(prefix);
                    out.append(tail);
                    proof {
                        assert(out@ =~= reattach(
                            prefix@,
                            spec_resolve_generic(strip_win_prefix(path1@), strip_win_prefix(path2@)),
                        ));
                    }
                    out
                } else {
                    proof {
                        assert(prefix@ != seq!['\\', '\\']);
                    }
                    let mut out = String::from_str(prefix);
                    out.append(g.as_str());
                    out
                }
            }
        },
    }
}

/// Resolves multiple paths left to right: no paths give the empty string, a
/// lone path is normalized against an empty addition, and each later path
/// is resolved against the running result, so a later absolute path
/// overrides everything before it.
pub fn resolve_n(paths: &[&str], manipulation: OsPathManipulation) -> (r: String)
    ensures
        r@ == spec_resolve_n(paths.deep_view(), manipulation),
{
    let n = paths.len();
    if n == 0 {
        String::new()
    } else if n == 1 {
        proof {
            reveal_strlit("");
            assert(""@ =~= Seq::<char>::empty());
            assert(paths.deep_view()[0] == paths@[0]@);
        }
        resolve(paths[0], "", manipulation)
    } else {
        proof {
            assert(paths.deep_view()[0] == paths@[0]@);
            assert(paths.deep_view()[1] == paths@[1]@);
        }
        let mut acc = resolve(paths[0], paths[1], manipulation);
        let mut i: usize = 2;
        while i < n
            invariant
                2 <= i <= n,
                n == paths@.len(),
                spec_resolve_n(paths.deep_view(), manipulation) == fold_resolve(
                    acc@,
                    paths.deep_view().skip(i as int),
                    manipulation,
                ),
            decreases n - i,
        {
            proof {
                crate::segment::lemma_skip_step(paths.deep_view(), i as int);
                assert(paths.deep_view()[i as int] == paths@[i as int]@);
            }
            acc = resolve(acc.as_str(), paths[i], manipulation);
            i = i + 1;
        }
        proof {
            assert(paths.deep_view().skip(n as int) =~= Seq::<Seq<char>>::empty());
        }
        acc
    }
}

/// Resolves a single path: the same as folding it alone through
/// `resolve_n`, i.e. normalizing it against an empty relative addition.
pub fn resolve_one(path: &str, manipulation: OsPathManipulation) -> (r: String)
    ensures
        r@ == spec_resolve_one(path@, manipulation),
{
    proof {
        reveal_strlit("");
        assert(""@ =~= Seq::<char>::empty());
    }
    resolve(path, "", manipulation)
}

/// Finds the relative path from `from_path` to `to_path`. Both paths must
/// be absolute under the given mode. Under `Windows`, two paths whose roots
/// differ textually admit no navigational relative path, and the fully
/// resolved absolute target is returned instead.
pub fn relative(from_path: &str, to_path: &str, manipulation: OsPathManipulation) -> (r: String)
    requires
        spec_is_absolute(from_path@, manipulation),
        spec_is_absolute(to_path@, manipulation),
    ensures
        r@ == spec_relative(from_path@, to_path@, manipulation),
{
    match manipulation {
        OsPathManipulation::Default => relative_generic(from_path, to_path),
        OsPathManipulation::Windows => {
            let n1 = root_len(from_path);
            let n2 = root_len(to_path);
            let pr1 = from_path.substring_char(0, n1);
            let pr2 = to_path.substring_char(0, n2);
            proof {
                assert(pr1@ =~= from_path@.take(n1 as int));
                assert(pr2@ =~= to_path@.take(n2 as int));
            }
            if !str_eq(pr1, pr2) {
                proof {
                    reveal_strlit("");
                    assert(""@ =~= Seq::<char>::empty());
                }
                resolve(to_path, "", manipulation)
            } else {
                let a = with_lead(from_path, n1);
                let b = with_lead(to_path, n2);
                proof {
                    assert(win_root(from_path@).unwrap().len() == n1 as int);
                    assert(win_root(to_path@).unwrap().len() == n2 as int);
                }
                relative_generic(a.as_str(), b.as_str())
            }
        },
    }
}

} // verus!
