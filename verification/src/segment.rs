//! Executable segment algebra: splitting a path into segments, collapsing
//! `.` and `..`, and re-joining with a single canonical separator, each
//! proved equal to the model in `model`.
use vstd::prelude::*;
use vstd::string::{StrSliceExecFns, StringExecFns};
use crate::model::{
    common_len, collapse, collapse_rec, collapse_step, dot, dotdot, is_sep, join_sl, render,
    segments, split_rec, spec_relative_generic, spec_resolve_generic, starts_with_sep,
};

verus! {

pub proof fn lemma_skip_step<A>(s: Seq<A>, i: int)
    requires
        0 <= i < s.len(),
    ensures
        s.skip(i).len() == s.len() - i,
        s.skip(i)[0] == s[i],
        s.skip(i).skip(1) == s.skip(i + 1),
{
    assert(s.skip(i).skip(1) =~= s.skip(i + 1));
}

/// Whether the path begins with a separator, i.e. is absolute in the
/// generic sense.
pub fn starts_sep(s: &str) -> (r: bool)
    ensures
        r == starts_with_sep(s@),
{
    let n = s.unicode_len();
    if n == 0 {
        false
    } else {
        let c0 = s.get_char(0);
        c0 == '/' || c0 == '\\'
    }
}

/// Character-wise string equality, stated over the views.
pub fn str_eq(a: &str, b: &str) -> (r: bool)
    ensures
        r == (a@ == b@),
{
    let na = a.unicode_len();
    let nb = b.unicode_len();
    if na != nb {
        proof {
            if a@ == b@ {
                assert(a@.len() == b@.len());
            }
        }
        return false;
    }
    let mut i: usize = 0;
    while i < na
        invariant
            i <= na,
            na == a@.len(),
            na == b@.len(),
            forall|j: int| 0 <= j < i ==> a@[j] == b@[j],
        decreases na - i,
    {
        let ca = a.get_char(i);
        let cb = b.get_char(i);
        if ca != cb {
            return false;
        }
        i = i + 1;
    }
    proof {
        assert(a@ =~= b@);
    }
    true
}

/// Whether the segment is the navigation marker `.`.
fn is_dot(s: &str) -> (r: bool)
    ensures
        r == (s@ == dot()),
{
    let n = s.unicode_len();
    if n != 1 {
        proof {
            if s@ == dot() {
                assert(s@.len() == 1);
            }
        }
        false
    } else {
        let c = s.get_char(0);
        proof {
            if c == '.' {
                assert(s@ =~= dot());
            } else {
                if s@ == dot() {
                    assert(s@[0] == '.');
                }
            }
        }
        c == '.'
    }
}

/// Whether the segment is the navigation marker `..`.
fn is_dotdot(s: &str) -> (r: bool)
    ensures
        r == (s@ == dotdot()),
{
    let n = s.unicode_len();
    if n != 2 {
        proof {
            if s@ == dotdot() {
                assert(s@.len() == 2);
            }
        }
        false
    } else {
        let c0 = s.get_char(0);
        let c1 = s.get_char(1);
        proof {
            if c0 == '.' && c1 == '.' {
                assert(s@ =~= dotdot());
            } else {
                if s@ == dotdot() {
                    assert(s@[0] == '.');
                    assert(s@[1] == '.');
                }
            }
        }
        c0 == '.' && c1 == '.'
    }
}

/// Splits a path into its non-empty segments.
pub fn split_str<'a>(s: &'a str) -> (r: Vec<&'a str>)
    ensures
        r.deep_view() == segments(s@),
{
    let n = s.unicode_len();
    let mut r: Vec<&'a str> = Vec::new();
    let mut start: usize = 0;
    let mut i: usize = 0;
    proof {
        assert(s@.skip(0) =~= s@);
        assert(s@.subrange(0, 0) =~= Seq::<char>::empty());
    }
    while i < n
        invariant
            start <= i <= n,
            n == s@.len(),
            segments(s@) == r.deep_view() + split_rec(
                s@.skip(i as int),
                s@.subrange(start as int, i as int),
            ),
        decreases n - i,
    {
        let ghost cur = s@.subrange(start as int, i as int);
        let c = s.get_char(i);
        proof {
            lemma_skip_step(s@, i as int);
        }
        if c == '/' || c == '\\' {
            if start < i {
                let seg = s.substring_char(start, i);
                let ghost prev = r.deep_view();
                r.push(seg);
                proof {
                    assert(r.deep_view() =~= prev.push(cur));
                    assert(prev + (seq![cur] + split_rec(s@.skip(i as int + 1), Seq::empty()))
                        =~= prev.push(cur) + split_rec(s@.skip(i as int + 1), Seq::empty()));
                }
            }
            start = i + 1;
            proof {
                assert(s@.subrange(start as int, i as int + 1) =~= Seq::<char>::empty());
            }
        } else {
            proof {
                assert(s@.subrange(start as int, i as int + 1) =~= cur.push(s@[i as int]));
            }
        }
        i = i + 1;
    }
    proof {
        assert(s@.skip(n as int) =~= Seq::<char>::empty());
    }
    if start < n {
        let seg = s.substring_char(start, n);
        let ghost prev = r.deep_view();
        r.push(seg);
        proof {
            assert(r.deep_view() =~= prev.push(s@.subrange(start as int, n as int)));
            assert(prev + seq![s@.subrange(start as int, n as int)]
                =~= prev.push(s@.subrange(start as int, n as int)));
        }
    } else {
        proof {
            assert(r.deep_view() + Seq::<Seq<char>>::empty() =~= r.deep_view());
        }
    }
    r
}

/// Collapses the navigation markers `.` and `..` over a segment list, left
/// to right.
pub fn collapse_vec<'a>(segs: &Vec<&'a str>) -> (r: Vec<&'a str>)
    ensures
        r.deep_view() == collapse(segs.deep_view()),
{
    let n = segs.len();
    let mut acc: Vec<&'a str> = Vec::new();
    let mut i: usize = 0;
    proof {
        assert(segs.deep_view().skip(0) =~= segs.deep_view());
        assert(acc.deep_view() =~= Seq::<Seq<char>>::empty());
    }
    while i < n
        invariant
            i <= n,
            n == segs@.len(),
            collapse(segs.deep_view()) == collapse_rec(
                segs.deep_view().skip(i as int),
                acc.deep_view(),
            ),
        decreases n - i,
    {
        let seg = segs[i];
        proof {
            lemma_skip_step(segs.deep_view(), i as int);
            assert(segs.deep_view()[i as int] == seg@);
        }
        let ghost prev = acc.deep_view();
        if is_dot(seg) {
        } else if is_dotdot(seg) {
            let mut pop_it = false;
            if acc.len() > 0 {
                let last = acc[acc.len() - 1];
                proof {
                    assert(prev.last() == last@);
                }
                if !is_dotdot(last) {
                    pop_it = true;
                }
            }
            if pop_it {
                acc.pop();
                proof {
                    assert(acc.deep_view() =~= prev.drop_last());
                }
            } else {
                acc.push(seg);
                proof {
                    assert(acc.deep_view() =~= prev.push(seg@));
                }
            }
        } else {
            acc.push(seg);
            proof {
                assert(acc.deep_view() =~= prev.push(seg@));
            }
        }
        proof {
            assert(acc.deep_view() == collapse_step(prev, seg@));
        }
        i = i + 1;
    }
    proof {
        assert(segs.deep_view().skip(n as int) =~= Seq::<Seq<char>>::empty());
    }
    acc
}

proof fn lemma_join_sl_push(segs: Seq<Seq<char>>, x: Seq<char>)
    ensures
        join_sl(segs.push(x)) == join_sl(segs) + seq!['/'] + x,
    decreases segs.len(),
{
    if segs.len() == 0 {
        assert(segs.push(x).skip(1) =~= Seq::<Seq<char>>::empty());
        assert(segs.push(x)[0] == x);
        assert(seq!['/'] + x + join_sl(Seq::<Seq<char>>::empty()) =~= seq!['/'] + x);
        assert(join_sl(segs) + seq!['/'] + x =~= seq!['/'] + x);
    } else {
        assert(segs.push(x).skip(1) =~= segs.skip(1).push(x));
        assert(segs.push(x)[0] == segs[0]);
        lemma_join_sl_push(segs.skip(1), x);
        assert(seq!['/'] + segs[0] + (join_sl(segs.skip(1)) + seq!['/'] + x)
            =~= (seq!['/'] + segs[0] + join_sl(segs.skip(1))) + seq!['/'] + x);
    }
}

/// A fresh `String` holding a single `/`.
pub fn slash_string() -> (r: String)
    ensures
        r@ == seq!['/'],
{
    proof {
        reveal_strlit("/");
    }
    let r = String::from_str("/");
    proof {
        assert(r@ =~= seq!['/']);
    }
    r
}

/// Joins segments with a single canonical `/`, absolutely or relatively.
pub fn join_render(segs: &Vec<&str>, abs: bool) -> (r: String)
    ensures
        r@ == render(segs.deep_view(), abs),
{
    let n = segs.len();
    if n == 0 {
        if abs {
            slash_string()
        } else {
            String::new()
        }
    } else {
        let mut out = String::new();
        let mut i: usize = 0;
        proof {
            assert(segs.deep_view().take(0) =~= Seq::<Seq<char>>::empty());
            assert(out@ =~= join_sl(Seq::<Seq<char>>::empty()));
        }
        while i < n
            invariant
                i <= n,
                n == segs@.len(),
                out@ == join_sl(segs.deep_view().take(i as int)),
            decreases n - i,
        {
            proof {
                reveal_strlit("/");
                assert("/"@ =~= seq!['/']);
            }
            let ghost before = out@;
            out.append("/");
            out.append(segs[i]);
            proof {
                lemma_join_sl_push(segs.deep_view().take(i as int), segs.deep_view()[i as int]);
                assert(segs.deep_view().take(i as int).push(segs.deep_view()[i as int])
                    =~= segs.deep_view().take(i as int + 1));
                assert(segs.deep_view()[i as int] == segs[i as int]@);
                assert(out@ == before + seq!['/'] + segs[i as int]@);
            }
            i = i + 1;
        }
        proof {
            assert(segs.deep_view().take(n as int) =~= segs.deep_view());
        }
        if abs {
            out
        } else {
            let m = out.as_str().unicode_len();
            proof {
                assert(join_sl(segs.deep_view()).len() >= 1);
            }
            let sub = out.as_str().substring_char(1, m);
            let r = String::from_str(sub);
            proof {
                assert(r@ =~= join_sl(segs.deep_view()).skip(1));
            }
            r
        }
    }
}

/// The generic resolver: an absolute `add` replaces `base` entirely;
/// otherwise `base` is treated as a directory and `add`'s segments follow.
pub fn resolve_generic(base: &str, add: &str) -> (r: String)
    ensures
        r@ == spec_resolve_generic(base@, add@),
{
    if starts_sep(add) {
        let parts = split_str(add);
        let collapsed = collapse_vec(&parts);
        join_render(&collapsed, true)
    } else {
        let base_abs = starts_sep(base);
        let mut parts = split_str(base);
        let mut more = split_str(add);
        let ghost b = parts.deep_view();
        let ghost a = more.deep_view();
        parts.append(&mut more);
        proof {
            assert(parts.deep_view() =~= b + a);
        }
        let collapsed = collapse_vec(&parts);
        join_render(&collapsed, base_abs)
    }
}

proof fn lemma_common_len_exact(a: Seq<Seq<char>>, b: Seq<Seq<char>>, k: int)
    requires
        0 <= k <= a.len(),
        k <= b.len(),
        forall|j: int| 0 <= j < k ==> a[j] == b[j],
        k < a.len() && k < b.len() ==> a[k] != b[k],
    ensures
        common_len(a, b) == k,
    decreases k,
{
    if k > 0 {
        lemma_skip_step(a, 0);
        lemma_skip_step(b, 0);
        lemma_common_len_exact(a.skip(1), b.skip(1), k - 1);
    }
}

/// The generic relative path between two already-absolute paths: one `..`
/// per segment of `from` beyond the shared prefix, then the rest of `to`.
pub fn relative_generic(from: &str, to: &str) -> (r: String)
    ensures
        r@ == spec_relative_generic(from@, to@),
{
    let fparts = split_str(from);
    let f = collapse_vec(&fparts);
    let tparts = split_str(to);
    let t = collapse_vec(&tparts);
    let fl = f.len();
    let tl = t.len();
    let mut k: usize = 0;
    let mut diverged = false;
    while k < fl && k < tl && !diverged
        invariant
            k <= fl,
            k <= tl,
            fl == f@.len(),
            tl == t@.len(),
            forall|j: int| 0 <= j < k ==> f.deep_view()[j] == t.deep_view()[j],
            diverged ==> k < fl && k < tl && f.deep_view()[k as int] != t.deep_view()[k as int],
        decreases fl - k + (if diverged { 0int } else { 1int }),
    {
        if str_eq(f[k], t[k]) {
            proof {
                assert(f.deep_view()[k as int] == t.deep_view()[k as int]);
            }
            k = k + 1;
        } else {
            proof {
                assert(f.deep_view()[k as int] != t.deep_view()[k as int]);
            }
            diverged = true;
        }
    }
    proof {
        lemma_common_len_exact(f.deep_view(), t.deep_view(), k as int);
    }
    let ups = fl - k;
    let mut out_segs: Vec<&str> = Vec::new();
    let mut j: usize = 0;
    proof {
        reveal_strlit("..");
        assert(".."@ =~= dotdot());
        assert(out_segs.deep_view() =~= Seq::new(0, |q: int| dotdot()));
    }
    while j < ups
        invariant
            j <= ups,
            out_segs.deep_view() == Seq::new(j as nat, |q: int| dotdot()),
            ".."@ == dotdot(),
        decreases ups - j,
    {
        let ghost prev = out_segs.deep_view();
        out_segs.push("..");
        proof {
            assert(out_segs.deep_view() =~= prev.push(".."@));
            assert(prev.push(dotdot()) =~= Seq::new((j + 1) as nat, |q: int| dotdot()));
        }
        j = j + 1;
    }
    let mut j2: usize = k;
    proof {
        assert(out_segs.deep_view()
            =~= Seq::new(ups as nat, |q: int| dotdot()) + t.deep_view().subrange(
            k as int,
            k as int,
        ));
    }
    while j2 < tl
        invariant
            k <= j2 <= tl,
            tl == t@.len(),
            out_segs.deep_view() == Seq::new(ups as nat, |q: int| dotdot())
                + t.deep_view().subrange(k as int, j2 as int),
        decreases tl - j2,
    {
        let ghost prev = out_segs.deep_view();
        out_segs.push(t[j2]);
        proof {
            assert(t.deep_view()[j2 as int] == t[j2 as int]@);
            assert(out_segs.deep_view() =~= prev.push(t.deep_view()[j2 as int]));
            assert(t.deep_view().subrange(k as int, j2 as int + 1)
                =~= t.deep_view().subrange(k as int, j2 as int).push(t.deep_view()[j2 as int]));
            assert(prev.push(t.deep_view()[j2 as int]) =~= Seq::new(ups as nat, |q: int| dotdot())
                + t.deep_view().subrange(k as int, j2 as int + 1));
        }
        j2 = j2 + 1;
    }
    proof {
        assert(t.deep_view().subrange(k as int, tl as int) =~= t.deep_view().skip(k as int));
        assert(out_segs.deep_view() =~= Seq::new((f.deep_view().len() - common_len(
            f.deep_view(),
            t.deep_view(),
        )) as nat, |q: int| dotdot()) + t.deep_view().skip(
            common_len(f.deep_view(), t.deep_view()),
        ));
    }
    join_render(&out_segs, false)
}

} // verus!
