//! General laws of the algebra: normalization is idempotent, a later
//! absolute path overrides everything before it, an empty fold yields the
//! empty string, and a path is never relative to itself.
use vstd::prelude::*;
use crate::model::{
    all_segs_ok, collapse, collapse_rec, collapse_step, common_len, dot, dotdot, is_ascii_letter,
    is_canon, is_sep, join_sl, normalize, render, seg_ok, segments, split_rec,
    spec_relative_generic, spec_resolve_generic, starts_with_sep, strip_win_prefix, win_prefix,
    win_root, with_lead_sep,
};
use crate::segment::lemma_skip_step;
use crate::{
    spec_is_absolute, spec_resolve, spec_resolve_n, spec_resolve_one, spec_relative,
    OsPathManipulation,
};

verus! {

proof fn lemma_split_rec_ok(s: Seq<char>, cur: Seq<char>)
    requires
        forall|i: int| 0 <= i < cur.len() ==> !is_sep(cur[i]),
    ensures
        all_segs_ok(split_rec(s, cur)),
    decreases s.len(),
{
    if s.len() == 0 {
    } else {
        lemma_skip_step(s, 0);
        if is_sep(s[0]) {
            lemma_split_rec_ok(s.skip(1), Seq::empty());
            if cur.len() > 0 {
                let rest = split_rec(s.skip(1), Seq::empty());
                let r = seq![cur] + rest;
                assert forall|i: int| 0 <= i < r.len() implies seg_ok(#[trigger] r[i]) by {
                    if i > 0 {
                        assert(r[i] == rest[i - 1]);
                    }
                }
            }
        } else {
            let cur2 = cur.push(s[0]);
            assert forall|i: int| 0 <= i < cur2.len() implies !is_sep(cur2[i]) by {
                if i < cur.len() {
                    assert(cur2[i] == cur[i]);
                }
            }
            lemma_split_rec_ok(s.skip(1), cur2);
        }
    }
}

/// The segments of any path are non-empty and free of separators.
pub proof fn lemma_segments_ok(s: Seq<char>)
    ensures
        all_segs_ok(segments(s)),
{
    lemma_split_rec_ok(s, Seq::empty());
}

proof fn lemma_collapse_step_canon(acc: Seq<Seq<char>>, seg: Seq<char>)
    requires
        is_canon(acc),
        seg_ok(seg),
    ensures
        is_canon(collapse_step(acc, seg)),
{
    if seg == dot() {
    } else if seg == dotdot() {
        if acc.len() > 0 && acc.last() != dotdot() {
            let r = acc.drop_last();
            assert forall|i: int, j: int|
                0 <= i < j < r.len() && #[trigger] r[j] == dotdot() implies #[trigger] r[i]
                == dotdot() by {
                assert(acc[j] == dotdot());
            }
        } else {
            let r = acc.push(seg);
            assert(dotdot().len() == 2);
            assert(dot().len() == 1);
            assert forall|i: int| 0 <= i < r.len() implies seg_ok(#[trigger] r[i]) && r[i]
                != dot() by {
                if i == acc.len() {
                    assert(r[i] == seg);
                }
            }
            assert forall|i: int, j: int|
                0 <= i < j < r.len() && #[trigger] r[j] == dotdot() implies #[trigger] r[i]
                == dotdot() by {
                if j < acc.len() {
                    assert(acc[j] == dotdot());
                    assert(acc[i] == dotdot());
                } else {
                    // r[j] is the pushed `..`; everything already in acc is `..`
                    if acc.len() > 0 {
                        assert(acc.last() == dotdot());
                        if i < acc.len() - 1 {
                            assert(acc[acc.len() - 1] == dotdot());
                            assert(acc[i] == dotdot());
                        }
                    }
                }
            }
        }
    } else {
        let r = acc.push(seg);
        assert forall|i: int, j: int|
            0 <= i < j < r.len() && #[trigger] r[j] == dotdot() implies #[trigger] r[i]
            == dotdot() by {
            assert(j < acc.len());
            assert(acc[j] == dotdot());
            assert(acc[i] == dotdot());
        }
    }
}

proof fn lemma_collapse_rec_canon(segs: Seq<Seq<char>>, acc: Seq<Seq<char>>)
    requires
        all_segs_ok(segs),
        is_canon(acc),
    ensures
        is_canon(collapse_rec(segs, acc)),
    decreases segs.len(),
{
    if segs.len() > 0 {
        lemma_skip_step(segs, 0);
        lemma_collapse_step_canon(acc, segs[0]);
        assert(all_segs_ok(segs.skip(1))) by {
            assert forall|i: int| 0 <= i < segs.skip(1).len() implies seg_ok(
                #[trigger] segs.skip(1)[i],
            ) by {
                assert(segs.skip(1)[i] == segs[i + 1]);
            }
        }
        lemma_collapse_rec_canon(segs.skip(1), collapse_step(acc, segs[0]));
    }
}

/// Collapsing the segments of any path yields a canonical list.
pub proof fn lemma_collapse_canon(s: Seq<char>)
    ensures
        is_canon(collapse(segments(s))),
{
    lemma_segments_ok(s);
    lemma_collapse_rec_canon(segments(s), Seq::empty());
}

proof fn lemma_collapse_rec_of_canon(c: Seq<Seq<char>>, acc: Seq<Seq<char>>)
    requires
        is_canon(acc + c),
    ensures
        collapse_rec(c, acc) == acc + c,
    decreases c.len(),
{
    if c.len() == 0 {
        assert(acc + c =~= acc);
    } else {
        let seg = c[0];
        let whole = acc + c;
        assert(whole[acc.len() as int] == seg);
        assert(seg_ok(seg) && seg != dot());
        if seg == dotdot() && acc.len() > 0 {
            // the element before it is `..` too, so nothing is popped
            assert(whole[acc.len() - 1] == acc.last());
            assert(acc.last() == dotdot());
        }
        assert(collapse_step(acc, seg) == acc.push(seg));
        lemma_skip_step(c, 0);
        assert(acc.push(seg) + c.skip(1) =~= acc + c);
        lemma_collapse_rec_of_canon(c.skip(1), acc.push(seg));
    }
}

/// Collapsing is idempotent: a canonical list is left unchanged.
pub proof fn lemma_collapse_of_canon(c: Seq<Seq<char>>)
    requires
        is_canon(c),
    ensures
        collapse(c) == c,
{
    assert(Seq::<Seq<char>>::empty() + c =~= c);
    lemma_collapse_rec_of_canon(c, Seq::empty());
}

proof fn lemma_join_sl_first(segs: Seq<Seq<char>>)
    requires
        segs.len() > 0,
        seg_ok(segs[0]),
    ensures
        join_sl(segs).len() >= 2,
        join_sl(segs)[0] == '/',
        join_sl(segs)[1] == segs[0][0],
{
}

proof fn lemma_split_prepend_seg(x: Seq<char>, tail: Seq<char>, cur: Seq<char>)
    requires
        forall|i: int| 0 <= i < x.len() ==> !is_sep(x[i]),
    ensures
        split_rec(x + tail, cur) == split_rec(tail, cur + x),
    decreases x.len(),
{
    if x.len() == 0 {
        assert(x + tail =~= tail);
        assert(cur + x =~= cur);
    } else {
        assert((x + tail)[0] == x[0]);
        assert((x + tail).len() > 0);
        assert((x + tail).skip(1) =~= x.skip(1) + tail);
        assert forall|i: int| 0 <= i < x.skip(1).len() implies !is_sep(x.skip(1)[i]) by {
            assert(x.skip(1)[i] == x[i + 1]);
        }
        lemma_split_prepend_seg(x.skip(1), tail, cur.push(x[0]));
        assert(cur.push(x[0]) + x.skip(1) =~= cur + x);
    }
}

proof fn lemma_split_join(segs: Seq<Seq<char>>)
    requires
        all_segs_ok(segs),
    ensures
        segments(join_sl(segs)) == segs,
        segs.len() > 0 ==> segments(join_sl(segs).skip(1)) == segs,
    decreases segs.len(),
{
    if segs.len() == 0 {
        assert(join_sl(segs) =~= Seq::<char>::empty());
        assert(segments(Seq::<char>::empty()) =~= Seq::<Seq<char>>::empty());
    } else {
        let j = join_sl(segs);
        let j2 = join_sl(segs.skip(1));
        assert(j[0] == '/');
        assert(j.len() > 0);
        assert(j.skip(1) =~= segs[0] + j2);
        assert(seg_ok(segs[0]));
        lemma_split_prepend_seg(segs[0], j2, Seq::empty());
        assert(Seq::<char>::empty() + segs[0] =~= segs[0]);
        assert(all_segs_ok(segs.skip(1))) by {
            assert forall|i: int| 0 <= i < segs.skip(1).len() implies seg_ok(
                #[trigger] segs.skip(1)[i],
            ) by {
                assert(segs.skip(1)[i] == segs[i + 1]);
            }
        }
        if segs.len() == 1 {
            assert(segs.skip(1).len() == 0);
            assert(j2 =~= Seq::<char>::empty());
            assert(split_rec(j2, segs[0]) == seq![segs[0]]);
            assert(seq![segs[0]] =~= segs);
        } else {
            assert(segs.skip(1).len() > 0);
            assert(segs.skip(1)[0] == segs[1]);
            lemma_join_sl_first(segs.skip(1));
            assert(j2[0] == '/');
            assert(j2.len() > 0);
            lemma_split_join(segs.skip(1));
            // unfolding `segments(j2)` once: its head separator is skipped
            assert(split_rec(j2.skip(1), Seq::empty()) == segs.skip(1));
            // unfolding `split_rec(j2, segs[0])` once: the pending segment is emitted
            assert(split_rec(j2, segs[0]) == seq![segs[0]] + split_rec(j2.skip(1), Seq::empty()));
            assert(seq![segs[0]] + segs.skip(1) =~= segs);
        }
        assert(segments(j) == split_rec(j.skip(1), Seq::empty()));
        assert(segments(j.skip(1)) == split_rec(segs[0] + j2, Seq::empty()));
    }
}

proof fn lemma_render_abs_flag(segs: Seq<Seq<char>>, abs: bool)
    requires
        all_segs_ok(segs),
    ensures
        starts_with_sep(render(segs, abs)) == abs,
{
    if segs.len() > 0 {
        lemma_join_sl_first(segs);
        if !abs {
            assert(render(segs, abs)[0] == join_sl(segs)[1]);
            assert(!is_sep(segs[0][0]));
        }
    }
}

/// Rendering a canonical list and reading it back gives the same list, the
/// same absoluteness, and an unchanged normalization.
pub proof fn lemma_normalize_render(c: Seq<Seq<char>>, abs: bool)
    requires
        is_canon(c),
    ensures
        segments(render(c, abs)) == c,
        starts_with_sep(render(c, abs)) == abs,
        normalize(render(c, abs)) == render(c, abs),
{
    assert(all_segs_ok(c));
    lemma_split_join(c);
    lemma_render_abs_flag(c, abs);
    if c.len() == 0 {
        if abs {
            assert(seq!['/'].skip(1) =~= Seq::<char>::empty());
            assert(segments(seq!['/']) == split_rec(Seq::<char>::empty(), Seq::<char>::empty()));
            assert(segments(render(c, abs)) =~= c);
        } else {
            assert(segments(Seq::<char>::empty()) =~= Seq::<Seq<char>>::empty());
        }
    }
    lemma_collapse_of_canon(c);
}

/// Normalization is idempotent.
pub proof fn lemma_normalize_idem(s: Seq<char>)
    ensures
        normalize(normalize(s)) == normalize(s),
        segments(normalize(s)) == collapse(segments(s)),
        starts_with_sep(normalize(s)) == starts_with_sep(s),
{
    lemma_collapse_canon(s);
    lemma_normalize_render(collapse(segments(s)), starts_with_sep(s));
}

/// Resolving against an empty relative addition is exactly normalization.
pub proof fn lemma_resolve_empty_add(base: Seq<char>)
    ensures
        spec_resolve_generic(base, Seq::empty()) == normalize(base),
{
    assert(!starts_with_sep(Seq::<char>::empty()));
    assert(segments(Seq::<char>::empty()) =~= Seq::<Seq<char>>::empty());
    assert(segments(base) + segments(Seq::<char>::empty()) =~= segments(base));
}

proof fn lemma_render_abs_head(segs: Seq<Seq<char>>)
    ensures
        render(segs, true).len() >= 1,
        render(segs, true)[0] == '/',
{
}

proof fn lemma_segments_sep_prepend(g: Seq<char>, c: char)
    requires
        is_sep(c),
    ensures
        segments(seq![c] + g) == segments(g),
{
    let s = seq![c] + g;
    assert(s[0] == c);
    assert(s.len() > 0);
    assert(s.skip(1) =~= g);
}

proof fn lemma_join_sl_first_any(segs: Seq<Seq<char>>)
    requires
        segs.len() > 0,
    ensures
        join_sl(segs).len() >= 1,
        join_sl(segs)[0] == '/',
{
}

proof fn lemma_canon_suffix(c: Seq<Seq<char>>, n: int)
    requires
        is_canon(c),
        0 <= n <= c.len(),
    ensures
        is_canon(c.skip(n)),
        all_segs_ok(c.skip(n)),
{
    let s = c.skip(n);
    assert forall|i: int| 0 <= i < s.len() implies seg_ok(#[trigger] s[i]) && s[i] != dot() by {
        assert(s[i] == c[i + n]);
    }
    assert forall|i: int, j: int|
        0 <= i < j < s.len() && #[trigger] s[j] == dotdot() implies #[trigger] s[i]
        == dotdot() by {
        assert(s[j] == c[j + n]);
        assert(s[i] == c[i + n]);
    }
}

/// Resolving a single path is idempotent: resolving the result again gives
/// it back unchanged, in either mode. Under `Windows` one family of inputs
/// is left out: a path carrying no UNC or drive marker whose resolution
/// nonetheless begins with a bare drive-marker-looking segment (the first
/// resolution exposes the marker at the front, and the second then roots
/// it). A resolution whose marker-looking head is already followed by `/`
/// is harmless and stays in.
pub proof fn lemma_resolve_one_idempotent(p: Seq<char>, m: OsPathManipulation)
    requires
        m == OsPathManipulation::Windows && win_prefix(p) is None ==> (win_prefix(
            spec_resolve_one(p, m),
        ) is None || (spec_resolve_one(p, m).len() > 2 && spec_resolve_one(p, m)[2] == '/')),
    ensures
        spec_resolve_one(spec_resolve_one(p, m), m) == spec_resolve_one(p, m),
{
    let e = Seq::<char>::empty();
    assert(win_prefix(e) is None);
    match m {
        OsPathManipulation::Default => {
            lemma_resolve_empty_add(p);
            lemma_resolve_empty_add(normalize(p));
            lemma_normalize_idem(p);
        },
        OsPathManipulation::Windows => {
            if win_prefix(p) is None && win_prefix(spec_resolve_one(p, m)) is None {
                lemma_resolve_empty_add(p);
                lemma_resolve_empty_add(normalize(p));
                lemma_normalize_idem(p);
            } else if win_prefix(p) is None {
                // the first resolution is generic, and its result r1 carries
                // a marker: a relative rendering whose head segment is
                // exactly a drive-marker pair followed by more segments
                lemma_resolve_empty_add(p);
                let r1 = normalize(p);
                assert(spec_resolve_one(p, m) == r1);
                let c = collapse(segments(p));
                lemma_collapse_canon(p);
                lemma_normalize_render(c, starts_with_sep(p));
                if starts_with_sep(p) {
                    lemma_render_abs_head(c);
                    assert(r1[0] == '/');
                    assert(!crate::model::has_unc_prefix(r1));
                    assert(!crate::model::has_drive_prefix(r1)) by {
                        if is_ascii_letter(r1[0]) {
                            assert(r1[0] as u32 == 47);
                        }
                    }
                    assert(false);
                }
                assert(c.len() > 0);
                let c0 = c[0];
                let join2 = join_sl(c.skip(1));
                assert(r1 == join_sl(c).skip(1));
                assert(r1 =~= c0 + join2);
                assert(seg_ok(c0));
                assert(r1[0] == c0[0]);
                assert(!crate::model::has_unc_prefix(r1)) by {
                    if r1[0] == '\\' {
                        assert(is_sep(c0[0]));
                    }
                }
                assert(crate::model::has_drive_prefix(r1));
                assert(c0.len() >= 2) by {
                    if c0.len() == 1 {
                        assert(join2.len() >= 1);
                        assert(c.skip(1).len() > 0) by {
                            if c.skip(1).len() == 0 {
                                assert(join2 =~= Seq::<char>::empty());
                            }
                        }
                        lemma_join_sl_first_any(c.skip(1));
                        assert(r1[1] == join2[0]);
                        assert(r1[1] == '/');
                    }
                }
                assert(c0[1] == ':');
                assert(c0.len() == 2) by {
                    if c0.len() > 2 {
                        assert(r1[2] == c0[2]);
                        assert(!is_sep(c0[2]));
                    }
                }
                assert(join2.len() > 0) by {
                    assert(r1.len() > 2);
                }
                lemma_join_sl_first_any(c.skip(1));
                assert(c.skip(1).len() > 0) by {
                    if c.skip(1).len() == 0 {
                        assert(join2 =~= Seq::<char>::empty());
                    }
                }
                // the second resolution strips the exposed marker, finds the
                // remainder already canonical, and reattaches the marker
                assert(win_prefix(r1) == Some(r1.take(2)));
                assert(r1.take(2) =~= c0);
                let sr = strip_win_prefix(r1);
                assert(sr == seq!['/'] + r1.skip(2));
                assert(r1.skip(2) =~= join2);
                lemma_segments_sep_prepend(join2, '/');
                lemma_canon_suffix(c, 1);
                lemma_split_join(c.skip(1));
                assert(segments(sr) == c.skip(1));
                lemma_collapse_of_canon(c.skip(1));
                assert(starts_with_sep(sr));
                assert(normalize(sr) == render(c.skip(1), true));
                assert(render(c.skip(1), true) == join2);
                assert(strip_win_prefix(e) == e);
                lemma_resolve_empty_add(sr);
                assert(spec_resolve_one(r1, m) == crate::model::reattach(r1.take(2), join2));
                assert(r1.take(2) != seq!['\\', '\\']) by {
                    if c0[0] == '\\' {
                        assert(is_sep(c0[0]));
                    }
                }
                assert(crate::model::reattach(r1.take(2), join2) =~= r1);
            } else {
                let pr = win_prefix(p).unwrap();
                assert(pr == p.take(2));
                let sp = strip_win_prefix(p);
                assert(strip_win_prefix(e) == e);
                lemma_resolve_empty_add(sp);
                assert(sp == seq!['/'] + p.skip(2));
                assert(sp[0] == '/');
                assert(starts_with_sep(sp));
                let c = collapse(segments(sp));
                lemma_collapse_canon(sp);
                let g = normalize(sp);
                assert(g == render(c, true));
                lemma_render_abs_head(c);
                lemma_normalize_render(c, true);
                let r1 = crate::model::reattach(pr, g);
                assert(spec_resolve_one(p, m) == r1);
                if p[0] == '\\' && p[1] == '\\' {
                    assert(pr =~= seq!['\\', '\\']);
                    assert(r1 == pr + g.skip(1));
                    assert(r1[0] == '\\' && r1[1] == '\\');
                    assert(win_prefix(r1) == Some(r1.take(2)));
                    assert(r1.take(2) =~= pr);
                    let sr = strip_win_prefix(r1);
                    assert(sr == seq!['/'] + r1.skip(2));
                    assert(r1.skip(2) =~= g.skip(1));
                    assert(seq!['/'] + g.skip(1) =~= g);
                    lemma_resolve_empty_add(g);
                    assert(spec_resolve_one(r1, m) == crate::model::reattach(r1.take(2), g));
                } else {
                    assert(crate::model::has_drive_prefix(p));
                    assert(is_ascii_letter(pr[0]) && pr[1] == ':');
                    assert(pr[0] != '\\') by {
                        if pr[0] == '\\' {
                            assert(pr[0] as u32 == 92);
                        }
                    }
                    assert(pr != seq!['\\', '\\']);
                    assert(r1 == pr + g);
                    assert(r1[0] == pr[0] && r1[1] == ':');
                    assert(r1.len() >= 2);
                    assert(crate::model::has_drive_prefix(r1));
                    assert(!crate::model::has_unc_prefix(r1));
                    assert(win_prefix(r1) == Some(r1.take(2)));
                    assert(r1.take(2) =~= pr);
                    let sr = strip_win_prefix(r1);
                    assert(sr == seq!['/'] + r1.skip(2));
                    assert(r1.skip(2) =~= g);
                    lemma_segments_sep_prepend(g, '/');
                    assert(segments(sr) == segments(g));
                    assert(segments(g) == c);
                    assert(starts_with_sep(sr));
                    lemma_collapse_of_canon(c);
                    assert(normalize(sr) == render(c, true));
                    lemma_resolve_empty_add(sr);
                    assert(spec_resolve_one(r1, m) == crate::model::reattach(r1.take(2), g));
                }
            }
        },
    }
}

/// A later absolute path overrides everything before it: resolving any `p`
/// against an absolute `q` is the same as resolving `q` alone. Under
/// `Windows` the law asks that `q` carry a UNC or drive marker whenever `p`
/// does (a merely separator-rooted `q` cannot shed the marker that `p`
/// would lend the result).
pub proof fn lemma_resolve_absolute_override(p: Seq<char>, q: Seq<char>, m: OsPathManipulation)
    requires
        spec_is_absolute(q, m),
        m == OsPathManipulation::Windows && win_prefix(p) is Some ==> win_prefix(q) is Some,
    ensures
        spec_resolve(p, q, m) == spec_resolve_one(q, m),
{
    let e = Seq::<char>::empty();
    assert(win_prefix(e) is None);
    match m {
        OsPathManipulation::Default => {
            lemma_resolve_empty_add(q);
        },
        OsPathManipulation::Windows => {
            if win_prefix(q) is Some {
                let sq = strip_win_prefix(q);
                assert(sq == seq!['/'] + q.skip(2));
                assert(sq[0] == '/');
                assert(starts_with_sep(sq));
                assert(strip_win_prefix(e) == e);
                lemma_resolve_empty_add(sq);
            } else {
                assert(win_root(q) is Some);
                assert(starts_with_sep(q));
                lemma_resolve_empty_add(q);
            }
        },
    }
}

/// An empty fold yields the empty string.
pub proof fn lemma_resolve_n_empty(m: OsPathManipulation)
    ensures
        spec_resolve_n(Seq::empty(), m) == Seq::<char>::empty(),
{
}

proof fn lemma_common_len_self(a: Seq<Seq<char>>)
    ensures
        common_len(a, a) == a.len(),
    decreases a.len(),
{
    if a.len() > 0 {
        lemma_skip_step(a, 0);
        lemma_common_len_self(a.skip(1));
    }
}

/// No path is relative to itself: the relative path from an absolute path
/// to itself is the empty string, in either mode.
pub proof fn lemma_relative_self(p: Seq<char>, m: OsPathManipulation)
    requires
        spec_is_absolute(p, m),
    ensures
        spec_relative(p, p, m) == Seq::<char>::empty(),
{
    let x = match m {
        OsPathManipulation::Default => p,
        OsPathManipulation::Windows => with_lead_sep(p.skip(win_root(p).unwrap().len() as int)),
    };
    let f = collapse(segments(x));
    lemma_common_len_self(f);
    let k = common_len(f, f);
    assert(Seq::new((f.len() - k) as nat, |i: int| dotdot()) + f.skip(k)
        =~= Seq::<Seq<char>>::empty());
    assert(spec_relative_generic(x, x) == render(Seq::<Seq<char>>::empty(), false));
    assert(spec_relative(p, p, m) == spec_relative_generic(x, x));
}

} // verus!
