//! Path patterns: `/`-separated segments that are literal text, a named
//! parameter (`:name`, capturing one non-empty segment), or a catch-all
//! (`*name`, capturing the whole remainder, only in last position), and the
//! matching of one pattern against the segments of a concrete path.
use vstd::prelude::*;

use crate::text::{join_slash, split_slash, views_of};
use crate::text::{join_from, split_path};

verus! {

/// One parsed pattern segment.
pub enum Segment {
    Literal(String),
    Param(String),
    CatchAll(String),
}

/// The mathematical form of a segment.
pub enum SegModel {
    Literal(Seq<char>),
    Param(Seq<char>),
    CatchAll(Seq<char>),
}

pub open spec fn seg_model(s: Segment) -> SegModel {
    match s {
        Segment::Literal(t) => SegModel::Literal(t@),
        Segment::Param(n) => SegModel::Param(n@),
        Segment::CatchAll(n) => SegModel::CatchAll(n@),
    }
}

pub open spec fn segs_model(v: Seq<Segment>) -> Seq<SegModel> {
    v.map_values(|s: Segment| seg_model(s))
}

/// What a raw `/`-separated piece of a pattern stands for.
pub open spec fn classify_seg(raw: Seq<char>) -> SegModel {
    if raw.len() > 0 && raw[0] == ':' {
        SegModel::Param(raw.skip(1))
    } else if raw.len() > 0 && raw[0] == '*' {
        SegModel::CatchAll(raw.skip(1))
    } else {
        SegModel::Literal(raw)
    }
}

/// A segment is well formed: parameter and catch-all names are non-empty,
/// and a catch-all stands only in last position.
pub open spec fn seg_wf(m: SegModel, is_last: bool) -> bool {
    match m {
        SegModel::Literal(_) => true,
        SegModel::Param(n) => n.len() > 0,
        SegModel::CatchAll(n) => n.len() > 0 && is_last,
    }
}

/// A pattern is well formed: non-empty, starts with `/`, every segment well
/// formed.
pub open spec fn pattern_wf(p: Seq<char>) -> bool {
    let segs = split_slash(p);
    &&& p.len() > 0
    &&& p[0] == '/'
    &&& forall|i: int|
        0 <= i < segs.len() ==> seg_wf(#[trigger] classify_seg(segs[i]), i == segs.len() - 1)
}

/// The parsed form of a pattern, or `None` if it is not well formed.
pub open spec fn parse_model(p: Seq<char>) -> Option<Seq<SegModel>> {
    if pattern_wf(p) {
        Some(split_slash(p).map_values(|raw: Seq<char>| classify_seg(raw)))
    } else {
        None
    }
}

/// Why a registration is refused.
#[derive(Clone, Copy, PartialEq, Eq, Structural, Debug)]
pub enum RouteError {
    /// The pattern is malformed.
    InvalidPattern,
    /// A pattern of the same shape is already registered for the method.
    PatternConflict,
}

fn classify_one(raw: &String, is_last: bool) -> (r: Result<Segment, RouteError>)
    ensures
        match r {
            Ok(s) => seg_model(s) == classify_seg(raw@) && seg_wf(classify_seg(raw@), is_last),
            Err(e) => !seg_wf(classify_seg(raw@), is_last) && e == RouteError::InvalidPattern,
        },
{
    let s = raw.as_str();
    let n = s.unicode_len();
    proof {
        assert(raw@.subrange(1, n as int) =~= raw@.skip(1));
    }
    if n > 0 && s.get_char(0) == ':' {
        if n == 1 {
            Err(RouteError::InvalidPattern)
        } else {
            Ok(Segment::Param(s.substring_char(1, n).to_owned()))
        }
    } else if n > 0 && s.get_char(0) == '*' {
        if n == 1 || !is_last {
            Err(RouteError::InvalidPattern)
        } else {
            Ok(Segment::CatchAll(s.substring_char(1, n).to_owned()))
        }
    } else {
        Ok(Segment::Literal(raw.clone()))
    }
}

/// Parse a pattern string into its segments; `InvalidPattern` if it is not
/// well formed.
pub fn parse_pattern(p: &str) -> (r: Result<Vec<Segment>, RouteError>)
    ensures
        match r {
            Ok(v) => parse_model(p@) == Some(segs_model(v@)),
            Err(e) => parse_model(p@) is None && e == RouteError::InvalidPattern,
        },
{
    let n = p.unicode_len();
    if n == 0 || p.get_char(0) != '/' {
        return Err(RouteError::InvalidPattern);
    }
    let raws = split_path(p);
    let ghost rsegs = split_slash(p@);
    let mut out: Vec<Segment> = Vec::new();
    let len = raws.len();
    let mut i: usize = 0;
    while i < len
        invariant
            0 <= i <= len,
            len == raws@.len(),
            rsegs == split_slash(p@),
            views_of(raws@) == rsegs,
            out@.len() == i,
            forall|k: int|
                0 <= k < i ==> seg_model(#[trigger] out@[k]) == classify_seg(rsegs[k]) && seg_wf(
                    classify_seg(rsegs[k]),
                    k == rsegs.len() - 1,
                ),
        decreases len - i,
    {
        proof {
            assert(rsegs[i as int] == raws@[i as int]@);
        }
        match classify_one(&raws[i], i + 1 == len) {
            Ok(s) => out.push(s),
            Err(e) => {
                proof {
                    assert(rsegs == split_slash(p@));
                    assert(!seg_wf(
                        classify_seg(split_slash(p@)[i as int]),
                        i as int == split_slash(p@).len() - 1,
                    ));
                    assert(!pattern_wf(p@));
                }
                return Err(e);
            },
        }
        i = i + 1;
    }
    proof {
        assert forall|k: int|
            0 <= k < rsegs.len() implies seg_wf(
            #[trigger] classify_seg(rsegs[k]),
            k == rsegs.len() - 1,
        ) by {
            assert(seg_model(out@[k]) == classify_seg(rsegs[k]));
        }
        assert(pattern_wf(p@));
        assert forall|k: int| 0 <= k < rsegs.len() implies segs_model(out@)[k] == rsegs.map_values(
            |raw: Seq<char>| classify_seg(raw),
        )[k] by {
            assert(seg_model(out@[k]) == classify_seg(rsegs[k]));
        }
        assert(segs_model(out@) =~= rsegs.map_values(|raw: Seq<char>| classify_seg(raw)));
    }
    Ok(out)
}

/// The captured parameter pairs of a successful match, in pattern
/// declaration order, or `None` if the pattern does not accept the path.
pub open spec fn seg_match(pat: Seq<SegModel>, path: Seq<Seq<char>>) -> Option<
    Seq<(Seq<char>, Seq<char>)>,
>
    decreases pat.len(),
{
    if pat.len() == 0 {
        if path.len() == 0 {
            Some(Seq::empty())
        } else {
            None
        }
    } else {
        match pat[0] {
            SegModel::Literal(t) => if path.len() > 0 && path[0] == t {
                seg_match(pat.skip(1), path.skip(1))
            } else {
                None
            },
            SegModel::Param(nm) => if path.len() > 0 && path[0].len() > 0 {
                match seg_match(pat.skip(1), path.skip(1)) {
                    Some(ps) => Some(seq![(nm, path[0])] + ps),
                    None => None,
                }
            } else {
                None
            },
            SegModel::CatchAll(nm) => if pat.len() == 1 && path.len() > 0 {
                Some(seq![(nm, join_slash(path))])
            } else {
                None
            },
        }
    }
}

/// The views of captured pairs.
pub open spec fn pairs_model(v: Seq<(String, String)>) -> Seq<(Seq<char>, Seq<char>)> {
    v.map_values(|p: (String, String)| (p.0@, p.1@))
}

fn match_from(pat: &Vec<Segment>, path: &Vec<String>, i: usize) -> (r: Option<
    Vec<(String, String)>,
>)
    requires
        i <= pat@.len(),
        i <= path@.len(),
    ensures
        match r {
            Some(v) => seg_match(segs_model(pat@).skip(i as int), views_of(path@).skip(i as int))
                == Some(pairs_model(v@)),
            None => seg_match(segs_model(pat@).skip(i as int), views_of(path@).skip(i as int))
                is None,
        },
    decreases pat@.len() - i,
{
    let ghost pm = segs_model(pat@).skip(i as int);
    let ghost pv = views_of(path@).skip(i as int);
    if i == pat.len() {
        if i == path.len() {
            let r: Vec<(String, String)> = Vec::new();
            proof {
                assert(pairs_model(r@) =~= Seq::<(Seq<char>, Seq<char>)>::empty());
            }
            Some(r)
        } else {
            None
        }
    } else {
        proof {
            assert(pm[0] == seg_model(pat@[i as int]));
            assert(segs_model(pat@).skip(i as int).skip(1) =~= segs_model(pat@).skip(i + 1));
            if i < path@.len() {
                assert(pv[0] == path@[i as int]@);
                assert(views_of(path@).skip(i as int).skip(1) =~= views_of(path@).skip(i + 1));
            }
        }
        match &pat[i] {
            Segment::Literal(t) => {
                if i < path.len() && *t == path[i] {
                    match_from(pat, path, i + 1)
                } else {
                    None
                }
            },
            Segment::Param(nm) => {
                if i < path.len() && path[i].as_str().unicode_len() > 0 {
                    match match_from(pat, path, i + 1) {
                        Some(mut v) => {
                            let ghost v0 = v@;
                            v.insert(0, (nm.clone(), path[i].clone()));
                            proof {
                                assert(v@[0].0@ == nm@ && v@[0].1@ == path@[i as int]@);
                                assert forall|k: int| 0 <= k < v@.len() implies pairs_model(v@)[k]
                                    == (seq![(nm@, path@[i as int]@)] + pairs_model(v0))[k] by {
                                    if k > 0 {
                                        assert(v@[k] == v0[k - 1]);
                                    }
                                }
                                assert(pairs_model(v@) =~= seq![(nm@, path@[i as int]@)]
                                    + pairs_model(v0));
                            }
                            Some(v)
                        },
                        None => None,
                    }
                } else {
                    None
                }
            },
            Segment::CatchAll(nm) => {
                if i + 1 == pat.len() && i < path.len() {
                    let tail = join_from(path, i);
                    let mut v: Vec<(String, String)> = Vec::new();
                    v.push((nm.clone(), tail));
                    proof {
                        assert(pm.len() == 1);
                        assert(pairs_model(v@) =~= seq![(nm@, join_slash(pv))]);
                    }
                    Some(v)
                } else {
                    None
                }
            },
        }
    }
}

/// Match one parsed pattern against the segments of a path.
pub fn match_segments(pat: &Vec<Segment>, path: &Vec<String>) -> (r: Option<Vec<(String, String)>>)
    ensures
        match r {
            Some(v) => seg_match(segs_model(pat@), views_of(path@)) == Some(pairs_model(v@)),
            None => seg_match(segs_model(pat@), views_of(path@)) is None,
        },
{
    let r = match_from(pat, path, 0);
    proof {
        assert(segs_model(pat@).skip(0) =~= segs_model(pat@));
        assert(views_of(path@).skip(0) =~= views_of(path@));
    }
    r
}

/// The parameter names a pattern declares, in order: one per `:name`
/// segment, and one for a trailing catch-all.
pub open spec fn param_names(pat: Seq<SegModel>) -> Seq<Seq<char>>
    decreases pat.len(),
{
    if pat.len() == 0 {
        Seq::empty()
    } else {
        match pat[0] {
            SegModel::Literal(_) => param_names(pat.skip(1)),
            SegModel::Param(nm) => seq![nm] + param_names(pat.skip(1)),
            SegModel::CatchAll(nm) => seq![nm] + param_names(pat.skip(1)),
        }
    }
}

/// A successful match binds exactly the pattern's declared parameter
/// names, in declaration order.
pub proof fn lemma_match_binds_declared_params(pat: Seq<SegModel>, path: Seq<Seq<char>>)
    requires
        seg_match(pat, path) is Some,
    ensures
        seg_match(pat, path)->Some_0.map_values(|kv: (Seq<char>, Seq<char>)| kv.0) == param_names(
            pat,
        ),
    decreases pat.len(),
{
    let ps = seg_match(pat, path)->Some_0;
    let names = ps.map_values(|kv: (Seq<char>, Seq<char>)| kv.0);
    if pat.len() == 0 {
        assert(names =~= param_names(pat));
    } else {
        match pat[0] {
            SegModel::Literal(_) => {
                lemma_match_binds_declared_params(pat.skip(1), path.skip(1));
                assert(names =~= param_names(pat));
            },
            SegModel::Param(nm) => {
                lemma_match_binds_declared_params(pat.skip(1), path.skip(1));
                let ps1 = seg_match(pat.skip(1), path.skip(1))->Some_0;
                assert(ps == seq![(nm, path[0])] + ps1);
                assert forall|k: int| 0 <= k < names.len() implies names[k] == (seq![nm]
                    + ps1.map_values(|kv: (Seq<char>, Seq<char>)| kv.0))[k] by {
                    if k > 0 {
                        assert(ps[k] == ps1[k - 1]);
                    }
                }
                assert(names =~= seq![nm] + ps1.map_values(
                    |kv: (Seq<char>, Seq<char>)| kv.0,
                ));
            },
            SegModel::CatchAll(nm) => {
                assert(ps == seq![(nm, join_slash(path))]);
                assert(param_names(pat.skip(1)) =~= Seq::<Seq<char>>::empty());
                assert(names =~= seq![nm] + param_names(pat.skip(1)));
            },
        }
    }
}

/// How specific a segment kind is: literal before parameter before
/// catch-all.
pub open spec fn seg_rank(m: SegModel) -> int {
    match m {
        SegModel::Literal(_) => 0,
        SegModel::Param(_) => 1,
        SegModel::CatchAll(_) => 2,
    }
}

/// `a` takes precedence over `b`: at the first position where their segment
/// kinds differ, `a` is the more specific.
pub open spec fn more_specific(a: Seq<SegModel>, b: Seq<SegModel>) -> bool
    decreases a.len(),
{
    if a.len() == 0 || b.len() == 0 {
        b.len() > 0
    } else if seg_rank(a[0]) != seg_rank(b[0]) {
        seg_rank(a[0]) < seg_rank(b[0])
    } else {
        more_specific(a.skip(1), b.skip(1))
    }
}

/// Precedence is asymmetric: two patterns never each take precedence over
/// the other.
pub proof fn lemma_more_specific_asym(a: Seq<SegModel>, b: Seq<SegModel>)
    ensures
        !(more_specific(a, b) && more_specific(b, a)),
    decreases a.len(),
{
    if a.len() == 0 || b.len() == 0 {
    } else if seg_rank(a[0]) != seg_rank(b[0]) {
    } else {
        lemma_more_specific_asym(a.skip(1), b.skip(1));
    }
}

fn rank_of(s: &Segment) -> (r: u8)
    ensures
        r as int == seg_rank(seg_model(*s)),
{
    match s {
        Segment::Literal(_) => 0,
        Segment::Param(_) => 1,
        Segment::CatchAll(_) => 2,
    }
}

/// Decide precedence between two parsed patterns.
pub fn takes_precedence(a: &Vec<Segment>, b: &Vec<Segment>) -> (r: bool)
    ensures
        r == more_specific(segs_model(a@), segs_model(b@)),
{
    let ghost am = segs_model(a@);
    let ghost bm = segs_model(b@);
    proof {
        assert(am.skip(0) =~= am);
        assert(bm.skip(0) =~= bm);
    }
    let mut i: usize = 0;
    loop
        invariant
            0 <= i <= a@.len(),
            0 <= i <= b@.len(),
            am == segs_model(a@),
            bm == segs_model(b@),
            am.len() == a@.len(),
            bm.len() == b@.len(),
            more_specific(am, bm) == more_specific(am.skip(i as int), bm.skip(i as int)),
        decreases a@.len() - i,
    {
        proof {
            if i < a@.len() {
                assert(am.skip(i as int)[0] == seg_model(a@[i as int]));
                assert(am.skip(i as int).skip(1) =~= am.skip(i + 1));
            }
            if i < b@.len() {
                assert(bm.skip(i as int)[0] == seg_model(b@[i as int]));
                assert(bm.skip(i as int).skip(1) =~= bm.skip(i + 1));
            }
        }
        if i == a.len() || i == b.len() {
            return i < b.len();
        }
        let ra = rank_of(&a[i]);
        let rb = rank_of(&b[i]);
        if ra != rb {
            return ra < rb;
        }
        i = i + 1;
    }
}

/// The shape of a pattern: its segment kinds and literal text, with
/// parameter and catch-all names disregarded.
pub open spec fn seg_shape(m: SegModel) -> SegModel {
    match m {
        SegModel::Literal(t) => SegModel::Literal(t),
        SegModel::Param(_) => SegModel::Param(Seq::empty()),
        SegModel::CatchAll(_) => SegModel::CatchAll(Seq::empty()),
    }
}

pub open spec fn shape_of(pat: Seq<SegModel>) -> Seq<SegModel> {
    pat.map_values(|m: SegModel| seg_shape(m))
}

/// Decide whether two parsed patterns have the same shape.
pub fn same_shape(a: &Vec<Segment>, b: &Vec<Segment>) -> (r: bool)
    ensures
        r == (shape_of(segs_model(a@)) == shape_of(segs_model(b@))),
{
    let ghost am = segs_model(a@);
    let ghost bm = segs_model(b@);
    if a.len() != b.len() {
        proof {
            assert(shape_of(am).len() != shape_of(bm).len());
        }
        return false;
    }
    let len = a.len();
    let mut i: usize = 0;
    while i < len
        invariant
            0 <= i <= len,
            len == a@.len() && len == b@.len(),
            am == segs_model(a@),
            bm == segs_model(b@),
            am.len() == len && bm.len() == len,
            forall|k: int| 0 <= k < i ==> seg_shape(am[k]) == seg_shape(bm[k]),
        decreases len - i,
    {
        proof {
            assert(am[i as int] == seg_model(a@[i as int]));
            assert(bm[i as int] == seg_model(b@[i as int]));
        }
        let eq = match (&a[i], &b[i]) {
            (Segment::Literal(x), Segment::Literal(y)) => *x == *y,
            (Segment::Param(_), Segment::Param(_)) => true,
            (Segment::CatchAll(_), Segment::CatchAll(_)) => true,
            _ => false,
        };
        if !eq {
            proof {
                assert(seg_shape(am[i as int]) != seg_shape(bm[i as int]));
                assert(shape_of(am)[i as int] != shape_of(bm)[i as int]);
            }
            return false;
        }
        i = i + 1;
    }
    proof {
        assert(shape_of(am) =~= shape_of(bm));
    }
    true
}

} // verus!
