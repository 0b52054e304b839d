//! The route table of one method: registered routes with pairwise distinct
//! shapes, conflict-checked insertion, and matching with precedence (the
//! most specific matching pattern wins; among equals the earliest).
use vstd::prelude::*;

use crate::pattern::{
    lemma_more_specific_asym, match_segments, more_specific, pairs_model, same_shape, seg_match,
    segs_model, shape_of, takes_precedence, RouteError, SegModel, Segment,
};
use crate::text::views_of;

verus! {

/// One registered route: a parsed pattern and its handler identifier.
pub struct Route {
    pub pattern: Vec<Segment>,
    pub handler: String,
}

/// The mathematical form of a route.
pub struct RouteModel {
    pub segs: Seq<SegModel>,
    pub handler: Seq<char>,
}

pub open spec fn route_model(r: Route) -> RouteModel {
    RouteModel { segs: segs_model(r.pattern@), handler: r.handler@ }
}

pub open spec fn routes_model(v: Seq<Route>) -> Seq<RouteModel> {
    v.map_values(|r: Route| route_model(r))
}

/// A table is well formed when no two routes share a shape, so that at most
/// one registered pattern of each shape accepts any path.
pub open spec fn table_wf(t: Seq<RouteModel>) -> bool {
    forall|i: int, j: int|
        0 <= i < t.len() && 0 <= j < t.len() && i != j ==> shape_of(#[trigger] t[i].segs)
            != shape_of(#[trigger] t[j].segs)
}

/// A resolved match: the handler identifier and the captured parameters in
/// pattern declaration order.
pub struct MatchResult {
    pub handler: String,
    pub params: Vec<(String, String)>,
}

/// The mathematical form of a match outcome.
pub struct MatchModel {
    pub handler: Seq<char>,
    pub params: Seq<(Seq<char>, Seq<char>)>,
}

pub open spec fn match_result_model(m: MatchResult) -> MatchModel {
    MatchModel { handler: m.handler@, params: pairs_model(m.params@) }
}

/// What a table insertion yields: the grown table, or a conflict when a
/// route of the same shape is already present.
pub open spec fn insert_model(t: Seq<RouteModel>, segs: Seq<SegModel>, handler: Seq<char>) -> Result<
    Seq<RouteModel>,
    RouteError,
> {
    if exists|k: int| 0 <= k < t.len() && shape_of(#[trigger] t[k].segs) == shape_of(segs) {
        Err(RouteError::PatternConflict)
    } else {
        Ok(t.push(RouteModel { segs, handler }))
    }
}

/// Insert a parsed route, refusing a pattern whose shape is already
/// registered; the table is untouched on failure.
pub fn table_insert(t: &mut Vec<Route>, pattern: Vec<Segment>, handler: String) -> (r: Result<
    (),
    RouteError,
>)
    requires
        table_wf(routes_model(old(t)@)),
    ensures
        table_wf(routes_model(final(t)@)),
        match r {
            Ok(_) => insert_model(routes_model(old(t)@), segs_model(pattern@), handler@)
                == Ok::<_, RouteError>(routes_model(final(t)@)),
            Err(e) => insert_model(routes_model(old(t)@), segs_model(pattern@), handler@) == Err::<
                Seq<RouteModel>,
                _,
            >(e) && final(t)@ == old(t)@,
        },
{
    let ghost tm = routes_model(old(t)@);
    let ghost sm = segs_model(pattern@);
    let len = t.len();
    let mut k: usize = 0;
    while k < len
        invariant
            0 <= k <= len,
            len == t@.len(),
            t@ == old(t)@,
            tm == routes_model(t@),
            table_wf(tm),
            sm == segs_model(pattern@),
            forall|x: int| 0 <= x < k ==> shape_of(#[trigger] tm[x].segs) != shape_of(sm),
        decreases len - k,
    {
        proof {
            assert(tm[k as int] == route_model(t@[k as int]));
        }
        if same_shape(&t[k].pattern, &pattern) {
            proof {
                assert(shape_of(tm[k as int].segs) == shape_of(sm));
                assert(insert_model(tm, sm, handler@) == Err::<Seq<RouteModel>, _>(
                    RouteError::PatternConflict,
                ));
            }
            return Err(RouteError::PatternConflict);
        }
        k = k + 1;
    }
    let ghost new_rm = RouteModel { segs: sm, handler: handler@ };
    proof {
        assert(!(exists|x: int|
            0 <= x < tm.len() && shape_of(#[trigger] tm[x].segs) == shape_of(sm)));
        assert(insert_model(tm, sm, handler@) == Ok::<_, RouteError>(tm.push(new_rm)));
    }
    t.push(Route { pattern, handler });
    proof {
        assert(routes_model(t@) =~= tm.push(new_rm));
        let nt = routes_model(t@);
        assert forall|i: int, j: int|
            0 <= i < nt.len() && 0 <= j < nt.len() && i != j implies shape_of(#[trigger] nt[i].segs)
            != shape_of(#[trigger] nt[j].segs) by {
            assert(nt[tm.len() as int] == new_rm);
            if i < tm.len() && j < tm.len() {
                assert(nt[i] == tm[i] && nt[j] == tm[j]);
                assert(shape_of(tm[i].segs) != shape_of(tm[j].segs));
            } else if i < tm.len() {
                assert(nt[i] == tm[i]);
                assert(shape_of(tm[i].segs) != shape_of(sm));
            } else {
                assert(nt[j] == tm[j]);
                assert(shape_of(tm[j].segs) != shape_of(sm));
            }
        }
    }
    Ok(())
}

/// The most specific matching route among `t[i..]`, starting from the best
/// seen so far; on equal precedence the earlier route is kept.
pub open spec fn best_from(
    t: Seq<RouteModel>,
    path: Seq<Seq<char>>,
    i: int,
    best: Option<RouteModel>,
) -> Option<RouteModel>
    decreases t.len() - i,
{
    if i < 0 || i >= t.len() {
        best
    } else {
        let cand_better = seg_match(t[i].segs, path) is Some && (best is None || more_specific(
            t[i].segs,
            best->Some_0.segs,
        ));
        best_from(t, path, i + 1, if cand_better {
            Some(t[i])
        } else {
            best
        })
    }
}

pub open spec fn best_route(t: Seq<RouteModel>, path: Seq<Seq<char>>) -> Option<RouteModel> {
    best_from(t, path, 0, None)
}

/// The outcome of matching a path against a whole table.
pub open spec fn table_match(t: Seq<RouteModel>, path: Seq<Seq<char>>) -> Option<MatchModel> {
    match best_route(t, path) {
        Option::None => Option::None,
        Option::Some(r) => match seg_match(r.segs, path) {
            Option::Some(ps) => Option::Some(MatchModel { handler: r.handler, params: ps }),
            Option::None => Option::None,
        },
    }
}

/// Match the segments of a path against every route of a table.
pub fn table_find(t: &Vec<Route>, path: &Vec<String>) -> (r: Option<MatchResult>)
    ensures
        match r {
            Some(m) => table_match(routes_model(t@), views_of(path@)) == Some(
                match_result_model(m),
            ),
            None => table_match(routes_model(t@), views_of(path@)) is None,
        },
{
    let ghost tm = routes_model(t@);
    let ghost pv = views_of(path@);
    let len = t.len();
    let mut i: usize = 0;
    let mut best_i: usize = 0;
    let mut best: Option<Vec<(String, String)>> = None;
    while i < len
        invariant
            0 <= i <= len,
            len == t@.len(),
            tm == routes_model(t@),
            pv == views_of(path@),
            match best {
                Some(ps) => best_i < i && seg_match(tm[best_i as int].segs, pv) == Some(
                    pairs_model(ps@),
                ) && best_from(tm, pv, i as int, Some(tm[best_i as int])) == best_from(
                    tm,
                    pv,
                    0,
                    None,
                ),
                None => best_from(tm, pv, i as int, None) == best_from(tm, pv, 0, None),
            },
        decreases len - i,
    {
        proof {
            assert(tm[i as int] == route_model(t@[i as int]));
        }
        let cand = match_segments(&t[i].pattern, path);
        let replace = match (&cand, &best) {
            (Some(_), None) => true,
            (Some(_), Some(_)) => takes_precedence(&t[i].pattern, &t[best_i].pattern),
            (None, _) => false,
        };
        if replace {
            best_i = i;
            best = cand;
        }
        i = i + 1;
    }
    match best {
        None => {
            proof {
                assert(best_from(tm, pv, len as int, None) == best_from(tm, pv, 0, None));
            }
            None
        },
        Some(params) => {
            let m = MatchResult { handler: t[best_i].handler.clone(), params };
            proof {
                assert(best_route(tm, pv) == Some(tm[best_i as int]));
            }
            Some(m)
        },
    }
}

/// When no route of the table accepts the path from `i` on, the best seen
/// so far stands.
proof fn lemma_best_from_none(t: Seq<RouteModel>, path: Seq<Seq<char>>, i: int, b: Option<
    RouteModel,
>)
    requires
        forall|k: int| i <= k < t.len() ==> seg_match(#[trigger] t[k].segs, path) is None,
    ensures
        best_from(t, path, i, b) == b,
    decreases t.len() - i,
{
    if i < 0 || i >= t.len() {
    } else {
        lemma_best_from_none(t, path, i + 1, b);
    }
}

/// When no registered route accepts the path, the table yields no match.
pub proof fn lemma_table_match_none(t: Seq<RouteModel>, path: Seq<Seq<char>>)
    requires
        forall|k: int| 0 <= k < t.len() ==> seg_match(#[trigger] t[k].segs, path) is None,
    ensures
        table_match(t, path) is None,
{
    lemma_best_from_none(t, path, 0, None);
}

proof fn lemma_best_from_wins(
    t: Seq<RouteModel>,
    path: Seq<Seq<char>>,
    j: int,
    i: int,
    b: Option<RouteModel>,
)
    requires
        0 <= j < t.len(),
        seg_match(t[j].segs, path) is Some,
        forall|k: int|
            0 <= k < t.len() && k != j && seg_match(#[trigger] t[k].segs, path) is Some
                ==> more_specific(t[j].segs, t[k].segs),
        0 <= i <= t.len(),
        i <= j ==> b is None || (seg_match(b->Some_0.segs, path) is Some && more_specific(
            t[j].segs,
            b->Some_0.segs,
        )),
        i > j ==> b == Some(t[j]),
    ensures
        best_from(t, path, i, b) == Some(t[j]),
    decreases t.len() - i,
{
    if i >= t.len() {
    } else {
        let cand_better = seg_match(t[i].segs, path) is Some && (b is None || more_specific(
            t[i].segs,
            b->Some_0.segs,
        ));
        let nb = if cand_better {
            Some(t[i])
        } else {
            b
        };
        if i == j {
            if b is Some {
                lemma_more_specific_asym(t[j].segs, b->Some_0.segs);
            }
            assert(nb == Some(t[j]));
        } else if i > j {
            if seg_match(t[i].segs, path) is Some {
                lemma_more_specific_asym(t[j].segs, t[i].segs);
            }
            assert(nb == Some(t[j]));
        }
        lemma_best_from_wins(t, path, j, i + 1, nb);
    }
}

/// The matching property of registration: when route `j` accepts the path
/// and takes precedence over every other accepting route, the table
/// resolves the path to `j`'s handler, with the parameter pairs that `j`'s
/// pattern captures from the path.
pub proof fn lemma_registered_route_wins(t: Seq<RouteModel>, path: Seq<Seq<char>>, j: int)
    requires
        0 <= j < t.len(),
        seg_match(t[j].segs, path) is Some,
        forall|k: int|
            0 <= k < t.len() && k != j && seg_match(#[trigger] t[k].segs, path) is Some
                ==> more_specific(t[j].segs, t[k].segs),
    ensures
        table_match(t, path) == Some(
            MatchModel { handler: t[j].handler, params: seg_match(t[j].segs, path)->Some_0 },
        ),
{
    lemma_best_from_wins(t, path, j, 0, None);
}

} // verus!
