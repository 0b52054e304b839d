//! The router engine: one route table per method, a bounded result cache
//! keyed by the `method:path` concatenation, and statistics. The cache is a
//! pure memoization layer: entries record the request that produced them,
//! are only written from live matching, and are cleared wholesale.
use vstd::prelude::*;

use crate::pattern::{pairs_model, parse_model, parse_pattern, segs_model, RouteError};
use crate::table::{
    insert_model, match_result_model, routes_model, table_find, table_insert, table_match,
    table_wf, MatchModel, MatchResult, Route, RouteModel,
};
use crate::text::{split_path, split_slash, str_eq};

verus! {

/// The cache holds at most this many entries; once full, new results are no
/// longer memoized.
pub const CACHE_CAPACITY: usize = 1000;

/// The routes registered for one method.
pub struct MethodEntry {
    pub name: String,
    pub table: Vec<Route>,
}

pub struct MethodModel {
    pub name: Seq<char>,
    pub routes: Seq<RouteModel>,
}

pub open spec fn method_entry_model(e: MethodEntry) -> MethodModel {
    MethodModel { name: e.name@, routes: routes_model(e.table@) }
}

pub open spec fn methods_model(v: Seq<MethodEntry>) -> Seq<MethodModel> {
    v.map_values(|e: MethodEntry| method_entry_model(e))
}

/// One memoized result, with the request that produced it.
pub struct CacheEntry {
    pub key: String,
    pub method: String,
    pub path: String,
    pub result: MatchResult,
}

pub struct CacheEntryModel {
    pub key: Seq<char>,
    pub method: Seq<char>,
    pub path: Seq<char>,
    pub result: MatchModel,
}

pub open spec fn cache_entry_model(e: CacheEntry) -> CacheEntryModel {
    CacheEntryModel {
        key: e.key@,
        method: e.method@,
        path: e.path@,
        result: match_result_model(e.result),
    }
}

pub open spec fn cache_model(v: Seq<CacheEntry>) -> Seq<CacheEntryModel> {
    v.map_values(|e: CacheEntry| cache_entry_model(e))
}

/// The composite cache key: the method, a colon, the path.
pub open spec fn cache_key_of(m: Seq<char>, p: Seq<char>) -> Seq<char> {
    m + seq![':'] + p
}

/// Index of the first method entry named `m`, or `ms.len()`.
pub open spec fn find_method_idx(ms: Seq<MethodModel>, m: Seq<char>) -> int
    decreases ms.len(),
{
    if ms.len() == 0 {
        0
    } else if ms[0].name == m {
        0
    } else {
        1 + find_method_idx(ms.skip(1), m)
    }
}

pub proof fn lemma_find_method_idx(ms: Seq<MethodModel>, m: Seq<char>)
    ensures
        0 <= find_method_idx(ms, m) <= ms.len(),
        forall|k: int| 0 <= k < find_method_idx(ms, m) ==> ms[k].name != m,
        find_method_idx(ms, m) < ms.len() ==> ms[find_method_idx(ms, m)].name == m,
    decreases ms.len(),
{
    if ms.len() == 0 || ms[0].name == m {
    } else {
        lemma_find_method_idx(ms.skip(1), m);
        let i = find_method_idx(ms, m);
        assert forall|k: int| 0 <= k < i implies ms[k].name != m by {
            if k > 0 {
                assert(ms.skip(1)[k - 1].name != m);
            }
        }
        if i < ms.len() {
            assert(ms.skip(1)[i - 1].name == m);
        }
    }
}

pub proof fn lemma_find_method_idx_unique(ms: Seq<MethodModel>, m: Seq<char>, i: int)
    requires
        0 <= i <= ms.len(),
        forall|k: int| 0 <= k < i ==> ms[k].name != m,
        i < ms.len() ==> ms[i].name == m,
    ensures
        find_method_idx(ms, m) == i,
    decreases ms.len(),
{
    if ms.len() == 0 || ms[0].name == m {
    } else {
        lemma_find_method_idx_unique(ms.skip(1), m, i - 1);
    }
}

/// The route table registered for method `m`, if any.
pub open spec fn find_method(ms: Seq<MethodModel>, m: Seq<char>) -> Option<Seq<RouteModel>> {
    let i = find_method_idx(ms, m);
    if 0 <= i < ms.len() {
        Some(ms[i].routes)
    } else {
        None
    }
}

/// Index of the first cache entry with key `k`, or `cs.len()`.
pub open spec fn find_cache_idx(cs: Seq<CacheEntryModel>, k: Seq<char>) -> int
    decreases cs.len(),
{
    if cs.len() == 0 {
        0
    } else if cs[0].key == k {
        0
    } else {
        1 + find_cache_idx(cs.skip(1), k)
    }
}

pub proof fn lemma_find_cache_idx(cs: Seq<CacheEntryModel>, k: Seq<char>)
    ensures
        0 <= find_cache_idx(cs, k) <= cs.len(),
        forall|x: int| 0 <= x < find_cache_idx(cs, k) ==> cs[x].key != k,
        find_cache_idx(cs, k) < cs.len() ==> cs[find_cache_idx(cs, k)].key == k,
    decreases cs.len(),
{
    if cs.len() == 0 || cs[0].key == k {
    } else {
        lemma_find_cache_idx(cs.skip(1), k);
        let i = find_cache_idx(cs, k);
        assert forall|x: int| 0 <= x < i implies cs[x].key != k by {
            if x > 0 {
                assert(cs.skip(1)[x - 1].key != k);
            }
        }
        if i < cs.len() {
            assert(cs.skip(1)[i - 1].key == k);
        }
    }
}

pub proof fn lemma_find_cache_idx_unique(cs: Seq<CacheEntryModel>, k: Seq<char>, i: int)
    requires
        0 <= i <= cs.len(),
        forall|x: int| 0 <= x < i ==> cs[x].key != k,
        i < cs.len() ==> cs[i].key == k,
    ensures
        find_cache_idx(cs, k) == i,
    decreases cs.len(),
{
    if cs.len() == 0 || cs[0].key == k {
    } else {
        lemma_find_cache_idx_unique(cs.skip(1), k, i - 1);
    }
}

/// The memoized entry under key `k`, if any.
pub open spec fn find_cache(cs: Seq<CacheEntryModel>, k: Seq<char>) -> Option<CacheEntryModel> {
    let i = find_cache_idx(cs, k);
    if 0 <= i < cs.len() {
        Some(cs[i])
    } else {
        None
    }
}

/// Method names are distinct and every table is well formed.
pub open spec fn methods_wf(ms: Seq<MethodModel>) -> bool {
    &&& forall|i: int, j: int|
        0 <= i < ms.len() && 0 <= j < ms.len() && i != j ==> (#[trigger] ms[i].name)
            != (#[trigger] ms[j].name)
    &&& forall|i: int| 0 <= i < ms.len() ==> table_wf(#[trigger] ms[i].routes)
}

/// Cache keys are distinct, each entry's key is the composite of its
/// recorded request, every recorded method is registered, and the size
/// never exceeds the capacity.
pub open spec fn cache_wf(cs: Seq<CacheEntryModel>, ms: Seq<MethodModel>, cap: int) -> bool {
    &&& cs.len() <= cap
    &&& forall|i: int, j: int|
        0 <= i < cs.len() && 0 <= j < cs.len() && i != j ==> (#[trigger] cs[i].key)
            != (#[trigger] cs[j].key)
    &&& forall|i: int|
        0 <= i < cs.len() ==> (#[trigger] cs[i].key) == cache_key_of(cs[i].method, cs[i].path)
    &&& forall|i: int| 0 <= i < cs.len() ==> find_method(ms, (#[trigger] cs[i]).method) is Some
}

/// The single stateful instance: registry, cache, capacity.
pub struct Router {
    pub methods: Vec<MethodEntry>,
    pub cache: Vec<CacheEntry>,
    pub max_cache_size: usize,
}

pub open spec fn router_wf(r: Router) -> bool {
    &&& methods_wf(methods_model(r.methods@))
    &&& cache_wf(cache_model(r.cache@), methods_model(r.methods@), r.max_cache_size as int)
    &&& r.max_cache_size == CACHE_CAPACITY
}

/// What live matching (no cache involved) yields for a request.
pub open spec fn route_lookup(ms: Seq<MethodModel>, m: Seq<char>, p: Seq<char>) -> Option<
    MatchModel,
> {
    match find_method(ms, m) {
        Option::Some(routes) => table_match(routes, split_slash(p)),
        Option::None => Option::None,
    }
}

/// What a lookup through the cache yields: the memoized result when the
/// composite key is present, live matching otherwise.
pub open spec fn lookup_model(r: Router, m: Seq<char>, p: Seq<char>) -> Option<MatchModel> {
    match find_cache(cache_model(r.cache@), cache_key_of(m, p)) {
        Option::Some(e) => Option::Some(e.result),
        Option::None => route_lookup(methods_model(r.methods@), m, p),
    }
}

/// Every memoized result is what live matching yields today for the
/// request that produced it. Established by a fresh or cleared router,
/// preserved by matching, broken only by registering further routes.
pub open spec fn cache_consistent(r: Router) -> bool {
    let cs = cache_model(r.cache@);
    let ms = methods_model(r.methods@);
    forall|i: int|
        0 <= i < cs.len() ==> route_lookup(ms, (#[trigger] cs[i]).method, cs[i].path) == Some(
            cs[i].result,
        )
}

/// What registration does to the method tables: parse, then insert into
/// the method's table, creating the method on first use; errors leave the
/// tables unchanged.
pub open spec fn add_model(
    ms: Seq<MethodModel>,
    m: Seq<char>,
    pat: Seq<char>,
    h: Seq<char>,
) -> Result<Seq<MethodModel>, RouteError> {
    match parse_model(pat) {
        Option::None => Err(RouteError::InvalidPattern),
        Option::Some(segs) => {
            let i = find_method_idx(ms, m);
            if !(0 <= i < ms.len()) {
                Ok(ms.push(MethodModel { name: m, routes: seq![RouteModel { segs, handler: h }] }))
            } else {
                match insert_model(ms[i].routes, segs, h) {
                    Ok(nr) => Ok(ms.update(i, MethodModel { name: m, routes: nr })),
                    Err(e) => Err(e),
                }
            }
        },
    }
}

/// What matching does to the cache: nothing on a hit or a failed match;
/// otherwise the fresh result is appended while room remains.
pub open spec fn store_model(r: Router, m: Seq<char>, p: Seq<char>) -> Seq<CacheEntryModel> {
    let cs = cache_model(r.cache@);
    let ms = methods_model(r.methods@);
    let k = cache_key_of(m, p);
    match find_cache(cs, k) {
        Option::Some(_) => cs,
        Option::None => match route_lookup(ms, m, p) {
            Option::None => cs,
            Option::Some(res) => if cs.len() < r.max_cache_size {
                cs.push(CacheEntryModel { key: k, method: m, path: p, result: res })
            } else {
                cs
            },
        },
    }
}

/// `b` is `a` with the cache emptied and everything else kept.
pub open spec fn clears_to(a: Router, b: Router) -> bool {
    &&& b.methods@ == a.methods@
    &&& b.cache@.len() == 0
    &&& b.max_cache_size == a.max_cache_size
}

fn cache_scan(cache: &Vec<CacheEntry>, key: &str) -> (r: Option<usize>)
    ensures
        match r {
            Some(i) => i < cache@.len() && find_cache_idx(cache_model(cache@), key@) == i as int,
            None => find_cache_idx(cache_model(cache@), key@) == cache_model(cache@).len(),
        },
{
    let ghost cs = cache_model(cache@);
    let len = cache.len();
    let mut i: usize = 0;
    while i < len
        invariant
            0 <= i <= len,
            len == cache@.len(),
            cs == cache_model(cache@),
            forall|k: int| 0 <= k < i ==> (#[trigger] cs[k].key) != key@,
        decreases len - i,
    {
        proof {
            assert(cs[i as int] == cache_entry_model(cache@[i as int]));
        }
        if str_eq(cache[i].key.as_str(), key) {
            proof {
                lemma_find_cache_idx_unique(cs, key@, i as int);
            }
            return Some(i);
        }
        i = i + 1;
    }
    proof {
        lemma_find_cache_idx_unique(cs, key@, len as int);
    }
    None
}

fn method_scan(methods: &Vec<MethodEntry>, m: &str) -> (r: Option<usize>)
    ensures
        match r {
            Some(i) => i < methods@.len() && find_method_idx(methods_model(methods@), m@)
                == i as int,
            None => find_method_idx(methods_model(methods@), m@) == methods_model(methods@).len(),
        },
{
    let ghost ms = methods_model(methods@);
    let len = methods.len();
    let mut i: usize = 0;
    while i < len
        invariant
            0 <= i <= len,
            len == methods@.len(),
            ms == methods_model(methods@),
            forall|k: int| 0 <= k < i ==> (#[trigger] ms[k].name) != m@,
        decreases len - i,
    {
        proof {
            assert(ms[i as int] == method_entry_model(methods@[i as int]));
        }
        if str_eq(methods[i].name.as_str(), m) {
            proof {
                lemma_find_method_idx_unique(ms, m@, i as int);
            }
            return Some(i);
        }
        i = i + 1;
    }
    proof {
        lemma_find_method_idx_unique(ms, m@, len as int);
    }
    None
}

fn duplicate_pairs(v: &Vec<(String, String)>) -> (r: Vec<(String, String)>)
    ensures
        pairs_model(r@) == pairs_model(v@),
{
    let mut out: Vec<(String, String)> = Vec::new();
    let len = v.len();
    let mut i: usize = 0;
    while i < len
        invariant
            0 <= i <= len,
            len == v@.len(),
            out@.len() == i,
            forall|k: int|
                0 <= k < i ==> (#[trigger] out@[k]).0@ == v@[k].0@ && out@[k].1@ == v@[k].1@,
        decreases len - i,
    {
        out.push((v[i].0.clone(), v[i].1.clone()));
        i = i + 1;
    }
    proof {
        assert(pairs_model(out@) =~= pairs_model(v@));
    }
    out
}

/// A deep copy of a match result, equal in model.
pub fn duplicate_match(m: &MatchResult) -> (r: MatchResult)
    ensures
        match_result_model(r) == match_result_model(*m),
{
    MatchResult { handler: m.handler.clone(), params: duplicate_pairs(&m.params) }
}

/// When every name of `ms1` stands unchanged in `ms2`, a method found in
/// `ms1` is found at the same index in `ms2`.
proof fn lemma_find_method_preserved(ms1: Seq<MethodModel>, ms2: Seq<MethodModel>, m: Seq<char>)
    requires
        find_method(ms1, m) is Some,
        ms1.len() <= ms2.len(),
        forall|k: int| 0 <= k < ms1.len() ==> (#[trigger] ms2[k].name) == ms1[k].name,
    ensures
        find_method_idx(ms2, m) == find_method_idx(ms1, m),
        find_method(ms2, m) is Some,
{
    lemma_find_method_idx(ms1, m);
    let i = find_method_idx(ms1, m);
    lemma_find_method_idx_unique(ms2, m, i);
}

impl Router {
    /// A fresh router: no routes, an empty cache, the default capacity.
    pub fn new() -> (r: Router)
        ensures
            router_wf(r),
            cache_consistent(r),
            r.methods@.len() == 0,
            r.cache@.len() == 0,
            r.max_cache_size == CACHE_CAPACITY,
    {
        Router { methods: Vec::new(), cache: Vec::new(), max_cache_size: CACHE_CAPACITY }
    }

    /// Register one route. The pattern must parse and must not collide
    /// with a same-shaped pattern already registered for the method; the
    /// registry is untouched on failure, and the cache never changes.
    pub fn add_route(&mut self, method: &str, pattern: &str, handler: &str) -> (r: Result<
        (),
        RouteError,
    >)
        requires
            router_wf(*old(self)),
        ensures
            router_wf(*final(self)),
            final(self).cache@ == old(self).cache@,
            final(self).max_cache_size == old(self).max_cache_size,
            match r {
                Ok(_) => add_model(methods_model(old(self).methods@), method@, pattern@, handler@)
                    == Ok::<_, RouteError>(methods_model(final(self).methods@)),
                Err(e) => add_model(methods_model(old(self).methods@), method@, pattern@, handler@)
                    == Err::<Seq<MethodModel>, _>(e) && methods_model(final(self).methods@)
                    == methods_model(old(self).methods@),
            },
    {
        let ghost ms = methods_model(self.methods@);
        let ghost cs = cache_model(self.cache@);
        let segs = match parse_pattern(pattern) {
            Ok(s) => s,
            Err(e) => {
                return Err(e);
            },
        };
        let ghost sm = segs_model(segs@);
        match method_scan(&self.methods, method) {
            None => {
                proof {
                    lemma_find_method_idx(ms, method@);
                }
                let mut table: Vec<Route> = Vec::new();
                table.push(Route { pattern: segs, handler: handler.to_owned() });
                proof {
                    assert(routes_model(table@) =~= seq![RouteModel { segs: sm, handler: handler@ }]);
                }
                let ghost nm = MethodModel {
                    name: method@,
                    routes: seq![RouteModel { segs: sm, handler: handler@ }],
                };
                self.methods.push(MethodEntry { name: method.to_owned(), table });
                proof {
                    let nms = methods_model(self.methods@);
                    assert(nms =~= ms.push(nm));
                    assert(add_model(ms, method@, pattern@, handler@) == Ok::<_, RouteError>(nms));
                    assert forall|a: int, b: int|
                        0 <= a < nms.len() && 0 <= b < nms.len() && a != b implies (
                    #[trigger] nms[a].name) != (#[trigger] nms[b].name) by {
                        if a < ms.len() && b < ms.len() {
                            assert(ms[a].name != ms[b].name);
                        } else if a < ms.len() {
                            assert(ms[a].name != method@);
                        } else {
                            assert(ms[b].name != method@);
                        }
                    }
                    assert forall|a: int| 0 <= a < nms.len() implies table_wf(
                        #[trigger] nms[a].routes,
                    ) by {
                        if a < ms.len() {
                            assert(table_wf(ms[a].routes));
                        }
                    }
                    assert forall|a: int| 0 <= a < cs.len() implies find_method(
                        nms,
                        (#[trigger] cs[a]).method,
                    ) is Some by {
                        lemma_find_method_preserved(ms, nms, cs[a].method);
                    }
                    assert(cache_model(self.cache@) == cs);
                }
                Ok(())
            },
            Some(i) => {
                proof {
                    assert(ms[i as int] == method_entry_model(self.methods@[i as int]));
                    lemma_find_method_idx(ms, method@);
                }
                let res = table_insert(&mut self.methods[i].table, segs, handler.to_owned());
                proof {
                    let nms = methods_model(self.methods@);
                    assert forall|k: int| 0 <= k < nms.len() implies (#[trigger] nms[k].name)
                        == ms[k].name && (k != i as int ==> nms[k] == ms[k]) by {
                        assert(nms[k] == method_entry_model(self.methods@[k]));
                        if k != i as int {
                            assert(self.methods@[k] == old(self).methods@[k]);
                        }
                    }
                }
                match res {
                    Ok(_) => {
                        proof {
                            let nms = methods_model(self.methods@);
                            assert(nms[i as int].routes == routes_model(
                                self.methods@[i as int].table@,
                            ));
                            assert(nms =~= ms.update(
                                i as int,
                                MethodModel { name: method@, routes: nms[i as int].routes },
                            ));
                            assert(add_model(ms, method@, pattern@, handler@) == Ok::<
                                _,
                                RouteError,
                            >(nms));
                            assert forall|a: int, b: int|
                                0 <= a < nms.len() && 0 <= b < nms.len() && a != b implies (
                            #[trigger] nms[a].name) != (#[trigger] nms[b].name) by {
                                assert(ms[a].name != ms[b].name);
                            }
                            assert forall|a: int| 0 <= a < nms.len() implies table_wf(
                                #[trigger] nms[a].routes,
                            ) by {
                                if a != i as int {
                                    assert(table_wf(ms[a].routes));
                                }
                            }
                            assert forall|a: int| 0 <= a < cs.len() implies find_method(
                                nms,
                                (#[trigger] cs[a]).method,
                            ) is Some by {
                                lemma_find_method_preserved(ms, nms, cs[a].method);
                            }
                            assert(cache_model(self.cache@) == cs);
                        }
                        Ok(())
                    },
                    Err(e) => {
                        proof {
                            let nms = methods_model(self.methods@);
                            assert(nms[i as int].routes == routes_model(
                                self.methods@[i as int].table@,
                            ));
                            assert(nms =~= ms);
                        }
                        Err(e)
                    },
                }
            },
        }
    }

    /// Resolve a request: the memoized result when the composite key is
    /// cached, live matching otherwise; a fresh result is memoized while
    /// the cache has room. The registry never changes.
    pub fn match_route(&mut self, method: &str, path: &str) -> (r: Option<MatchResult>)
        requires
            router_wf(*old(self)),
        ensures
            router_wf(*final(self)),
            final(self).methods@ == old(self).methods@,
            final(self).max_cache_size == old(self).max_cache_size,
            cache_model(final(self).cache@) == store_model(*old(self), method@, path@),
            match r {
                Some(m) => lookup_model(*old(self), method@, path@) == Some(match_result_model(m)),
                None => lookup_model(*old(self), method@, path@) is None,
            },
            cache_consistent(*old(self)) ==> cache_consistent(*final(self)),
    {
        let ghost cs = cache_model(self.cache@);
        let ghost ms = methods_model(self.methods@);
        let key = method.to_owned().concat(":").concat(path);
        proof {
            reveal_strlit(":");
            assert(key@ =~= cache_key_of(method@, path@));
        }
        match cache_scan(&self.cache, key.as_str()) {
            Some(i) => {
                proof {
                    assert(cs[i as int] == cache_entry_model(self.cache@[i as int]));
                }
                let r = duplicate_match(&self.cache[i].result);
                Some(r)
            },
            None => {
                proof {
                    lemma_find_cache_idx(cs, key@);
                }
                match method_scan(&self.methods, method) {
                    None => { None },
                    Some(mi) => {
                        proof {
                            assert(ms[mi as int] == method_entry_model(self.methods@[mi as int]));
                        }
                        let segs = split_path(path);
                        let res = table_find(&self.methods[mi].table, &segs);
                        match res {
                            None => { None },
                            Some(m) => {
                                let ghost nme = CacheEntryModel {
                                    key: cache_key_of(method@, path@),
                                    method: method@,
                                    path: path@,
                                    result: match_result_model(m),
                                };
                                if self.cache.len() < self.max_cache_size {
                                    let dup = duplicate_match(&m);
                                    let entry = CacheEntry {
                                        key,
                                        method: method.to_owned(),
                                        path: path.to_owned(),
                                        result: dup,
                                    };
                                    self.cache.push(entry);
                                    proof {
                                        let ncs = cache_model(self.cache@);
                                        assert(ncs =~= cs.push(nme));
                                        assert forall|a: int, b: int|
                                            0 <= a < ncs.len() && 0 <= b < ncs.len() && a
                                                != b implies (#[trigger] ncs[a].key) != (
                                        #[trigger] ncs[b].key) by {
                                            if a < cs.len() && b < cs.len() {
                                                assert(cs[a].key != cs[b].key);
                                            } else if a < cs.len() {
                                                assert(cs[a].key != key@);
                                            } else if b < cs.len() {
                                                assert(cs[b].key != key@);
                                            }
                                        }
                                        assert forall|a: int| 0 <= a < ncs.len() implies (
                                        #[trigger] ncs[a].key) == cache_key_of(
                                            ncs[a].method,
                                            ncs[a].path,
                                        ) by {
                                            if a < cs.len() {
                                                assert(cs[a].key == cache_key_of(
                                                    cs[a].method,
                                                    cs[a].path,
                                                ));
                                            }
                                        }
                                        assert forall|a: int| 0 <= a < ncs.len() implies
                                            find_method(ms, (#[trigger] ncs[a]).method)
                                                is Some by {
                                            if a < cs.len() {
                                                assert(find_method(ms, cs[a].method) is Some);
                                            }
                                        }
                                        assert(route_lookup(ms, method@, path@) == Some(
                                            match_result_model(m),
                                        ));
                                        assert forall|a: int|
                                            cache_consistent(*old(self)) && 0 <= a
                                                < ncs.len() implies route_lookup(
                                            ms,
                                            (#[trigger] ncs[a]).method,
                                            ncs[a].path,
                                        ) == Some(ncs[a].result) by {
                                            if a < cs.len() {
                                                assert(route_lookup(ms, cs[a].method, cs[a].path)
                                                    == Some(cs[a].result));
                                            }
                                        }
                                    }
                                }
                                Some(m)
                            },
                        }
                    },
                }
            },
        }
    }

    /// Statistics. `route_count` reproduces the approximation of counting
    /// methods that own a table rather than individual routes, so it always
    /// equals `method_count`; callers must not rely on it as an exact route
    /// count.
    pub fn get_stats(&self) -> (r: RouterStats)
        requires
            router_wf(*self),
        ensures
            r.method_count == self.methods@.len(),
            r.route_count == self.methods@.len(),
            r.cache_size == self.cache@.len(),
            r.cache_capacity == self.max_cache_size,
            r.cache_size <= r.cache_capacity,
    {
        let n = self.methods.len();
        RouterStats {
            method_count: n,
            route_count: n,
            cache_size: self.cache.len(),
            cache_capacity: self.max_cache_size,
        }
    }

    /// Remove every memoized entry; routes and capacity stand.
    pub fn clear_cache(&mut self)
        requires
            router_wf(*old(self)),
        ensures
            router_wf(*final(self)),
            clears_to(*old(self), *final(self)),
            cache_consistent(*final(self)),
    {
        self.cache = Vec::new();
    }
}

/// The counters reported by `get_stats`.
pub struct RouterStats {
    pub method_count: usize,
    pub route_count: usize,
    pub cache_size: usize,
    pub cache_capacity: usize,
}

/// No `:` occurs in the text.
pub open spec fn colon_free(s: Seq<char>) -> bool {
    forall|i: int| 0 <= i < s.len() ==> s[i] != ':'
}

/// Composite keys of colon-free methods decompose uniquely.
proof fn lemma_key_decompose(m1: Seq<char>, p1: Seq<char>, m2: Seq<char>, p2: Seq<char>)
    requires
        colon_free(m1),
        colon_free(m2),
        cache_key_of(m1, p1) == cache_key_of(m2, p2),
    ensures
        m1 == m2,
        p1 == p2,
{
    let k = cache_key_of(m1, p1);
    assert(k.len() == m1.len() + 1 + p1.len());
    assert(k.len() == m2.len() + 1 + p2.len());
    assert(k[m1.len() as int] == ':');
    assert(k[m2.len() as int] == ':');
    if m1.len() < m2.len() {
        assert(k[m1.len() as int] == m2[m1.len() as int]);
        assert(false);
    }
    if m2.len() < m1.len() {
        assert(k[m2.len() as int] == m1[m2.len() as int]);
        assert(false);
    }
    assert forall|i: int| 0 <= i < m1.len() implies m1[i] == m2[i] by {
        assert(k[i] == m1[i]);
        assert(k[i] == m2[i]);
    }
    assert(m1 =~= m2);
    assert forall|i: int| 0 <= i < p1.len() implies p1[i] == p2[i] by {
        assert(k[m1.len() + 1 + i] == p1[i]);
        assert(k[m2.len() + 1 + i] == p2[i]);
    }
    assert(p1 =~= p2);
}

/// Clearing the cache twice in a row leaves the very state that clearing
/// it once left: routes, cache and capacity all agree.
pub proof fn lemma_clear_cache_idempotent(a: Router, b: Router, c: Router)
    requires
        clears_to(a, b),
        clears_to(b, c),
    ensures
        clears_to(a, c),
        c.methods@ == b.methods@,
        c.cache@ == b.cache@,
        c.max_cache_size == b.max_cache_size,
{
    assert(b.cache@ =~= c.cache@);
}

/// However many distinct requests have been memoized, the cache never
/// holds more than its capacity.
pub proof fn lemma_cache_capacity_bound(r: Router)
    requires
        router_wf(r),
    ensures
        r.cache@.len() <= CACHE_CAPACITY,
{
}

/// Cache transparency: when every memoized result agrees with live
/// matching and methods carry no `:`, a lookup through the cache yields
/// exactly what the same lookup yields right after clearing the cache.
/// A method containing `:` can collide with another request's composite
/// key, so such methods are left out.
pub proof fn lemma_cache_transparency(r: Router, cleared: Router, m: Seq<char>, p: Seq<char>)
    requires
        router_wf(r),
        cache_consistent(r),
        clears_to(r, cleared),
        colon_free(m),
        forall|i: int|
            0 <= i < cache_model(r.cache@).len() ==> colon_free(
                (#[trigger] cache_model(r.cache@)[i]).method,
            ),
    ensures
        lookup_model(r, m, p) == lookup_model(cleared, m, p),
        lookup_model(r, m, p) == route_lookup(methods_model(r.methods@), m, p),
{
    let cs = cache_model(r.cache@);
    let ms = methods_model(r.methods@);
    let k = cache_key_of(m, p);
    assert(cache_model(cleared.cache@).len() == 0);
    assert(methods_model(cleared.methods@) == ms);
    lemma_find_cache_idx(cs, k);
    let i = find_cache_idx(cs, k);
    if 0 <= i < cs.len() {
        assert(cs[i].key == cache_key_of(cs[i].method, cs[i].path));
        lemma_key_decompose(cs[i].method, cs[i].path, m, p);
        assert(route_lookup(ms, cs[i].method, cs[i].path) == Some(cs[i].result));
    }
}

/// A request for a method with no registered routes resolves to nothing:
/// no stale memoized entry can answer for it, because every memoized
/// method is registered.
pub proof fn lemma_unregistered_method_not_found(r: Router, m: Seq<char>, p: Seq<char>)
    requires
        router_wf(r),
        find_method(methods_model(r.methods@), m) is None,
        colon_free(m),
        forall|i: int|
            0 <= i < cache_model(r.cache@).len() ==> colon_free(
                (#[trigger] cache_model(r.cache@)[i]).method,
            ),
    ensures
        lookup_model(r, m, p) is None,
{
    let cs = cache_model(r.cache@);
    let ms = methods_model(r.methods@);
    let k = cache_key_of(m, p);
    lemma_find_cache_idx(cs, k);
    let i = find_cache_idx(cs, k);
    if 0 <= i < cs.len() {
        assert(cs[i].key == cache_key_of(cs[i].method, cs[i].path));
        lemma_key_decompose(cs[i].method, cs[i].path, m, p);
        assert(find_method(ms, cs[i].method) is Some);
        assert(false);
    }
}

/// The matching guarantee of registration, at the router: when the route
/// at index `j` of method `m`'s table accepts the path and takes
/// precedence over every other accepting route of that table, live
/// matching resolves the request to `j`'s handler, with the parameter
/// pairs its pattern captures.
pub proof fn lemma_registered_route_resolves(ms: Seq<MethodModel>, m: Seq<char>, p: Seq<char>, j: int)
    requires
        find_method(ms, m) is Some,
        ({
            let t = find_method(ms, m)->Some_0;
            &&& 0 <= j < t.len()
            &&& crate::pattern::seg_match(t[j].segs, split_slash(p)) is Some
            &&& forall|k: int|
                0 <= k < t.len() && k != j && crate::pattern::seg_match(
                    (#[trigger] t[k]).segs,
                    split_slash(p),
                ) is Some ==> crate::pattern::more_specific(t[j].segs, t[k].segs)
        }),
    ensures
        ({
            let t = find_method(ms, m)->Some_0;
            route_lookup(ms, m, p) == Some(
                MatchModel {
                    handler: t[j].handler,
                    params: crate::pattern::seg_match(t[j].segs, split_slash(p))->Some_0,
                },
            )
        }),
{
    let t = find_method(ms, m)->Some_0;
    crate::table::lemma_registered_route_wins(t, split_slash(p), j);
}

} // verus!
