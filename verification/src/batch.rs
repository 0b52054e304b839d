//! Batch registration: a JSON array of `{method, path, handler}` objects is
//! decoded by serde_json behind a trusted wrapper; every complete entry is
//! registered independently, a malformed or conflicting entry is skipped,
//! and the report counts how many of the total were added.
use vstd::prelude::*;

use crate::pattern::parse_model;
use crate::router::{add_model, methods_model, router_wf, MethodModel, Router};

verus! {

/// One decoded batch entry; a field is `None` when the object lacks it or
/// holds something other than a string.
pub struct BatchEntry {
    pub method: Option<String>,
    pub path: Option<String>,
    pub handler: Option<String>,
}

pub open spec fn opt_text(o: Option<String>) -> Option<Seq<char>> {
    match o {
        Option::Some(s) => Option::Some(s@),
        Option::None => Option::None,
    }
}

pub open spec fn entry_model(e: BatchEntry) -> (
    Option<Seq<char>>,
    Option<Seq<char>>,
    Option<Seq<char>>,
) {
    (opt_text(e.method), opt_text(e.path), opt_text(e.handler))
}

pub open spec fn entries_model(v: Seq<BatchEntry>) -> Seq<
    (Option<Seq<char>>, Option<Seq<char>>, Option<Seq<char>>),
> {
    v.map_values(|e: BatchEntry| entry_model(e))
}

/// What decoding a batch text yields: `None` when the text is not a JSON
/// array, else one entry per array element, each field the element's
/// string under that name if it has one.
pub uninterp spec fn batch_entries_of(s: Seq<char>) -> Option<
    Seq<(Option<Seq<char>>, Option<Seq<char>>, Option<Seq<char>>)>,
>;

/// Relies on `serde_json::from_str::<Vec<serde_json::Value>>` and on
/// `serde_json::Value::get` / `Value::as_str`: the decoded entries are a
/// function of the input text alone, `None` exactly when the text is not a
/// JSON array; that function is named `batch_entries_of`.
#[verifier::external_body]
fn parse_routes_json(s: &str) -> (r: Option<Vec<BatchEntry>>)
    ensures
        r is Some <==> batch_entries_of(s@) is Some,
        r is Some ==> {
            let es = batch_entries_of(s@)->Some_0;
            r->Some_0@.len() == es.len() && forall|i: int|
                0 <= i < es.len() ==> entry_model(r->Some_0@[i]) == es[i]
        },
{
    let vals: Vec<serde_json::Value> = match serde_json::from_str(s) {
        Ok(v) => v,
        Err(_) => {
            return None;
        },
    };
    Some(
        vals.iter().map(
            |v| BatchEntry {
                method: v.get("method").and_then(|x| x.as_str()).map(|x| x.to_string()),
                path: v.get("path").and_then(|x| x.as_str()).map(|x| x.to_string()),
                handler: v.get("handler").and_then(|x| x.as_str()).map(|x| x.to_string()),
            },
        ).collect(),
    )
}

/// What one batch entry does to the method tables: a complete entry is
/// registered (or refused, leaving them unchanged); an incomplete one is
/// skipped. The flag says whether the entry counted as added.
pub open spec fn batch_step(
    ms: Seq<MethodModel>,
    e: (Option<Seq<char>>, Option<Seq<char>>, Option<Seq<char>>),
) -> (Seq<MethodModel>, bool) {
    match (e.0, e.1, e.2) {
        (Option::Some(m), Option::Some(p), Option::Some(h)) => match add_model(ms, m, p, h) {
            Ok(nms) => (nms, true),
            Err(_) => (ms, false),
        },
        _ => (ms, false),
    }
}

/// The tables and the added count after processing the entries from `i`
/// on, each against the state its predecessors left.
pub open spec fn batch_model(
    ms: Seq<MethodModel>,
    es: Seq<(Option<Seq<char>>, Option<Seq<char>>, Option<Seq<char>>)>,
    i: int,
) -> (Seq<MethodModel>, int)
    decreases es.len() - i,
{
    if i < 0 || i >= es.len() {
        (ms, 0)
    } else {
        let (ms1, ok) = batch_step(ms, es[i]);
        let (ms2, n) = batch_model(ms1, es, i + 1);
        (ms2, n + if ok {
            1int
        } else {
            0int
        })
    }
}

/// Register a batch of decoded entries, each independently; the count of
/// entries that were added comes back. The cache never changes.
pub fn batch_add(r: &mut Router, entries: &Vec<BatchEntry>) -> (added: usize)
    requires
        router_wf(*old(r)),
    ensures
        router_wf(*final(r)),
        final(r).cache@ == old(r).cache@,
        final(r).max_cache_size == old(r).max_cache_size,
        methods_model(final(r).methods@) == batch_model(
            methods_model(old(r).methods@),
            entries_model(entries@),
            0,
        ).0,
        added == batch_model(methods_model(old(r).methods@), entries_model(entries@), 0).1,
        added <= entries@.len(),
{
    let ghost ms0 = methods_model(old(r).methods@);
    let ghost es = entries_model(entries@);
    let len = entries.len();
    let mut added: usize = 0;
    let mut i: usize = 0;
    while i < len
        invariant
            0 <= i <= len,
            len == entries@.len(),
            es == entries_model(entries@),
            es.len() == len,
            added <= i,
            router_wf(*r),
            r.cache@ == old(r).cache@,
            r.max_cache_size == old(r).max_cache_size,
            batch_model(ms0, es, 0).0 == batch_model(methods_model(r.methods@), es, i as int).0,
            batch_model(ms0, es, 0).1 == added + batch_model(
                methods_model(r.methods@),
                es,
                i as int,
            ).1,
        decreases len - i,
    {
        let ghost msc = methods_model(r.methods@);
        proof {
            assert(es[i as int] == entry_model(entries@[i as int]));
        }
        let e = &entries[i];
        let mut ok = false;
        match (&e.method, &e.path, &e.handler) {
            (Some(m), Some(p), Some(h)) => {
                match r.add_route(m.as_str(), p.as_str(), h.as_str()) {
                    Ok(_) => {
                        ok = true;
                    },
                    Err(_) => {},
                }
            },
            _ => {},
        }
        if ok {
            added = added + 1;
        }
        proof {
            let msn = methods_model(r.methods@);
            assert(batch_step(msc, es[i as int]) == (msn, ok));
            assert(batch_model(msc, es, i as int).0 == batch_model(msn, es, i + 1).0);
            assert(batch_model(msc, es, i as int).1 == batch_model(msn, es, i + 1).1 + if ok {
                1int
            } else {
                0int
            });
        }
        i = i + 1;
    }
    added
}

/// Decode a batch text and register its entries: `None` when the text is
/// not a JSON array, else the added count and the total count.
pub fn batch_add_routes(r: &mut Router, data: &str) -> (res: Option<(usize, usize)>)
    requires
        router_wf(*old(r)),
    ensures
        router_wf(*final(r)),
        final(r).cache@ == old(r).cache@,
        final(r).max_cache_size == old(r).max_cache_size,
        match res {
            Some(counts) => batch_entries_of(data@) is Some && {
                let es = batch_entries_of(data@)->Some_0;
                let (nms, n) = batch_model(methods_model(old(r).methods@), es, 0);
                methods_model(final(r).methods@) == nms && counts.0 == n && counts.1 == es.len()
                    && counts.0 <= counts.1
            },
            None => batch_entries_of(data@) is None && methods_model(final(r).methods@)
                == methods_model(old(r).methods@),
        },
{
    match parse_routes_json(data) {
        None => None,
        Some(entries) => {
            proof {
                assert(entries_model(entries@) =~= batch_entries_of(data@)->Some_0);
            }
            let total = entries.len();
            let added = batch_add(r, &entries);
            Some((added, total))
        },
    }
}

/// An entry that is incomplete, or whose pattern does not parse, is
/// rejected on its own terms, whatever the state.
pub open spec fn entry_rejected(
    e: (Option<Seq<char>>, Option<Seq<char>>, Option<Seq<char>>),
) -> bool {
    e.0 is None || e.1 is None || e.2 is None || parse_model(e.1->Some_0) is None
}

/// A rejected entry registers nothing and leaves the tables unchanged, in
/// every state.
pub proof fn lemma_rejected_entry_skipped(
    ms: Seq<MethodModel>,
    e: (Option<Seq<char>>, Option<Seq<char>>, Option<Seq<char>>),
)
    requires
        entry_rejected(e),
    ensures
        batch_step(ms, e) == (ms, false),
{
}

/// The entries from `i` on all register except the one at `j`, step by
/// step against the state the predecessors left.
pub open spec fn all_added_except(
    ms: Seq<MethodModel>,
    es: Seq<(Option<Seq<char>>, Option<Seq<char>>, Option<Seq<char>>)>,
    i: int,
    j: int,
) -> bool
    decreases es.len() - i,
{
    if i < 0 || i >= es.len() {
        true
    } else {
        let (ms1, ok) = batch_step(ms, es[i]);
        (if i == j {
            !ok
        } else {
            ok
        }) && all_added_except(ms1, es, i + 1, j)
    }
}

proof fn lemma_batch_count_from(
    ms: Seq<MethodModel>,
    es: Seq<(Option<Seq<char>>, Option<Seq<char>>, Option<Seq<char>>)>,
    i: int,
    j: int,
)
    requires
        0 <= i <= es.len(),
        all_added_except(ms, es, i, j),
    ensures
        batch_model(ms, es, i).1 == es.len() - i - if i <= j < es.len() {
            1int
        } else {
            0int
        },
    decreases es.len() - i,
{
    if i < es.len() {
        let (ms1, ok) = batch_step(ms, es[i]);
        lemma_batch_count_from(ms1, es, i + 1, j);
    }
}

/// Batch partial success: in a batch where every entry registers except
/// one, the report counts exactly the total less one.
pub proof fn lemma_batch_partial_success(
    ms: Seq<MethodModel>,
    es: Seq<(Option<Seq<char>>, Option<Seq<char>>, Option<Seq<char>>)>,
    j: int,
)
    requires
        0 <= j < es.len(),
        all_added_except(ms, es, 0, j),
    ensures
        batch_model(ms, es, 0).1 == es.len() - 1,
{
    lemma_batch_count_from(ms, es, 0, j);
}

} // verus!
