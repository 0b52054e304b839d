//! The call protocol: every operation answers with an envelope carrying a
//! status code and, on success only, a payload. Negative codes tell an
//! absent argument, text that is not valid, a refused registration, an
//! undecodable batch, or — as `-404` — a request that matched no route.
use vstd::prelude::*;

use crate::batch::{batch_add_routes, batch_entries_of, batch_model, entries_model};
use crate::router::{
    add_model, cache_model, clears_to, lookup_model, methods_model, router_wf, store_model,
    Router, CACHE_CAPACITY,
};
use crate::wire::{batch_payload, encode_batch, encode_match, encode_stats, match_payload,
    stats_payload};

verus! {

/// One argument as it arrives over the boundary: missing, present but not
/// valid text, or text.
pub enum TextInput {
    Absent,
    Invalid,
    Text(String),
}

pub open spec fn is_absent(t: TextInput) -> bool {
    match t {
        TextInput::Absent => true,
        _ => false,
    }
}

pub open spec fn is_invalid(t: TextInput) -> bool {
    match t {
        TextInput::Invalid => true,
        _ => false,
    }
}

pub open spec fn text_of(t: TextInput) -> Seq<char> {
    match t {
        TextInput::Text(s) => s@,
        _ => Seq::empty(),
    }
}

/// The result envelope: a status code, and a payload exactly when the
/// status reports success.
pub struct Envelope {
    pub status: i32,
    pub payload: Option<String>,
}

pub open spec fn envelope_wf(e: Envelope) -> bool {
    (e.status == 0) <==> (e.payload is Some)
}

impl Envelope {
    /// Release the envelope: the payload, if one was allocated, becomes
    /// the caller's. An error envelope holds no payload, so releasing it
    /// hands nothing out and frees nothing.
    pub fn release(self) -> (r: Option<String>)
        ensures
            r == self.payload,
            envelope_wf(self) && self.status != 0 ==> r is None,
    {
        self.payload
    }
}

fn ok_env(payload: String) -> (e: Envelope)
    ensures
        envelope_wf(e),
        e.status == 0,
        e.payload is Some && e.payload->0@ == payload@,
{
    Envelope { status: 0, payload: Some(payload) }
}

fn err_env(code: i32) -> (e: Envelope)
    requires
        code != 0,
    ensures
        envelope_wf(e),
        e.status == code,
        e.payload is None,
{
    Envelope { status: code, payload: None }
}

fn is_absent_exec(t: &TextInput) -> (b: bool)
    ensures
        b == is_absent(*t),
{
    match t {
        TextInput::Absent => true,
        _ => false,
    }
}

/// Start over: the router is replaced by a fresh one; prior routes and
/// memoized results are discarded.
pub fn op_create(r: &mut Router) -> (e: Envelope)
    ensures
        router_wf(*final(r)),
        final(r).methods@.len() == 0,
        final(r).cache@.len() == 0,
        final(r).max_cache_size == CACHE_CAPACITY,
        envelope_wf(e),
        e.status == 0,
        e.payload is Some && e.payload->0@ == "OK"@,
{
    *r = Router::new();
    ok_env("OK".to_owned())
}

/// Register one route. Status `0` on success; `-1` when an argument is
/// absent; `-2`/`-3`/`-4` when the method, path or handler is not text;
/// `-5` when registration is refused. The cache never changes; the tables
/// change exactly on success.
pub fn op_add_route(
    r: &mut Router,
    method: &TextInput,
    path: &TextInput,
    handler: &TextInput,
) -> (e: Envelope)
    requires
        router_wf(*old(r)),
    ensures
        router_wf(*final(r)),
        final(r).cache@ == old(r).cache@,
        final(r).max_cache_size == old(r).max_cache_size,
        envelope_wf(e),
        ({
            let ms = methods_model(old(r).methods@);
            let nms = methods_model(final(r).methods@);
            if is_absent(*method) || is_absent(*path) || is_absent(*handler) {
                e.status == -1 && nms == ms
            } else if is_invalid(*method) {
                e.status == -2 && nms == ms
            } else if is_invalid(*path) {
                e.status == -3 && nms == ms
            } else if is_invalid(*handler) {
                e.status == -4 && nms == ms
            } else {
                match add_model(ms, text_of(*method), text_of(*path), text_of(*handler)) {
                    Ok(m2) => e.status == 0 && nms == m2 && e.payload->0@ == "OK"@,
                    Err(_) => e.status == -5 && nms == ms,
                }
            }
        }),
{
    if is_absent_exec(method) || is_absent_exec(path) || is_absent_exec(handler) {
        return err_env(-1);
    }
    let mtext = match method {
        TextInput::Text(s) => s,
        _ => {
            return err_env(-2);
        },
    };
    let ptext = match path {
        TextInput::Text(s) => s,
        _ => {
            return err_env(-3);
        },
    };
    let htext = match handler {
        TextInput::Text(s) => s,
        _ => {
            return err_env(-4);
        },
    };
    match r.add_route(mtext.as_str(), ptext.as_str(), htext.as_str()) {
        Ok(_) => ok_env("OK".to_owned()),
        Err(_) => err_env(-5),
    }
}

/// Resolve a request. Status `0` with the match payload on success; `-1`
/// when an argument is absent; `-2`/`-3` when the method or path is not
/// text; `-404` when no route matches. The tables never change; the cache
/// is touched only by a well-formed request, as matching prescribes.
pub fn op_match(r: &mut Router, method: &TextInput, path: &TextInput) -> (e: Envelope)
    requires
        router_wf(*old(r)),
    ensures
        router_wf(*final(r)),
        final(r).methods@ == old(r).methods@,
        final(r).max_cache_size == old(r).max_cache_size,
        envelope_wf(e),
        ({
            if is_absent(*method) || is_absent(*path) {
                e.status == -1 && final(r).cache@ == old(r).cache@
            } else if is_invalid(*method) {
                e.status == -2 && final(r).cache@ == old(r).cache@
            } else if is_invalid(*path) {
                e.status == -3 && final(r).cache@ == old(r).cache@
            } else {
                let m = text_of(*method);
                let p = text_of(*path);
                cache_model(final(r).cache@) == store_model(*old(r), m, p) && match lookup_model(
                    *old(r),
                    m,
                    p,
                ) {
                    Option::Some(mm) => e.status == 0 && e.payload->0@ == match_payload(mm),
                    Option::None => e.status == -404 && e.payload is None,
                }
            }
        }),
{
    if is_absent_exec(method) || is_absent_exec(path) {
        return err_env(-1);
    }
    let mtext = match method {
        TextInput::Text(s) => s,
        _ => {
            return err_env(-2);
        },
    };
    let ptext = match path {
        TextInput::Text(s) => s,
        _ => {
            return err_env(-3);
        },
    };
    match r.match_route(mtext.as_str(), ptext.as_str()) {
        Some(res) => ok_env(encode_match(&res)),
        None => err_env(-404),
    }
}

/// Drop every memoized result; routes stand. Always succeeds.
pub fn op_clear_cache(r: &mut Router) -> (e: Envelope)
    requires
        router_wf(*old(r)),
    ensures
        router_wf(*final(r)),
        clears_to(*old(r), *final(r)),
        envelope_wf(e),
        e.status == 0,
        e.payload is Some && e.payload->0@ == "OK"@,
{
    r.clear_cache();
    ok_env("OK".to_owned())
}

/// Report the counters. Always succeeds; the payload is the statistics
/// JSON text.
pub fn op_get_stats(r: &Router) -> (e: Envelope)
    requires
        router_wf(*r),
    ensures
        envelope_wf(e),
        e.status == 0,
        e.payload is Some && e.payload->0@ == stats_payload(
            r.methods@.len() as int,
            r.methods@.len() as int,
            r.cache@.len() as int,
            r.max_cache_size as int,
        ),
{
    let stats = r.get_stats();
    ok_env(encode_stats(&stats))
}

/// Register a batch. Status `0` with the `{added, total}` payload; `-1`
/// when the argument is absent; `-2` when it is not text; `-3` when the
/// text is not a JSON array. The cache never changes.
pub fn op_batch_add_routes(r: &mut Router, data: &TextInput) -> (e: Envelope)
    requires
        router_wf(*old(r)),
    ensures
        router_wf(*final(r)),
        final(r).cache@ == old(r).cache@,
        final(r).max_cache_size == old(r).max_cache_size,
        envelope_wf(e),
        ({
            let ms = methods_model(old(r).methods@);
            let nms = methods_model(final(r).methods@);
            if is_absent(*data) {
                e.status == -1 && nms == ms
            } else if is_invalid(*data) {
                e.status == -2 && nms == ms
            } else {
                match batch_entries_of(text_of(*data)) {
                    Option::None => e.status == -3 && nms == ms,
                    Option::Some(es) => {
                        let (m2, n) = batch_model(ms, es, 0);
                        e.status == 0 && nms == m2 && e.payload->0@ == batch_payload(n, es.len() as int)
                    },
                }
            }
        }),
{
    let dtext = match data {
        TextInput::Absent => {
            return err_env(-1);
        },
        TextInput::Invalid => {
            return err_env(-2);
        },
        TextInput::Text(s) => s,
    };
    match batch_add_routes(r, dtext.as_str()) {
        None => err_env(-3),
        Some(counts) => ok_env(encode_batch(counts.0, counts.1)),
    }
}

} // verus!
