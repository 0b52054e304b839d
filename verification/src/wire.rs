//! The wire format of result payloads: JSON texts for a match outcome, for
//! the statistics counters and for a batch report, with the escaping of
//! string content, all pinned down character by character.
use vstd::prelude::*;

use crate::router::RouterStats;
use crate::table::{MatchModel, MatchResult};

verus! {

/// The decimal digit `d`.
pub open spec fn digit_char(d: int) -> char {
    if d == 0 {
        '0'
    } else if d == 1 {
        '1'
    } else if d == 2 {
        '2'
    } else if d == 3 {
        '3'
    } else if d == 4 {
        '4'
    } else if d == 5 {
        '5'
    } else if d == 6 {
        '6'
    } else if d == 7 {
        '7'
    } else if d == 8 {
        '8'
    } else {
        '9'
    }
}

/// The decimal digits of `n`, most significant first.
pub open spec fn dec_digits(n: int) -> Seq<char>
    decreases n,
{
    if n < 10 {
        seq![digit_char(n)]
    } else {
        dec_digits(n / 10) + seq![digit_char(n % 10)]
    }
}

/// The hexadecimal digit `d`, lower case.
pub open spec fn hex_char(d: int) -> char {
    if d < 10 {
        digit_char(d)
    } else if d == 10 {
        'a'
    } else if d == 11 {
        'b'
    } else if d == 12 {
        'c'
    } else if d == 13 {
        'd'
    } else if d == 14 {
        'e'
    } else {
        'f'
    }
}

/// How one character stands inside a JSON string: quotes and backslashes
/// escaped, control characters as `\u00XX`, everything else verbatim.
pub open spec fn escape_char(c: char) -> Seq<char> {
    if c == '"' {
        seq!['\\', '"']
    } else if c == '\\' {
        seq!['\\', '\\']
    } else if (c as u32) < 32 {
        seq!['\\', 'u', '0', '0', hex_char(((c as u32) as int) / 16), hex_char(((c as u32) as int) % 16)]
    } else {
        seq![c]
    }
}

pub open spec fn escaped(s: Seq<char>) -> Seq<char>
    decreases s.len(),
{
    if s.len() == 0 {
        Seq::empty()
    } else {
        escape_char(s[0]) + escaped(s.skip(1))
    }
}

/// A JSON string: quote, escaped content, quote.
pub open spec fn quoted(s: Seq<char>) -> Seq<char> {
    seq!['"'] + escaped(s) + seq!['"']
}

pub proof fn lemma_escaped_push(s: Seq<char>, c: char)
    ensures
        escaped(s.push(c)) == escaped(s) + escape_char(c),
    decreases s.len(),
{
    if s.len() == 0 {
        assert(s.push(c)[0] == c);
        assert(s.push(c).skip(1) =~= Seq::<char>::empty());
        assert(escaped(Seq::<char>::empty()) == Seq::<char>::empty());
        assert(escaped(s.push(c)) =~= escape_char(c));
        assert(escaped(s) + escape_char(c) =~= escape_char(c));
    } else {
        lemma_escaped_push(s.skip(1), c);
        assert(s.push(c).skip(1) =~= s.skip(1).push(c));
        assert(s.push(c)[0] == s[0]);
        assert(escaped(s.push(c)) =~= escape_char(s[0]) + (escaped(s.skip(1)) + escape_char(c)));
        assert(escaped(s) + escape_char(c) =~= escape_char(s[0]) + (escaped(s.skip(1))
            + escape_char(c)));
    }
}

/// One `"name":"value"` member of the params object.
pub open spec fn param_item(kv: (Seq<char>, Seq<char>)) -> Seq<char> {
    quoted(kv.0) + seq![':'] + quoted(kv.1)
}

/// The members of the params object, comma separated, in declaration
/// order.
pub open spec fn param_items(ps: Seq<(Seq<char>, Seq<char>)>) -> Seq<char>
    decreases ps.len(),
{
    if ps.len() == 0 {
        Seq::empty()
    } else if ps.len() == 1 {
        param_item(ps[0])
    } else {
        param_item(ps[0]) + seq![','] + param_items(ps.skip(1))
    }
}

pub proof fn lemma_param_items_push(ps: Seq<(Seq<char>, Seq<char>)>, kv: (Seq<char>, Seq<char>))
    ensures
        param_items(ps.push(kv)) == if ps.len() == 0 {
            param_item(kv)
        } else {
            param_items(ps) + seq![','] + param_item(kv)
        },
    decreases ps.len(),
{
    if ps.len() == 0 {
        assert(ps.push(kv)[0] == kv);
        assert(param_items(ps.push(kv)) =~= param_item(kv));
    } else if ps.len() == 1 {
        assert(ps.push(kv).skip(1) =~= seq![kv]);
        assert(ps.push(kv)[0] == ps[0]);
        assert(param_items(seq![kv]) == param_item(kv));
        assert(param_items(ps.push(kv)) =~= param_item(ps[0]) + seq![','] + param_item(kv));
        assert(param_items(ps) =~= param_item(ps[0]));
    } else {
        lemma_param_items_push(ps.skip(1), kv);
        assert(ps.push(kv).skip(1) =~= ps.skip(1).push(kv));
        assert(ps.push(kv)[0] == ps[0]);
        assert(param_items(ps.push(kv)) =~= param_item(ps[0]) + seq![','] + (param_items(
            ps.skip(1),
        ) + seq![','] + param_item(kv)));
        assert(param_items(ps) + seq![','] + param_item(kv) =~= param_item(ps[0]) + seq![','] + (
        param_items(ps.skip(1)) + seq![','] + param_item(kv)));
    }
}

/// The payload of a successful match: handler and params object.
pub open spec fn match_payload(m: MatchModel) -> Seq<char> {
    seq!['{', '"', 'h', 'a', 'n', 'd', 'l', 'e', 'r', '"', ':'] + quoted(m.handler) + seq![
        ',',
        '"',
        'p',
        'a',
        'r',
        'a',
        'm',
        's',
        '"',
        ':',
        '{',
    ] + param_items(m.params) + seq!['}', '}']
}

/// The payload of the statistics report.
pub open spec fn stats_payload(mc: int, rc: int, cs: int, cc: int) -> Seq<char> {
    seq!['{', '"', 'm', 'e', 't', 'h', 'o', 'd', '_', 'c', 'o', 'u', 'n', 't', '"', ':']
        + dec_digits(mc) + seq![',', '"', 'r', 'o', 'u', 't', 'e', '_', 'c', 'o', 'u', 'n', 't', '"', ':']
        + dec_digits(rc) + seq![',', '"', 'c', 'a', 'c', 'h', 'e', '_', 's', 'i', 'z', 'e', '"', ':']
        + dec_digits(cs) + seq![
        ',',
        '"',
        'c',
        'a',
        'c',
        'h',
        'e',
        '_',
        'c',
        'a',
        'p',
        'a',
        'c',
        'i',
        't',
        'y',
        '"',
        ':',
    ] + dec_digits(cc) + seq!['}']
}

/// The payload of a batch report: how many entries were added of how many.
pub open spec fn batch_payload(added: int, total: int) -> Seq<char> {
    seq!['{', '"', 'a', 'd', 'd', 'e', 'd', '"', ':'] + dec_digits(added) + seq![
        ',',
        '"',
        't',
        'o',
        't',
        'a',
        'l',
        '"',
        ':',
    ] + dec_digits(total) + seq!['}']
}

fn append_digit(d: usize, out: &mut String)
    requires
        d < 10,
    ensures
        final(out)@ == old(out)@ + seq![digit_char(d as int)],
{
    proof {
        reveal_strlit("0");
        reveal_strlit("1");
        reveal_strlit("2");
        reveal_strlit("3");
        reveal_strlit("4");
        reveal_strlit("5");
        reveal_strlit("6");
        reveal_strlit("7");
        reveal_strlit("8");
        reveal_strlit("9");
    }
    match d {
        0 => out.append("0"),
        1 => out.append("1"),
        2 => out.append("2"),
        3 => out.append("3"),
        4 => out.append("4"),
        5 => out.append("5"),
        6 => out.append("6"),
        7 => out.append("7"),
        8 => out.append("8"),
        _ => out.append("9"),
    }
}

/// Append the decimal form of `n`.
fn append_dec(n: usize, out: &mut String)
    ensures
        final(out)@ == old(out)@ + dec_digits(n as int),
    decreases n,
{
    if n >= 10 {
        proof {
            assert(n / 10 < n) by (nonlinear_arith)
                requires
                    n >= 10,
            ;
        }
        append_dec(n / 10, out);
        append_digit(n % 10, out);
    } else {
        append_digit(n, out);
    }
}

fn append_hex_digit(d: u32, out: &mut String)
    requires
        d < 16,
    ensures
        final(out)@ == old(out)@ + seq![hex_char(d as int)],
{
    if d < 10 {
        append_digit(d as usize, out);
    } else {
        proof {
            reveal_strlit("a");
            reveal_strlit("b");
            reveal_strlit("c");
            reveal_strlit("d");
            reveal_strlit("e");
            reveal_strlit("f");
        }
        match d {
            10 => out.append("a"),
            11 => out.append("b"),
            12 => out.append("c"),
            13 => out.append("d"),
            14 => out.append("e"),
            _ => out.append("f"),
        }
    }
}

/// Append `s` with JSON string escaping.
fn append_escaped(s: &str, out: &mut String)
    ensures
        final(out)@ == old(out)@ + escaped(s@),
{
    let len = s.unicode_len();
    let mut i: usize = 0;
    proof {
        assert(s@.take(0) =~= Seq::<char>::empty());
        assert(escaped(s@.take(0)) =~= Seq::<char>::empty());
    }
    while i < len
        invariant
            0 <= i <= len,
            len == s@.len(),
            out@ == old(out)@ + escaped(s@.take(i as int)),
        decreases len - i,
    {
        let c = s.get_char(i);
        let v = c as u32;
        if c == '"' {
            proof {
                reveal_strlit("\\\"");
            }
            out.append("\\\"");
        } else if c == '\\' {
            proof {
                reveal_strlit("\\\\");
            }
            out.append("\\\\");
        } else if v < 32 {
            proof {
                reveal_strlit("\\u00");
            }
            out.append("\\u00");
            append_hex_digit(v / 16, out);
            append_hex_digit(v % 16, out);
        } else {
            let piece = s.substring_char(i, i + 1);
            proof {
                assert(piece@ =~= seq![c]);
            }
            out.append(piece);
        }
        proof {
            lemma_escaped_push(s@.take(i as int), c);
            assert(s@.take(i + 1) =~= s@.take(i as int).push(c));
            assert(out@ =~= old(out)@ + escaped(s@.take(i + 1)));
        }
        i = i + 1;
    }
    proof {
        assert(s@.take(len as int) =~= s@);
    }
}

/// Append `s` as a JSON string, quotes and all.
fn append_quoted(s: &str, out: &mut String)
    ensures
        final(out)@ == old(out)@ + quoted(s@),
{
    proof {
        reveal_strlit("\"");
    }
    out.append("\"");
    append_escaped(s, out);
    out.append("\"");
    proof {
        assert(out@ =~= old(out)@ + quoted(s@));
    }
}

/// Encode a match outcome as its JSON payload.
pub fn encode_match(m: &MatchResult) -> (r: String)
    ensures
        r@ == match_payload(crate::table::match_result_model(*m)),
{
    let ghost pm = crate::pattern::pairs_model(m.params@);
    let mut out = String::new();
    proof {
        reveal_strlit("{\"handler\":");
        reveal_strlit(",\"params\":{");
        reveal_strlit("}}");
        reveal_strlit(",");
        reveal_strlit(":");
    }
    out.append("{\"handler\":");
    proof {
        assert("{\"handler\":"@ =~= seq!['{', '"', 'h', 'a', 'n', 'd', 'l', 'e', 'r', '"', ':']);
    }
    append_quoted(m.handler.as_str(), &mut out);
    out.append(",\"params\":{");
    proof {
        assert(",\"params\":{"@ =~= seq![',', '"', 'p', 'a', 'r', 'a', 'm', 's', '"', ':', '{']);
    }
    let ghost mid = out@;
    let len = m.params.len();
    let mut i: usize = 0;
    while i < len
        invariant
            0 <= i <= len,
            len == m.params@.len(),
            pm == crate::pattern::pairs_model(m.params@),
            pm.len() == len,
            out@ == mid + param_items(pm.take(i as int)),
            mid == "{\"handler\":"@ + quoted(m.handler@) + ",\"params\":{"@,
        decreases len - i,
    {
        proof {
            reveal_strlit(",");
            reveal_strlit(":");
            assert(pm[i as int] == (m.params@[i as int].0@, m.params@[i as int].1@));
        }
        if i > 0 {
            out.append(",");
        }
        append_quoted(m.params[i].0.as_str(), &mut out);
        out.append(":");
        append_quoted(m.params[i].1.as_str(), &mut out);
        proof {
            reveal_strlit(",");
            reveal_strlit(":");
            lemma_param_items_push(pm.take(i as int), pm[i as int]);
            assert(pm.take(i + 1) =~= pm.take(i as int).push(pm[i as int]));
            assert(out@ =~= mid + param_items(pm.take(i + 1)));
        }
        i = i + 1;
    }
    out.append("}}");
    proof {
        assert("}}"@ =~= seq!['}', '}']);
        assert(pm.take(len as int) =~= pm);
        assert(out@ =~= match_payload(crate::table::match_result_model(*m)));
    }
    out
}

/// Encode the statistics counters as their JSON payload.
pub fn encode_stats(s: &RouterStats) -> (r: String)
    ensures
        r@ == stats_payload(
            s.method_count as int,
            s.route_count as int,
            s.cache_size as int,
            s.cache_capacity as int,
        ),
{
    let mut out = String::new();
    proof {
        reveal_strlit("{\"method_count\":");
        reveal_strlit(",\"route_count\":");
        reveal_strlit(",\"cache_size\":");
        reveal_strlit(",\"cache_capacity\":");
        reveal_strlit("}");
        assert("{\"method_count\":"@ =~= seq![
            '{', '"', 'm', 'e', 't', 'h', 'o', 'd', '_', 'c', 'o', 'u', 'n', 't', '"', ':',
        ]);
        assert(",\"route_count\":"@ =~= seq![
            ',', '"', 'r', 'o', 'u', 't', 'e', '_', 'c', 'o', 'u', 'n', 't', '"', ':',
        ]);
        assert(",\"cache_size\":"@ =~= seq![
            ',', '"', 'c', 'a', 'c', 'h', 'e', '_', 's', 'i', 'z', 'e', '"', ':',
        ]);
        assert(",\"cache_capacity\":"@ =~= seq![
            ',', '"', 'c', 'a', 'c', 'h', 'e', '_', 'c', 'a', 'p', 'a', 'c', 'i', 't', 'y', '"', ':',
        ]);
        assert("}"@ =~= seq!['}']);
    }
    out.append("{\"method_count\":");
    append_dec(s.method_count, &mut out);
    out.append(",\"route_count\":");
    append_dec(s.route_count, &mut out);
    out.append(",\"cache_size\":");
    append_dec(s.cache_size, &mut out);
    out.append(",\"cache_capacity\":");
    append_dec(s.cache_capacity, &mut out);
    out.append("}");
    proof {
        assert(out@ =~= stats_payload(
            s.method_count as int,
            s.route_count as int,
            s.cache_size as int,
            s.cache_capacity as int,
        ));
    }
    out
}

/// Encode a batch report as its JSON payload.
pub fn encode_batch(added: usize, total: usize) -> (r: String)
    ensures
        r@ == batch_payload(added as int, total as int),
{
    let mut out = String::new();
    proof {
        reveal_strlit("{\"added\":");
        reveal_strlit(",\"total\":");
        reveal_strlit("}");
        assert("{\"added\":"@ =~= seq!['{', '"', 'a', 'd', 'd', 'e', 'd', '"', ':']);
        assert(",\"total\":"@ =~= seq![',', '"', 't', 'o', 't', 'a', 'l', '"', ':']);
        assert("}"@ =~= seq!['}']);
    }
    out.append("{\"added\":");
    append_dec(added, &mut out);
    out.append(",\"total\":");
    append_dec(total, &mut out);
    out.append("}");
    proof {
        assert(out@ =~= batch_payload(added as int, total as int));
    }
    out
}

} // verus!
