//! Splitting paths and patterns into segments at `/`, and joining segments
//! back, with the sequence-level definitions the contracts use.
use vstd::prelude::*;

verus! {

/// Index of the first `/` in `s`, or `s.len()` if there is none.
pub open spec fn find_slash(s: Seq<char>) -> int
    decreases s.len(),
{
    if s.len() == 0 {
        0
    } else if s[0] == '/' {
        0
    } else {
        1 + find_slash(s.skip(1))
    }
}

pub proof fn lemma_find_slash(s: Seq<char>)
    ensures
        0 <= find_slash(s) <= s.len(),
        forall|k: int| 0 <= k < find_slash(s) ==> s[k] != '/',
        find_slash(s) < s.len() ==> s[find_slash(s)] == '/',
    decreases s.len(),
{
    if s.len() == 0 || s[0] == '/' {
    } else {
        lemma_find_slash(s.skip(1));
        assert forall|k: int| 0 <= k < find_slash(s) implies s[k] != '/' by {
            if k > 0 {
                assert(s.skip(1)[k - 1] != '/');
            }
        }
        if find_slash(s) < s.len() {
            assert(s.skip(1)[find_slash(s) - 1] == '/');
        }
    }
}

/// `find_slash` is pinned down by its characteristic properties.
pub proof fn lemma_find_slash_unique(s: Seq<char>, i: int)
    requires
        0 <= i <= s.len(),
        forall|k: int| 0 <= k < i ==> s[k] != '/',
        i < s.len() ==> s[i] == '/',
    ensures
        find_slash(s) == i,
    decreases s.len(),
{
    lemma_find_slash(s);
    if s.len() == 0 || s[0] == '/' {
    } else {
        lemma_find_slash_unique(s.skip(1), i - 1);
    }
}

/// The segments of `s`: the pieces between `/` characters. An empty string
/// has one (empty) segment; every `/` starts a new segment.
pub open spec fn split_slash(s: Seq<char>) -> Seq<Seq<char>>
    decreases s.len(),
{
    let i = find_slash(s);
    if 0 <= i < s.len() {
        seq![s.take(i)] + split_slash(s.skip(i + 1))
    } else {
        seq![s]
    }
}

/// The segments joined back with `/` separators.
pub open spec fn join_slash(segs: Seq<Seq<char>>) -> Seq<char>
    decreases segs.len(),
{
    if segs.len() == 0 {
        Seq::empty()
    } else if segs.len() == 1 {
        segs[0]
    } else {
        segs[0] + seq!['/'] + join_slash(segs.skip(1))
    }
}

/// First `/` at or after `from`, or the length of `s` if there is none.
fn find_slash_from(s: &str, from: usize) -> (r: usize)
    requires
        from <= s@.len(),
    ensures
        from <= r <= s@.len(),
        forall|k: int| from <= k < r ==> s@[k] != '/',
        r < s@.len() ==> s@[r as int] == '/',
{
    let len = s.unicode_len();
    let mut i = from;
    while i < len
        invariant
            from <= i <= len,
            len == s@.len(),
            forall|k: int| from <= k < i ==> s@[k] != '/',
        decreases len - i,
    {
        if s.get_char(i) == '/' {
            return i;
        }
        i = i + 1;
    }
    i
}

/// The view of each string in a sequence.
pub open spec fn views_of(v: Seq<String>) -> Seq<Seq<char>> {
    v.map_values(|s: String| s@)
}

fn split_push(s: &str, start: usize, out: &mut Vec<String>)
    requires
        start <= s@.len(),
    ensures
        views_of(final(out)@) == views_of(old(out)@) + split_slash(s@.skip(start as int)),
    decreases s@.len() - start,
{
    let ghost t = s@.skip(start as int);
    let len = s.unicode_len();
    let i = find_slash_from(s, start);
    proof {
        assert forall|k: int| 0 <= k < i - start implies t[k] != '/' by {
            assert(s@[start + k] != '/');
        }
        if i < len {
            assert(t[i - start] == '/');
        }
        lemma_find_slash_unique(t, i - start);
    }
    let seg = s.substring_char(start, i).to_owned();
    proof {
        assert(seg@ =~= t.take(i - start));
    }
    out.push(seg);
    if i < len {
        split_push(s, i + 1, out);
        proof {
            assert(s@.skip(i + 1) =~= t.skip(i - start + 1));
            assert(views_of(out@) =~= views_of(old(out)@) + split_slash(t));
        }
    } else {
        proof {
            assert(t.take(i - start) =~= t);
            assert(views_of(out@) =~= views_of(old(out)@) + split_slash(t));
        }
    }
}

/// Split a string into its `/`-separated segments.
pub fn split_path(s: &str) -> (r: Vec<String>)
    ensures
        views_of(r@) == split_slash(s@),
{
    let mut out: Vec<String> = Vec::new();
    split_push(s, 0, &mut out);
    proof {
        assert(s@.skip(0) =~= s@);
        assert(views_of(out@) =~= split_slash(s@));
    }
    out
}

/// Appending one more segment appends a separator and the segment.
pub proof fn lemma_join_push(s: Seq<Seq<char>>, x: Seq<char>)
    ensures
        join_slash(s.push(x)) == if s.len() == 0 {
            x
        } else {
            join_slash(s) + seq!['/'] + x
        },
    decreases s.len(),
{
    if s.len() == 0 {
        assert(s.push(x)[0] =~= x);
        assert(join_slash(s.push(x)) =~= x);
    } else if s.len() == 1 {
        assert(s.push(x).skip(1) =~= seq![x]);
        assert(join_slash(seq![x]) == x);
        assert(s.push(x)[0] == s[0]);
        assert(join_slash(s.push(x)) =~= s[0] + seq!['/'] + x);
        assert(join_slash(s) =~= s[0]);
    } else {
        lemma_join_push(s.skip(1), x);
        assert(s.push(x).skip(1) =~= s.skip(1).push(x));
        assert(join_slash(s.push(x)) =~= s[0] + seq!['/'] + join_slash(s.skip(1).push(x)));
        assert(join_slash(s) + seq!['/'] + x =~= s[0] + seq!['/'] + (join_slash(s.skip(1)) + seq![
            '/',
        ] + x));
    }
}

/// Join the segments of `segs` from index `from` on with `/` separators.
pub fn join_from(segs: &Vec<String>, from: usize) -> (r: String)
    requires
        from <= segs@.len(),
    ensures
        r@ == join_slash(views_of(segs@).skip(from as int)),
{
    let mut out = String::new();
    let mut i = from;
    let len = segs.len();
    while i < len
        invariant
            from <= i <= len,
            len == segs@.len(),
            out@ =~= join_slash(views_of(segs@).subrange(from as int, i as int)),
        decreases len - i,
    {
        if i > from {
            out.append("/");
        }
        out.append(segs[i].as_str());
        proof {
            reveal_strlit("/");
            let v = views_of(segs@);
            lemma_join_push(v.subrange(from as int, i as int), v[i as int]);
            assert(v.subrange(from as int, i + 1) =~= v.subrange(from as int, i as int).push(
                v[i as int],
            ));
        }
        i = i + 1;
    }
    proof {
        assert(views_of(segs@).subrange(from as int, len as int) =~= views_of(segs@).skip(
            from as int,
        ));
    }
    out
}

/// Character-wise string equality.
pub fn str_eq(a: &str, b: &str) -> (r: bool)
    ensures
        r == (a@ == b@),
{
    let n = a.unicode_len();
    if n != b.unicode_len() {
        return false;
    }
    let mut i: usize = 0;
    while i < n
        invariant
            0 <= i <= n,
            n == a@.len() && n == b@.len(),
            forall|k: int| 0 <= k < i ==> a@[k] == b@[k],
        decreases n - i,
    {
        if a.get_char(i) != b.get_char(i) {
            return false;
        }
        i = i + 1;
    }
    proof {
        assert(a@ =~= b@);
    }
    true
}

} // verus!
