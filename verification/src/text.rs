//! Splitting and joining byte strings on one-byte delimiters, with the
//! algebra the codec needs: splitting a join of delimiter-free parts gives
//! the parts back.

use vstd::prelude::*;

use crate::views::{lemma_deep_view_is_views, lemma_u8_vec_deep_view, lemma_views_of_push, views_of};

verus! {

broadcast use {lemma_u8_vec_deep_view, lemma_deep_view_is_views, lemma_views_of_push};

/// True if the byte `d` occurs somewhere in `s`.
pub open spec fn has_byte(s: Seq<u8>, d: u8) -> bool {
    exists|i: int| 0 <= i < s.len() && s[i] == d
}

/// Every byte of `s` satisfies `c`.
pub open spec fn all_bytes(s: Seq<u8>, c: spec_fn(u8) -> bool) -> bool {
    forall|i: int| 0 <= i < s.len() ==> c(#[trigger] s[i])
}

/// Index of the first occurrence of `d` in `s`, or `s.len()` if absent.
pub open spec fn spec_find(s: Seq<u8>, d: u8) -> int
    decreases s.len(),
{
    if s.len() == 0 {
        0
    } else if s[0] == d {
        0
    } else {
        1 + spec_find(s.skip(1), d)
    }
}

pub proof fn lemma_find_props(s: Seq<u8>, d: u8)
    ensures
        0 <= spec_find(s, d) <= s.len(),
        spec_find(s, d) < s.len() ==> s[spec_find(s, d)] == d,
        forall|i: int| 0 <= i < spec_find(s, d) ==> s[i] != d,
    decreases s.len(),
{
    if s.len() > 0 && s[0] != d {
        lemma_find_props(s.skip(1), d);
        assert forall|i: int| 0 <= i < spec_find(s, d) implies s[i] != d by {
            if i > 0 {
                assert(s.skip(1)[i - 1] == s[i]);
            }
        }
        if spec_find(s, d) < s.len() {
            assert(s.skip(1)[spec_find(s, d) - 1] == s[spec_find(s, d)]);
        }
    }
}

/// The first occurrence of `d` is at `i` exactly when nothing before `i` is
/// `d` and either `i` is the end or `s[i]` is `d`.
pub proof fn lemma_find_at(s: Seq<u8>, d: u8, i: int)
    requires
        0 <= i <= s.len(),
        forall|j: int| 0 <= j < i ==> s[j] != d,
        i < s.len() ==> s[i] == d,
    ensures
        spec_find(s, d) == i,
    decreases s.len(),
{
    if s.len() > 0 && s[0] != d {
        assert(i >= 1);
        assert forall|j: int| 0 <= j < i - 1 implies s.skip(1)[j] != d by {
            assert(s.skip(1)[j] == s[j + 1]);
        }
        if i - 1 < s.len() - 1 {
            assert(s.skip(1)[i - 1] == s[i]);
        }
        lemma_find_at(s.skip(1), d, i - 1);
    }
}

/// Split `s` on the delimiter `d`: n occurrences of `d` give n + 1 parts,
/// none of which contains `d`.
pub open spec fn spec_split(s: Seq<u8>, d: u8) -> Seq<Seq<u8>>
    decreases s.len(),
{
    let i = spec_find(s, d);
    if 0 <= i < s.len() {
        seq![s.take(i)] + spec_split(s.skip(i + 1), d)
    } else {
        seq![s]
    }
}

pub proof fn lemma_split_len(s: Seq<u8>, d: u8)
    ensures
        spec_split(s, d).len() >= 1,
    decreases s.len(),
{
    lemma_find_props(s, d);
    let i = spec_find(s, d);
    if 0 <= i < s.len() {
        lemma_split_len(s.skip(i + 1), d);
    }
}

/// Join the parts with the delimiter `d` between consecutive parts.
pub open spec fn spec_join(parts: Seq<Seq<u8>>, d: u8) -> Seq<u8>
    decreases parts.len(),
{
    if parts.len() == 0 {
        Seq::empty()
    } else if parts.len() == 1 {
        parts[0]
    } else {
        parts[0] + seq![d] + spec_join(parts.skip(1), d)
    }
}

/// Appending one more part appends one delimiter and the part.
pub proof fn lemma_join_push(parts: Seq<Seq<u8>>, p: Seq<u8>, d: u8)
    requires
        parts.len() >= 1,
    ensures
        spec_join(parts.push(p), d) == spec_join(parts, d) + seq![d] + p,
    decreases parts.len(),
{
    if parts.len() == 1 {
        assert(parts.push(p).skip(1) =~= seq![p]);
        assert(parts.push(p)[0] == parts[0]);
        assert(spec_join(seq![p], d) == p);
        assert(spec_join(parts.push(p), d) =~= parts[0] + seq![d] + p);
    } else {
        lemma_join_push(parts.skip(1), p, d);
        assert(parts.push(p).skip(1) =~= parts.skip(1).push(p));
        assert(spec_join(parts.push(p), d) =~= spec_join(parts, d) + seq![d] + p);
    }
}

/// A join of parts free of the byte `c`, on a delimiter other than `c`,
/// stays free of `c`.
pub proof fn lemma_join_no_byte(parts: Seq<Seq<u8>>, d: u8, c: u8)
    requires
        c != d,
        forall|k: int| 0 <= k < parts.len() ==> !has_byte(#[trigger] parts[k], c),
    ensures
        !has_byte(spec_join(parts, d), c),
    decreases parts.len(),
{
    if parts.len() <= 1 {
    } else {
        lemma_join_no_byte(parts.skip(1), d, c);
        let s = spec_join(parts, d);
        let rest = spec_join(parts.skip(1), d);
        assert forall|i: int| 0 <= i < s.len() implies s[i] != c by {
            if i < parts[0].len() {
                assert(s[i] == parts[0][i]);
                assert(!has_byte(parts[0], c));
            } else if i == parts[0].len() {
                assert(s[i] == d);
            } else {
                assert(s[i] == rest[i - parts[0].len() - 1]);
                assert(!has_byte(rest, c));
            }
        }
    }
}

/// Splitting a join of delimiter-free parts gives the parts back.
pub proof fn lemma_split_join(parts: Seq<Seq<u8>>, d: u8)
    requires
        parts.len() >= 1,
        forall|k: int| 0 <= k < parts.len() ==> !has_byte(#[trigger] parts[k], d),
    ensures
        spec_split(spec_join(parts, d), d) == parts,
    decreases parts.len(),
{
    if parts.len() == 1 {
        let s = parts[0];
        assert forall|j: int| 0 <= j < s.len() implies s[j] != d by {
            assert(!has_byte(s, d));
        }
        lemma_find_at(s, d, s.len() as int);
        assert(spec_split(s, d) =~= parts);
    } else {
        let s = spec_join(parts, d);
        let head = parts[0];
        let rest = spec_join(parts.skip(1), d);
        assert(s == head + seq![d] + rest);
        assert forall|j: int| 0 <= j < head.len() implies s[j] != d by {
            assert(s[j] == head[j]);
            assert(!has_byte(head, d));
        }
        assert(s[head.len() as int] == d);
        lemma_find_at(s, d, head.len() as int);
        assert(s.take(head.len() as int) =~= head);
        assert(s.skip(head.len() as int + 1) =~= rest);
        lemma_split_join(parts.skip(1), d);
        assert(spec_split(s, d) =~= seq![head] + parts.skip(1));
        assert(seq![head] + parts.skip(1) =~= parts);
    }
}

/// Split a byte string on a one-byte delimiter; there is always at least one
/// part, and the parts joined by the delimiter give the input back.
#[verifier::rlimit(60)]
pub fn split_bytes(s: &Vec<u8>, d: u8) -> (r: Vec<Vec<u8>>)
    ensures
        r.deep_view() == spec_split(s@, d),
        r.len() >= 1,
{
    let mut parts: Vec<Vec<u8>> = Vec::new();
    let mut p: usize = 0;
    proof {
        assert(s@.skip(0) =~= s@);
    }
    loop
        invariant
            p <= s.len(),
            spec_split(s@, d) == parts.deep_view() + spec_split(s@.skip(p as int), d),
        ensures
            parts.deep_view() == spec_split(s@, d),
            parts.len() >= 1,
        decreases s@.len() - p,
    {
        let ghost rest = s@.skip(p as int);
        let ghost prev = parts.deep_view();
        let mut j: usize = p;
        let mut cur: Vec<u8> = Vec::new();
        while j < s.len() && s[j] != d
            invariant
                p <= j <= s@.len(),
                cur@ == s@.subrange(p as int, j as int),
                forall|k: int| p <= k < j ==> s@[k] != d,
            decreases s@.len() - j,
        {
            let b = s[j];
            cur.push(b);
            proof {
                assert(cur@ =~= s@.subrange(p as int, j + 1));
            }
            j = j + 1;
        }
        proof {
            assert forall|k: int| 0 <= k < j - p implies rest[k] != d by {
                assert(rest[k] == s@[p + k]);
            }
            if j < s.len() {
                assert(rest[j - p] == s@[j as int]);
            }
            lemma_find_at(rest, d, j - p);
            assert(cur@ =~= rest.take(j - p));
        }
        let ghost prev_v = parts@;
        if j == s.len() {
            parts.push(cur);
            proof {
                assert(spec_split(rest, d) =~= seq![cur@]);
                assert(parts@ == prev_v.push(cur));
                assert(views_of(parts@) == views_of(prev_v).push(cur@));
                assert(prev == views_of(prev_v));
                assert(parts.deep_view() == prev.push(cur@));
                assert(prev.push(cur@) =~= prev + seq![cur@]);
                lemma_split_len(s@, d);
            }
            return parts;
        } else {
            parts.push(cur);
            proof {
                assert(spec_split(rest, d) =~= seq![cur@] + spec_split(rest.skip(j - p + 1), d));
                assert(rest.skip(j - p + 1) =~= s@.skip(j + 1));
                assert(parts@ == prev_v.push(cur));
                assert(views_of(parts@) == views_of(prev_v).push(cur@));
                assert(prev == views_of(prev_v));
                assert(parts.deep_view() == prev.push(cur@));
                assert(prev.push(cur@) =~= prev + seq![cur@]);
                assert(parts.deep_view() + spec_split(s@.skip(j + 1), d) =~= prev + spec_split(
                    rest,
                    d,
                ));
            }
            p = j + 1;
        }
    }
}

/// Join byte-string parts with a one-byte delimiter.
pub fn join_bytes(parts: &Vec<Vec<u8>>, d: u8) -> (r: Vec<u8>)
    ensures
        r@ == spec_join(parts.deep_view(), d),
{
    let ghost pv = parts.deep_view();
    let mut out: Vec<u8> = Vec::new();
    let mut i: usize = 0;
    while i < parts.len()
        invariant
            i <= parts.len(),
            pv == parts.deep_view(),
            out@ == spec_join(pv.take(i as int), d),
        decreases parts.len() - i,
    {
        let ghost before = out@;
        if i > 0 {
            out.push(d);
        }
        let part = &parts[i];
        let mut j: usize = 0;
        while j < part.len()
            invariant
                j <= part.len(),
                out@ == (if i > 0 {
                    before.push(d)
                } else {
                    before
                }) + part@.take(j as int),
            decreases part.len() - j,
        {
            let b = part[j];
            out.push(b);
            proof {
                assert(part@.take(j + 1) =~= part@.take(j as int).push(part@[j as int]));
                assert((if i > 0 {
                    before.push(d)
                } else {
                    before
                }) + part@.take(j as int).push(part@[j as int]) =~= ((if i > 0 {
                    before.push(d)
                } else {
                    before
                }) + part@.take(j as int)).push(part@[j as int]));
            }
            j = j + 1;
        }
        proof {
            assert(part@.take(part@.len() as int) =~= part@);
            assert(pv[i as int] == part@);
            if i > 0 {
                lemma_join_push(pv.take(i as int), pv[i as int], d);
                assert(pv.take(i as int).push(pv[i as int]) =~= pv.take(i + 1));
                assert(before.push(d) =~= before + seq![d]);
                assert(before + seq![d] + part@ =~= (before + seq![d]) + part@);
                assert(out@ =~= spec_join(pv.take(i + 1), d));
            } else {
                assert(pv.take(1)[0] == pv[0]);
                assert(out@ =~= spec_join(pv.take(1), d));
            }
        }
        i = i + 1;
    }
    proof {
        assert(pv.take(parts.len() as int) =~= pv);
    }
    out
}

} // verus!
