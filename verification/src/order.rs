//! Lexicographic byte order and sorting of named entries.
//!
//! Every container backend builds its page table by filtering the archive's
//! entries down to image names and sorting them by name.  The sort works on
//! `(name, position)` pairs so that a backend can afterwards map the sorted
//! names back to the entries they came from.

use vstd::multiset::Multiset;
use vstd::prelude::*;

verus! {

/// Lexicographic order on byte strings: `a` is less than or equal to `b`.
pub open spec fn lex_le(a: Seq<u8>, b: Seq<u8>) -> bool
    decreases a.len(),
{
    if a.len() == 0 {
        true
    } else if b.len() == 0 {
        false
    } else if a[0] < b[0] {
        true
    } else if a[0] > b[0] {
        false
    } else {
        lex_le(a.skip(1), b.skip(1))
    }
}

/// The order is total: one of the two directions always holds.
pub proof fn lemma_lex_total(a: Seq<u8>, b: Seq<u8>)
    ensures
        lex_le(a, b) || lex_le(b, a),
    decreases a.len(),
{
    if a.len() == 0 || b.len() == 0 {
    } else if a[0] == b[0] {
        lemma_lex_total(a.skip(1), b.skip(1));
    }
}

/// The order is transitive.
pub proof fn lemma_lex_trans(a: Seq<u8>, b: Seq<u8>, c: Seq<u8>)
    requires
        lex_le(a, b),
        lex_le(b, c),
    ensures
        lex_le(a, c),
    decreases a.len(),
{
    if a.len() == 0 {
    } else {
        if a[0] == b[0] && b[0] == c[0] {
            lemma_lex_trans(a.skip(1), b.skip(1), c.skip(1));
        }
    }
}

/// Equal prefixes do not affect the order of what follows.
proof fn lemma_lex_skip(a: Seq<u8>, b: Seq<u8>, i: int)
    requires
        0 <= i <= a.len(),
        i <= b.len(),
        forall|j: int| 0 <= j < i ==> a[j] == b[j],
    ensures
        lex_le(a, b) == lex_le(a.skip(i), b.skip(i)),
    decreases i,
{
    if i == 0 {
        assert(a.skip(0) =~= a);
        assert(b.skip(0) =~= b);
    } else {
        assert(a.len() > 0);
        assert(b.len() > 0);
        assert(a[0] == b[0]);
        assert(a.skip(1).skip(i - 1) =~= a.skip(i));
        assert(b.skip(1).skip(i - 1) =~= b.skip(i));
        assert(forall|j: int| 0 <= j < i - 1 ==> a.skip(1)[j] == b.skip(1)[j]);
        lemma_lex_skip(a.skip(1), b.skip(1), i - 1);
    }
}

/// Lexicographic comparison of two byte strings.
pub fn lex_le_bytes(a: &[u8], b: &[u8]) -> (r: bool)
    ensures
        r == lex_le(a@, b@),
{
    let mut i: usize = 0;
    loop
        invariant
            i <= a@.len(),
            i <= b@.len(),
            forall|j: int| 0 <= j < i ==> a@[j] == b@[j],
        decreases a@.len() - i,
    {
        proof {
            lemma_lex_skip(a@, b@, i as int);
        }
        if i == a.len() {
            return true;
        }
        if i == b.len() {
            return false;
        }
        if a[i] < b[i] {
            return true;
        }
        if a[i] > b[i] {
            return false;
        }
        i = i + 1;
    }
}

/// The mathematical value of a `(name, position)` pair list.
pub open spec fn pair_views(s: Seq<(Vec<u8>, usize)>) -> Seq<(Seq<u8>, usize)> {
    s.map_values(|p: (Vec<u8>, usize)| (p.0@, p.1))
}

/// Pairs sorted by name in lexicographic order.
pub open spec fn sorted_by_name(s: Seq<(Seq<u8>, usize)>) -> bool {
    forall|i: int, j: int| 0 <= i < j < s.len() ==> lex_le(s[i].0, s[j].0)
}

/// Inserting an element anywhere adds exactly that element to the multiset.
pub proof fn lemma_insert_to_multiset<A>(s: Seq<A>, p: int, x: A)
    requires
        0 <= p <= s.len(),
    ensures
        s.insert(p, x).to_multiset() =~= s.to_multiset().insert(x),
{
    broadcast use vstd::seq_lib::group_to_multiset_ensures;

    let t = s.insert(p, x);
    assert(t.remove(p) =~= s);
    assert(t[p] == x);
    assert(t.remove(p).to_multiset() =~= t.to_multiset().remove(x));
    assert(t.contains(x)) by {
        assert(t[p] == x);
    }
    assert(t.to_multiset().count(x) > 0);
    assert forall|a: A| #[trigger] t.to_multiset().count(a) == s.to_multiset().insert(x).count(
        a,
    ) by {
        if a == x {
            assert(s.to_multiset().count(x) == t.to_multiset().remove(x).count(x));
        } else {
            assert(s.to_multiset().count(a) == t.to_multiset().remove(x).count(a));
        }
    }
}

/// Sequences with the same multiset keep the same multiset under any
/// element-wise mapping.
pub proof fn lemma_map_multiset<A, B>(q: Seq<A>, p: Seq<A>, f: spec_fn(A) -> B)
    requires
        q.to_multiset() == p.to_multiset(),
    ensures
        q.map_values(f).to_multiset() == p.map_values(f).to_multiset(),
    decreases q.len(),
{
    broadcast use vstd::seq_lib::group_to_multiset_ensures;

    if q.len() == 0 {
        assert(p.to_multiset().len() == 0);
        assert(p.len() == 0);
        assert(q.map_values(f) =~= Seq::<B>::empty());
        assert(p.map_values(f) =~= Seq::<B>::empty());
    } else {
        let last = q.last();
        assert(q =~= q.drop_last().push(last));
        vstd::seq_lib::to_multiset_build(q.drop_last(), last);
        assert(p.to_multiset().count(last) > 0);
        assert(p.contains(last));
        let w = choose|w: int| 0 <= w < p.len() && p[w] == last;
        let p2 = p.remove(w);
        assert(p2.to_multiset() =~= p.to_multiset().remove(last));
        assert(q.drop_last().to_multiset() =~= q.to_multiset().remove(last));
        lemma_map_multiset(q.drop_last(), p2, f);
        assert(q.map_values(f) =~= q.drop_last().map_values(f).push(f(last)));
        vstd::seq_lib::to_multiset_build(q.drop_last().map_values(f), f(last));
        assert(p.map_values(f) =~= p2.map_values(f).insert(w, f(last)));
        lemma_insert_to_multiset(p2.map_values(f), w, f(last));
    }
}

/// Sort `(name, position)` pairs by name: the result is ordered and holds
/// exactly the pairs given, nothing added, nothing lost.
pub fn sort_pairs(v: Vec<(Vec<u8>, usize)>) -> (r: Vec<(Vec<u8>, usize)>)
    ensures
        sorted_by_name(pair_views(r@)),
        pair_views(r@).to_multiset() == pair_views(v@).to_multiset(),
        r@.len() == v@.len(),
{
    broadcast use vstd::seq_lib::group_to_multiset_ensures;

    let ghost orig = pair_views(v@);
    let mut src = v;
    let mut out: Vec<(Vec<u8>, usize)> = Vec::new();
    proof {
        assert(pair_views(out@) =~= Seq::<(Seq<u8>, usize)>::empty());
        assert(pair_views(src@) =~= orig);
    }
    while src.len() > 0
        invariant
            sorted_by_name(pair_views(out@)),
            pair_views(out@).to_multiset().add(pair_views(src@).to_multiset())
                =~= orig.to_multiset(),
            out@.len() + src@.len() == orig.len(),
        decreases src@.len(),
    {
        let ghost src_before = pair_views(src@);
        let x = src.pop().unwrap();
        proof {
            assert(src_before =~= pair_views(src@).push((x.0@, x.1)));
            vstd::seq_lib::to_multiset_build(pair_views(src@), (x.0@, x.1));
        }
        let mut p: usize = 0;
        while p < out.len()
            invariant
                p <= out@.len(),
                forall|j: int| 0 <= j < p ==> lex_le(pair_views(out@)[j].0, x.0@),
            ensures
                p <= out@.len(),
                forall|j: int| 0 <= j < p ==> lex_le(pair_views(out@)[j].0, x.0@),
                p < out@.len() ==> !lex_le(pair_views(out@)[p as int].0, x.0@),
            decreases out@.len() - p,
        {
            if lex_le_bytes(out[p].0.as_slice(), x.0.as_slice()) {
                p = p + 1;
            } else {
                break;
            }
        }
        proof {
            if p < out@.len() {
                lemma_lex_total(pair_views(out@)[p as int].0, x.0@);
            }
        }
        let ghost old_out = pair_views(out@);
        out.insert(p, x);
        proof {
            assert(pair_views(out@) =~= old_out.insert(p as int, (x.0@, x.1)));
            lemma_insert_to_multiset(old_out, p as int, (x.0@, x.1));
            assert(pair_views(out@).to_multiset() =~= old_out.to_multiset().insert((x.0@, x.1)));
            let no = pair_views(out@);
            assert forall|i: int, j: int| 0 <= i < j < no.len() implies lex_le(
                no[i].0,
                no[j].0,
            ) by {
                if j == p {
                    // the new element is not below anything before it
                } else if i == p {
                    if j > p + 1 {
                        lemma_lex_trans(x.0@, old_out[p as int].0, old_out[j - 1].0);
                    }
                }
            }
        }
    }
    proof {
        assert(pair_views(src@).to_multiset() =~= Multiset::<(Seq<u8>, usize)>::empty());
        assert(pair_views(out@).to_multiset() =~= orig.to_multiset());
        assert(pair_views(out@).to_multiset().len() == orig.to_multiset().len());
    }
    out
}

} // verus!
