//! The order of texts, by their characters, and sorting.

use crate::text::{chars_of, texts};
use vstd::prelude::*;

verus! {

/// Whether `a` comes before `b` or equals it: by the first character in which
/// they differ, and a prefix before what it begins.
pub open spec fn text_le(a: Seq<char>, b: Seq<char>) -> bool
    decreases a.len(),
{
    if a.len() == 0 {
        true
    } else if b.len() == 0 {
        false
    } else if a[0] != b[0] {
        (a[0] as int) < (b[0] as int)
    } else {
        text_le(a.drop_first(), b.drop_first())
    }
}

/// Whether texts stand in order.
pub open spec fn in_order(s: Seq<Seq<char>>) -> bool {
    forall|i: int, j: int| 0 <= i <= j < s.len() ==> text_le(#[trigger] s[i], #[trigger] s[j])
}

/// Every text comes before itself or equals itself.
pub proof fn text_le_reflexive(a: Seq<char>)
    ensures
        text_le(a, a),
    decreases a.len(),
{
    if a.len() > 0 {
        text_le_reflexive(a.drop_first());
    }
}

/// Of two texts one comes before the other.
pub proof fn text_le_total(a: Seq<char>, b: Seq<char>)
    ensures
        text_le(a, b) || text_le(b, a),
    decreases a.len(),
{
    if a.len() > 0 && b.len() > 0 && a[0] == b[0] {
        text_le_total(a.drop_first(), b.drop_first());
    }
}

/// The order of texts is transitive.
pub proof fn text_le_transitive(a: Seq<char>, b: Seq<char>, c: Seq<char>)
    requires
        text_le(a, b),
        text_le(b, c),
    ensures
        text_le(a, c),
    decreases a.len(),
{
    if a.len() > 0 && b.len() > 0 && c.len() > 0 && a[0] == b[0] && b[0] == c[0] {
        text_le_transitive(a.drop_first(), b.drop_first(), c.drop_first());
    }
}

/// Two texts that come before each other are equal.
pub proof fn text_le_antisymmetric(a: Seq<char>, b: Seq<char>)
    requires
        text_le(a, b),
        text_le(b, a),
    ensures
        a == b,
    decreases a.len(),
{
    if a.len() > 0 && b.len() > 0 && a[0] == b[0] {
        text_le_antisymmetric(a.drop_first(), b.drop_first());
        assert(a =~= seq![a[0]] + a.drop_first());
        assert(b =~= seq![b[0]] + b.drop_first());
    } else {
        assert(a =~= b);
    }
}

fn before(c: char, d: char) -> (r: bool)
    ensures
        r == ((c as int) < (d as int)),
{
    (c as u32) < (d as u32)
}

/// Whether `a` comes before `b` or equals it.
pub fn le(a: &str, b: &str) -> (r: bool)
    ensures
        r == text_le(a@, b@),
{
    let x = chars_of(a);
    let y = chars_of(b);
    let mut i: usize = 0;
    assert(x@.skip(0) =~= x@);
    assert(y@.skip(0) =~= y@);
    while i < x.len() && i < y.len() && x[i] == y[i]
        invariant
            i <= x@.len(),
            i <= y@.len(),
            text_le(x@, y@) == text_le(x@.skip(i as int), y@.skip(i as int)),
        decreases x@.len() - i,
    {
        assert(x@.skip(i as int).drop_first() =~= x@.skip(i as int + 1));
        assert(y@.skip(i as int).drop_first() =~= y@.skip(i as int + 1));
        i += 1;
    }
    if i >= x.len() {
        true
    } else if i >= y.len() {
        false
    } else {
        assert(x@.skip(i as int)[0] == x@[i as int]);
        assert(y@.skip(i as int)[0] == y@[i as int]);
        before(x[i], y[i])
    }
}

/// Where a text goes among texts in order: before the first that does not come
/// before it.
pub fn place(list: &Vec<String>, s: &str) -> (r: usize)
    requires
        in_order(texts(list@)),
    ensures
        r <= list@.len(),
        forall|k: int| 0 <= k < r ==> text_le((#[trigger] list@[k])@, s@),
        forall|k: int| r <= k < list@.len() ==> text_le(s@, (#[trigger] list@[k])@),
{
    let ghost t = texts(list@);
    let mut i: usize = 0;
    while i < list.len() && le(list[i].as_str(), s)
        invariant
            i <= list@.len(),
            t == texts(list@),
            forall|k: int| 0 <= k < i ==> text_le((#[trigger] list@[k])@, s@),
        decreases list@.len() - i,
    {
        i += 1;
    }
    proof {
        if i < list@.len() {
            text_le_total(list@[i as int]@, s@);
            assert forall|k: int| i <= k < list@.len() implies text_le(
                s@,
                (#[trigger] list@[k])@,
            ) by {
                assert(text_le(t[i as int], t[k]));
                text_le_transitive(s@, list@[i as int]@, list@[k]@);
            }
        }
    }
    i
}

/// Puts a text in its place among texts in order.
pub fn insert_in_order(list: &mut Vec<String>, s: String)
    requires
        in_order(texts(old(list)@)),
    ensures
        in_order(texts(final(list)@)),
        texts(final(list)@).to_multiset() == texts(old(list)@).to_multiset().insert(s@),
{
    let ghost before = texts(list@);
    let i: usize = place(list, s.as_str());
    list.insert(i, s);
    proof {
        assert(texts(list@) =~= before.insert(i as int, s@));
        before.to_multiset_ensures();
        let t = texts(list@);
        assert forall|a: int, b: int| 0 <= a <= b < t.len() implies text_le(
            #[trigger] t[a],
            #[trigger] t[b],
        ) by {
            let pa = if a < i {
                a
            } else {
                a - 1
            };
            let pb = if b < i {
                b
            } else {
                b - 1
            };
            text_le_reflexive(s@);
            if a != i && b != i {
                assert(text_le(before[pa], before[pb]));
            } else if a == i && b != i {
                assert(before[pb] == old(list)@[pb]@);
            } else if a != i {
                assert(before[pa] == old(list)@[pa]@);
            }
        }
        vstd::seq_lib::to_multiset_insert(before, i as int, s@);
    }
}

/// Texts in order.
pub fn sort(list: Vec<String>) -> (r: Vec<String>)
    ensures
        in_order(texts(r@)),
        texts(r@).to_multiset() == texts(list@).to_multiset(),
{
    let mut out: Vec<String> = Vec::new();
    let ghost all = list@;
    let ghost t = texts(all);
    assert(t.take(0) =~= Seq::empty());
    assert(texts(out@) =~= Seq::empty());
    for s in it: list
        invariant
            it.seq() == all,
            t == texts(all),
            in_order(texts(out@)),
            texts(out@).to_multiset() == t.take(it.index() as int).to_multiset(),
    {
        let ghost k = it.index() as int;
        assert(t.take(k + 1) =~= t.take(k).push(s@));
        proof {
            t.take(k).to_multiset_ensures();
        }
        insert_in_order(&mut out, s);
    }
    assert(t.take(t.len() as int) =~= t);
    out
}

/// Two lists in order that hold the same texts equally often are equal: the
/// result of sorting is determined by what was sorted.
pub proof fn order_is_unique(a: Seq<Seq<char>>, b: Seq<Seq<char>>)
    requires
        in_order(a),
        in_order(b),
        a.to_multiset() == b.to_multiset(),
    ensures
        a == b,
    decreases a.len(),
{
    a.to_multiset_ensures();
    b.to_multiset_ensures();
    assert(a.len() == b.len());
    if a.len() > 0 {
        let x = a[0];
        let y = b[0];
        assert(a.to_multiset().contains(x));
        assert(b.contains(x));
        assert(a.to_multiset().contains(y)) by {
            assert(b.to_multiset().contains(y));
        }
        assert(a.contains(y));
        let i = choose|i: int| 0 <= i < b.len() && b[i] == x;
        let j = choose|j: int| 0 <= j < a.len() && a[j] == y;
        assert(text_le(b[0], b[i]));
        assert(text_le(a[0], a[j]));
        text_le_antisymmetric(x, y);
        let ra = a.drop_first();
        let rb = b.drop_first();
        assert(a =~= seq![x] + ra);
        assert(b =~= seq![x] + rb);
        vstd::seq_lib::lemma_multiset_commutative(seq![x], ra);
        vstd::seq_lib::lemma_multiset_commutative(seq![x], rb);
        assert(ra.to_multiset() =~= rb.to_multiset()) by {
            assert forall|v: Seq<char>| ra.to_multiset().count(v) == rb.to_multiset().count(v) by {
                assert(a.to_multiset().count(v) == seq![x].to_multiset().count(v)
                    + ra.to_multiset().count(v));
                assert(b.to_multiset().count(v) == seq![x].to_multiset().count(v)
                    + rb.to_multiset().count(v));
            }
        }
        assert(in_order(ra)) by {
            assert forall|p: int, q: int| 0 <= p <= q < ra.len() implies text_le(
                #[trigger] ra[p],
                #[trigger] ra[q],
            ) by {
                assert(text_le(a[p + 1], a[q + 1]));
            }
        }
        assert(in_order(rb)) by {
            assert forall|p: int, q: int| 0 <= p <= q < rb.len() implies text_le(
                #[trigger] rb[p],
                #[trigger] rb[q],
            ) by {
                assert(text_le(b[p + 1], b[q + 1]));
            }
        }
        order_is_unique(ra, rb);
    } else {
        assert(a =~= b);
    }
}

}  // verus!
