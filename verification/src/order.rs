//! Stable ranking of items by a key: a higher `primary` first, then a higher
//! `secondary`, then `name` in ascending character order, and ties kept in
//! the order they were given in. This is the order every listing of the explorer is
//! shown in (directories first, best match first, alphabetical).

use vstd::prelude::*;
use vstd::relations::{sorted_by, total_ordering};
use vstd::multiset::Multiset;

verus! {

broadcast use vstd::seq_lib::group_to_multiset_ensures;

/// One item's sort key.
pub struct RankKey {
    pub primary: i128,
    pub secondary: i128,
    pub name: Vec<char>,
}

pub type KeyView = (int, int, Seq<char>);

impl View for RankKey {
    type V = KeyView;

    open spec fn view(&self) -> KeyView {
        (self.primary as int, self.secondary as int, self.name@)
    }
}

/// Strictly before in code-point lexicographic order (`str::cmp`, which
/// compares UTF-8 bytes and so orders by code point).
pub open spec fn text_lt(a: Seq<char>, b: Seq<char>) -> bool
    decreases a.len(),
{
    if a.len() == 0 {
        b.len() > 0
    } else if b.len() == 0 {
        false
    } else if a[0] == b[0] {
        text_lt(a.drop_first(), b.drop_first())
    } else {
        a[0] < b[0]
    }
}

/// Strictly before in key order.
pub open spec fn key_lt(a: KeyView, b: KeyView) -> bool {
    a.0 > b.0 || (a.0 == b.0 && (a.1 > b.1 || (a.1 == b.1 && text_lt(a.2, b.2))))
}

/// Item `x` comes no later than item `y`: same item, or a smaller key, or an
/// equal key and an earlier position.
pub open spec fn idx_leq(keys: Seq<KeyView>, x: usize, y: usize) -> bool {
    x == y || key_lt(keys[x as int], keys[y as int]) || (keys[x as int] == keys[y as int] && x < y)
}

pub open spec fn positions(n: nat) -> Seq<usize> {
    Seq::new(n, |i: int| i as usize)
}

/// The positions of the items, in key order.
pub open spec fn rank_order(keys: Seq<KeyView>) -> Seq<usize> {
    positions(keys.len()).sort_by(|x: usize, y: usize| idx_leq(keys, x, y))
}

pub open spec fn views(keys: Seq<RankKey>) -> Seq<KeyView> {
    keys.map_values(|k: RankKey| k@)
}

proof fn lemma_text_lt_irrefl(a: Seq<char>)
    ensures
        !text_lt(a, a),
    decreases a.len(),
{
    if a.len() > 0 {
        lemma_text_lt_irrefl(a.drop_first());
    }
}

proof fn lemma_text_lt_asym(a: Seq<char>, b: Seq<char>)
    ensures
        !(text_lt(a, b) && text_lt(b, a)),
    decreases a.len(),
{
    if a.len() > 0 && b.len() > 0 && a[0] == b[0] {
        lemma_text_lt_asym(a.drop_first(), b.drop_first());
    }
}

proof fn lemma_text_lt_trans(a: Seq<char>, b: Seq<char>, c: Seq<char>)
    requires
        text_lt(a, b),
        text_lt(b, c),
    ensures
        text_lt(a, c),
    decreases a.len(),
{
    if a.len() > 0 && b.len() > 0 && c.len() > 0 && a[0] == b[0] && b[0] == c[0] {
        lemma_text_lt_trans(a.drop_first(), b.drop_first(), c.drop_first());
    }
}

proof fn lemma_text_lt_total(a: Seq<char>, b: Seq<char>)
    ensures
        a == b || text_lt(a, b) || text_lt(b, a),
    decreases a.len(),
{
    if a.len() > 0 && b.len() > 0 && a[0] == b[0] {
        lemma_text_lt_total(a.drop_first(), b.drop_first());
        if a.drop_first() == b.drop_first() {
            assert(a =~= seq![a[0]] + a.drop_first());
            assert(b =~= seq![b[0]] + b.drop_first());
        }
    }
}

proof fn lemma_key_lt_facts(a: KeyView, b: KeyView, c: KeyView)
    ensures
        !key_lt(a, a),
        !(key_lt(a, b) && key_lt(b, a)),
        key_lt(a, b) && key_lt(b, c) ==> key_lt(a, c),
        a == b || key_lt(a, b) || key_lt(b, a),
{
    lemma_text_lt_irrefl(a.2);
    lemma_text_lt_asym(a.2, b.2);
    if text_lt(a.2, b.2) && text_lt(b.2, c.2) {
        lemma_text_lt_trans(a.2, b.2, c.2);
    }
    lemma_text_lt_total(a.2, b.2);
}

/// `idx_leq` is a total order on positions.
pub proof fn lemma_idx_leq_total(keys: Seq<KeyView>)
    ensures
        total_ordering(|x: usize, y: usize| idx_leq(keys, x, y)),
{
    let leq = |x: usize, y: usize| idx_leq(keys, x, y);
    assert forall|x: usize, y: usize| #[trigger] leq(x, y) && #[trigger] leq(y, x) implies x == y by {
        lemma_key_lt_facts(keys[x as int], keys[y as int], keys[y as int]);
        lemma_key_lt_facts(keys[y as int], keys[y as int], keys[y as int]);
    }
    assert forall|x: usize, y: usize, z: usize|
        #[trigger] leq(x, y) && #[trigger] leq(y, z) implies leq(x, z) by {
        lemma_key_lt_facts(keys[x as int], keys[y as int], keys[z as int]);
        lemma_key_lt_facts(keys[y as int], keys[z as int], keys[x as int]);
        lemma_key_lt_facts(keys[z as int], keys[x as int], keys[y as int]);
    }
    assert forall|x: usize, y: usize| #[trigger] leq(x, y) || leq(y, x) by {
        lemma_key_lt_facts(keys[x as int], keys[y as int], keys[y as int]);
    }
    assert(vstd::relations::reflexive(leq));
    assert(vstd::relations::antisymmetric(leq));
    assert(vstd::relations::transitive(leq));
    assert(vstd::relations::strongly_connected(leq));
}

fn text_order(a: &Vec<char>, b: &Vec<char>) -> (r: i8)
    ensures
        (r < 0) == text_lt(a@, b@),
        (r == 0) == (a@ == b@),
        (r > 0) == text_lt(b@, a@),
{
    let mut i: usize = 0;
    proof {
        assert(a@.skip(0) =~= a@);
        assert(b@.skip(0) =~= b@);
    }
    while i < a.len() && i < b.len() && a[i] == b[i]
        invariant
            i <= a@.len(),
            i <= b@.len(),
            a@.take(i as int) == b@.take(i as int),
            text_lt(a@, b@) == text_lt(a@.skip(i as int), b@.skip(i as int)),
            text_lt(b@, a@) == text_lt(b@.skip(i as int), a@.skip(i as int)),
        decreases a.len() - i,
    {
        proof {
            assert(a@.skip(i as int).drop_first() =~= a@.skip(i as int + 1));
            assert(b@.skip(i as int).drop_first() =~= b@.skip(i as int + 1));
            assert(a@.take(i as int + 1) =~= a@.take(i as int).push(a@[i as int]));
            assert(b@.take(i as int + 1) =~= b@.take(i as int).push(b@[i as int]));
        }
        i = i + 1;
    }
    proof {
        lemma_text_lt_irrefl(a@);
        lemma_text_lt_asym(a@, b@);
        if i == a@.len() && i == b@.len() {
            assert(a@ =~= a@.take(i as int));
            assert(b@ =~= b@.take(i as int));
        }
    }
    if i < a.len() && i < b.len() {
        proof {
            if a@ == b@ {
                assert(a@[i as int] == b@[i as int]);
            }
        }
        if a[i] < b[i] {
            -1
        } else {
            1
        }
    } else if i < b.len() {
        proof {
            assert(a@.len() < b@.len());
        }
        -1
    } else if i < a.len() {
        proof {
            assert(a@.len() > b@.len());
        }
        1
    } else {
        0
    }
}

fn key_order(a: &RankKey, b: &RankKey) -> (r: i8)
    ensures
        (r < 0) == key_lt(a@, b@),
        (r == 0) == (a@ == b@),
        (r > 0) == key_lt(b@, a@),
{
    if a.primary > b.primary {
        return -1;
    }
    if a.primary < b.primary {
        return 1;
    }
    if a.secondary > b.secondary {
        return -1;
    }
    if a.secondary < b.secondary {
        return 1;
    }
    text_order(&a.name, &b.name)
}

fn idx_le(keys: &Vec<RankKey>, x: usize, y: usize) -> (r: bool)
    requires
        x < keys@.len(),
        y < keys@.len(),
    ensures
        r == idx_leq(views(keys@), x, y),
{
    if x == y {
        return true;
    }
    let c = key_order(&keys[x], &keys[y]);
    proof {
        assert(views(keys@)[x as int] == keys@[x as int]@);
        assert(views(keys@)[y as int] == keys@[y as int]@);
    }
    c < 0 || (c == 0 && x < y)
}

fn merge(keys: &Vec<RankKey>, a: Vec<usize>, b: Vec<usize>) -> (r: Vec<usize>)
    requires
        total_ordering(|x: usize, y: usize| idx_leq(views(keys@), x, y)),
        sorted_by(a@, |x: usize, y: usize| idx_leq(views(keys@), x, y)),
        sorted_by(b@, |x: usize, y: usize| idx_leq(views(keys@), x, y)),
        forall|k: int| 0 <= k < a@.len() ==> a@[k] < keys@.len(),
        forall|k: int| 0 <= k < b@.len() ==> b@[k] < keys@.len(),
    ensures
        sorted_by(r@, |x: usize, y: usize| idx_leq(views(keys@), x, y)),
        r@.to_multiset() == a@.to_multiset().add(b@.to_multiset()),
        forall|k: int| 0 <= k < r@.len() ==> r@[k] < keys@.len(),
{
    broadcast use vstd::multiset::group_multiset_axioms;
    let ghost leq = |x: usize, y: usize| idx_leq(views(keys@), x, y);
    let mut out: Vec<usize> = Vec::new();
    let mut i: usize = 0;
    let mut j: usize = 0;
    proof {
        assert(a@.skip(0) =~= a@);
        assert(b@.skip(0) =~= b@);
        assert(out@.to_multiset() =~= Multiset::empty());
    }
    while i < a.len() || j < b.len()
        invariant
            leq == (|x: usize, y: usize| idx_leq(views(keys@), x, y)),
            total_ordering(leq),
            sorted_by(a@, leq),
            sorted_by(b@, leq),
            i <= a@.len(),
            j <= b@.len(),
            forall|k: int| 0 <= k < a@.len() ==> a@[k] < keys@.len(),
            forall|k: int| 0 <= k < b@.len() ==> b@[k] < keys@.len(),
            forall|k: int| 0 <= k < out@.len() ==> out@[k] < keys@.len(),
            sorted_by(out@, leq),
            out@.len() > 0 && i < a@.len() ==> leq(out@.last(), a@[i as int]),
            out@.len() > 0 && j < b@.len() ==> leq(out@.last(), b@[j as int]),
            out@.to_multiset().add(a@.skip(i as int).to_multiset()).add(
                b@.skip(j as int).to_multiset(),
            ) == a@.to_multiset().add(b@.to_multiset()),
        decreases a@.len() + b@.len() - i - j,
    {
        let take_a = if i < a.len() && j < b.len() {
            idx_le(keys, a[i], b[j])
        } else {
            i < a.len()
        };
        let ghost old_out = out@;
        if take_a {
            let x = a[i];
            proof {
                assert(a@.skip(i as int).drop_first() =~= a@.skip(i as int + 1));
                vstd::seq_lib::to_multiset_remove(a@.skip(i as int), 0);
                assert(a@.skip(i as int).remove(0) =~= a@.skip(i as int + 1));
                vstd::seq_lib::to_multiset_build(old_out, x);
                assert forall|p: int, q: int| 0 <= p < q < old_out.len() + 1 implies #[trigger] leq(
                    old_out.push(x)[p],
                    old_out.push(x)[q],
                ) by {
                    if q == old_out.len() && p < q - 1 {
                        assert(leq(old_out[p], old_out.last()));
                    }
                }
                if j < b@.len() && !(i < a@.len() && j < b@.len()) {
                }
                if i + 1 < a@.len() {
                    assert(leq(a@[i as int], a@[i as int + 1]));
                }
                if j < b@.len() && !leq(x, b@[j as int]) {
                    assert(leq(b@[j as int], x));
                }
            }
            out.push(x);
            i = i + 1;
            proof {
                assert(out@.to_multiset().add(a@.skip(i as int).to_multiset()).add(
                    b@.skip(j as int).to_multiset(),
                ) =~= a@.to_multiset().add(b@.to_multiset()));
            }
        } else {
            let x = b[j];
            proof {
                vstd::seq_lib::to_multiset_remove(b@.skip(j as int), 0);
                assert(b@.skip(j as int).remove(0) =~= b@.skip(j as int + 1));
                vstd::seq_lib::to_multiset_build(old_out, x);
                assert forall|p: int, q: int| 0 <= p < q < old_out.len() + 1 implies #[trigger] leq(
                    old_out.push(x)[p],
                    old_out.push(x)[q],
                ) by {
                    if q == old_out.len() && p < q - 1 {
                        assert(leq(old_out[p], old_out.last()));
                    }
                }
                if j + 1 < b@.len() {
                    assert(leq(b@[j as int], b@[j as int + 1]));
                }
                if i < a@.len() {
                    assert(leq(a@[i as int], x) || leq(x, a@[i as int]));
                    assert(leq(x, a@[i as int]));
                }
            }
            out.push(x);
            j = j + 1;
            proof {
                assert(out@.to_multiset().add(a@.skip(i as int).to_multiset()).add(
                    b@.skip(j as int).to_multiset(),
                ) =~= a@.to_multiset().add(b@.to_multiset()));
            }
        }
    }
    proof {
        assert(a@.skip(i as int) =~= Seq::<usize>::empty());
        assert(b@.skip(j as int) =~= Seq::<usize>::empty());
        assert(out@.to_multiset() =~= a@.to_multiset().add(b@.to_multiset()));
    }
    out
}

pub open spec fn span(lo: nat, hi: nat) -> Seq<usize> {
    Seq::new((hi - lo) as nat, |i: int| (lo + i) as usize)
}

fn merge_sort(keys: &Vec<RankKey>, lo: usize, hi: usize) -> (r: Vec<usize>)
    requires
        lo <= hi <= keys@.len(),
        total_ordering(|x: usize, y: usize| idx_leq(views(keys@), x, y)),
    ensures
        sorted_by(r@, |x: usize, y: usize| idx_leq(views(keys@), x, y)),
        r@.to_multiset() == span(lo as nat, hi as nat).to_multiset(),
        forall|k: int| 0 <= k < r@.len() ==> r@[k] < keys@.len(),
    decreases hi - lo,
{
    broadcast use vstd::multiset::group_multiset_axioms;
    if hi - lo <= 1 {
        let mut r: Vec<usize> = Vec::new();
        if hi - lo == 1 {
            r.push(lo);
            proof {
                assert(r@ =~= span(lo as nat, hi as nat));
            }
        } else {
            proof {
                assert(r@ =~= span(lo as nat, hi as nat));
            }
        }
        return r;
    }
    let mid = lo + (hi - lo) / 2;
    let left = merge_sort(keys, lo, mid);
    let right = merge_sort(keys, mid, hi);
    proof {
        assert(span(lo as nat, hi as nat) =~= span(lo as nat, mid as nat) + span(
            mid as nat,
            hi as nat,
        ));
        vstd::seq_lib::lemma_multiset_commutative(
            span(lo as nat, mid as nat),
            span(mid as nat, hi as nat),
        );
    }
    merge(keys, left, right)
}

/// The positions of `keys` in key order: a higher primary first, then a
/// higher secondary, then ascending name, ties in the order they were given in.
pub fn rank_positions(keys: &Vec<RankKey>) -> (r: Vec<usize>)
    ensures
        r@ == rank_order(views(keys@)),
        r@.len() == keys@.len(),
        forall|k: int| 0 <= k < r@.len() ==> r@[k] < keys@.len(),
{
    proof {
        lemma_idx_leq_total(views(keys@));
    }
    let r = merge_sort(keys, 0, keys.len());
    proof {
        let leq = |x: usize, y: usize| idx_leq(views(keys@), x, y);
        let p = positions(keys@.len());
        assert(span(0, keys@.len()) =~= p);
        p.lemma_sort_by_ensures(leq);
        vstd::seq_lib::lemma_sorted_unique(r@, p.sort_by(leq), leq);
        assert(r@.len() == keys@.len()) by {
            vstd::seq_lib::to_multiset_len(r@);
            vstd::seq_lib::to_multiset_len(p);
        }
    }
    r
}

/// `ids` rearranged into the key order of `keys`.
pub open spec fn ranked<T>(keys: Seq<KeyView>, ids: Seq<T>) -> Seq<T> {
    rank_order(keys).map_values(|k: usize| ids[k as int])
}

/// Rearranges `ids` into the key order of the matching `keys`.
pub fn rank_ids<T: Copy>(keys: &Vec<RankKey>, ids: &Vec<T>) -> (r: Vec<T>)
    requires
        keys@.len() == ids@.len(),
    ensures
        r@ == ranked(views(keys@), ids@),
        r@.len() == ids@.len(),
        forall|k: int| 0 <= k < r@.len() ==> ids@.contains(#[trigger] r@[k]),
{
    let pos = rank_positions(keys);
    let mut r: Vec<T> = Vec::new();
    let mut i: usize = 0;
    while i < pos.len()
        invariant
            i <= pos@.len(),
            pos@ == rank_order(views(keys@)),
            pos@.len() == keys@.len(),
            keys@.len() == ids@.len(),
            forall|k: int| 0 <= k < pos@.len() ==> pos@[k] < keys@.len(),
            r@ == pos@.take(i as int).map_values(|k: usize| ids@[k as int]),
        decreases pos.len() - i,
    {
        r.push(ids[pos[i]]);
        proof {
            assert(pos@.take(i as int + 1).map_values(|k: usize| ids@[k as int]) =~= pos@.take(
                i as int,
            ).map_values(|k: usize| ids@[k as int]).push(ids@[pos@[i as int] as int]));
        }
        i = i + 1;
    }
    proof {
        assert(pos@.take(pos@.len() as int) =~= pos@);
        assert forall|k: int| 0 <= k < r@.len() implies ids@.contains(#[trigger] r@[k]) by {
            assert(r@[k] == ids@[pos@[k] as int]);
        }
    }
    r
}

/// Ranking lists every position exactly once, each no later than the ones
/// after it in key order.
pub proof fn law_rank_order(keys: Seq<KeyView>)
    requires
        keys.len() <= usize::MAX,
    ensures
        rank_order(keys).len() == keys.len(),
        forall|k: int| 0 <= k < rank_order(keys).len() ==> #[trigger] rank_order(keys)[k] < keys.len(),
        forall|x: usize| x < keys.len() ==> #[trigger] rank_order(keys).contains(x),
        rank_order(keys).no_duplicates(),
        forall|a: int, b: int|
            0 <= a < b < rank_order(keys).len() ==> idx_leq(keys, #[trigger] rank_order(keys)[a], #[trigger] rank_order(keys)[b]),
{
    let leq = |x: usize, y: usize| idx_leq(keys, x, y);
    let p = positions(keys.len());
    let o = rank_order(keys);
    lemma_idx_leq_total(keys);
    p.lemma_sort_by_ensures(leq);
    assert(o.len() == keys.len()) by {
        vstd::seq_lib::to_multiset_len(o);
        vstd::seq_lib::to_multiset_len(p);
    }
    assert forall|k: int| 0 <= k < o.len() implies #[trigger] o[k] < keys.len() by {
        assert(o.contains(o[k]));
        assert(p.to_multiset().count(o[k]) > 0);
        assert(p.contains(o[k]));
    }
    assert forall|x: usize| x < keys.len() implies #[trigger] o.contains(x) by {
        assert(p[x as int] == x);
        assert(p.contains(x));
        assert(o.to_multiset().count(x) > 0);
    }
    assert(p.no_duplicates());
    p.lemma_multiset_has_no_duplicates();
    o.lemma_multiset_has_no_duplicates_conv();
    assert forall|a: int, b: int| 0 <= a < b < o.len() implies idx_leq(keys, #[trigger] o[a], #[trigger] o[b]) by {
        assert(sorted_by(o, leq));
        assert(leq(o[a], o[b]));
    }
}

/// Sorting is deterministic: any two arrangements of the positions that
/// both follow key order are the same arrangement.
pub proof fn law_rank_order_unique(keys: Seq<KeyView>, a: Seq<usize>, b: Seq<usize>)
    requires
        sorted_by(a, |x: usize, y: usize| idx_leq(keys, x, y)),
        sorted_by(b, |x: usize, y: usize| idx_leq(keys, x, y)),
        a.to_multiset() == positions(keys.len()).to_multiset(),
        b.to_multiset() == positions(keys.len()).to_multiset(),
    ensures
        a == b,
{
    lemma_idx_leq_total(keys);
    vstd::seq_lib::lemma_sorted_unique(a, b, |x: usize, y: usize| idx_leq(keys, x, y));
}

} // verus!
