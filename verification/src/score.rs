//! Fuzzy matching: subsequence scores, character-bigram overlap (the counts
//! behind the Sørensen–Dice similarity) and the rankings built from them.
//!
//! Scores are defined over mathematical integers. The functions return them
//! as `i32`, truncated the way `i32` arithmetic wraps, so a result equals the
//! exact score whenever that fits.

use vstd::prelude::*;
use vstd::multiset::Multiset;
use crate::text::{ascii_lower, char_lowercase, chars_eq, chars_of, contains_seq, lowercase, to_ascii_lower, to_lowercase};
use crate::path::components;


verus! {

/// A separator that starts a new word inside a name.
pub open spec fn is_boundary(c: char) -> bool {
    c == '/' || c == ' ' || c == '_' || c == '-' || c == '.'
}

pub fn is_word_boundary(c: char) -> (r: bool)
    ensures
        r == is_boundary(c),
{
    c == '/' || c == ' ' || c == '_' || c == '-' || c == '.'
}

/// An optional exact score, as the `i32` that carries it.
pub open spec fn as_i32(o: Option<int>) -> Option<i32> {
    match o {
        Some(s) => Some(s as i32),
        None => None,
    }
}

/// The first index at or after `from` holding `c`, or -1.
pub open spec fn first_at(h: Seq<char>, c: char, from: int) -> int
    decreases h.len() - from,
{
    if from < 0 || from >= h.len() {
        -1
    } else if h[from] == c {
        from
    } else {
        first_at(h, c, from + 1)
    }
}

proof fn lemma_first_at(h: Seq<char>, c: char, from: int)
    requires
        0 <= from,
    ensures
        first_at(h, c, from) == -1 || (from <= first_at(h, c, from) < h.len() && h[first_at(
            h,
            c,
            from,
        )] == c),
    decreases h.len() - from,
{
    if from < h.len() && h[from] != c {
        lemma_first_at(h, c, from + 1);
    }
}

/// What matching the needle character at `pos` adds: a run bonus when it
/// follows the previous match, a word-start bonus, and a small penalty for
/// matching late.
pub open spec fn match_bonus(h: Seq<char>, pos: int, last: int) -> int {
    (if pos == last + 1 {
        6int
    } else {
        0int
    }) + (if pos == 0 || is_boundary(h[pos - 1]) {
        10int
    } else {
        0int
    }) - pos / 4
}

/// Greedy leftmost subsequence scan of `n[k..]` through `h[from..]`; `last`
/// is the position of the previous match. `None` if `n[k..]` is not a
/// subsequence of `h[from..]`.
pub open spec fn scan_score(n: Seq<char>, h: Seq<char>, k: int, from: int, last: int) -> Option<
    int,
>
    decreases n.len() - k,
{
    if k >= n.len() || k < 0 {
        Some(0)
    } else {
        let p = first_at(h, n[k], from);
        if p < 0 {
            None
        } else {
            match scan_score(n, h, k + 1, p + 1, p) {
                Some(s) => Some(s + match_bonus(h, p, last)),
                None => None,
            }
        }
    }
}

/// The subsequence score of needle `n` in haystack `h` (both already
/// lowercased): rewards contiguous runs and word starts, penalizes late
/// matches and long haystacks. `None` if `n` is not a subsequence of `h`.
pub open spec fn subsequence_score(n: Seq<char>, h: Seq<char>) -> Option<int> {
    if n.len() == 0 {
        Some(0)
    } else {
        match scan_score(n, h, 0, 0, -2) {
            Some(s) => Some(s - h.len() / 8),
            None => None,
        }
    }
}

/// `ix` places the characters of `n`, in order, at increasing positions of
/// `h`.
pub open spec fn embeds(n: Seq<char>, h: Seq<char>, ix: Seq<int>) -> bool {
    &&& ix.len() == n.len()
    &&& forall|k: int| 0 <= k < n.len() ==> 0 <= #[trigger] ix[k] < h.len() && h[ix[k]] == n[k]
    &&& forall|k: int, j: int| 0 <= k < j < n.len() ==> #[trigger] ix[k] < #[trigger] ix[j]
}

/// `n` is a subsequence of `h`.
pub open spec fn is_subsequence(n: Seq<char>, h: Seq<char>) -> bool {
    exists|ix: Seq<int>| embeds(n, h, ix)
}

proof fn lemma_first_at_le(h: Seq<char>, c: char, from: int, j: int)
    requires
        0 <= from <= j < h.len(),
        h[j] == c,
    ensures
        from <= first_at(h, c, from) <= j,
        h[first_at(h, c, from)] == c,
    decreases j - from,
{
    if h[from] != c {
        lemma_first_at_le(h, c, from + 1, j);
    }
}

/// The positions the greedy scan matches `n[k..]` at, from `h[from..]`.
spec fn scan_positions(n: Seq<char>, h: Seq<char>, k: int, from: int) -> Seq<int>
    decreases n.len() - k,
{
    if k >= n.len() || k < 0 {
        Seq::empty()
    } else {
        let p = first_at(h, n[k], from);
        seq![p] + scan_positions(n, h, k + 1, p + 1)
    }
}

proof fn lemma_scan_complete(n: Seq<char>, h: Seq<char>, ix: Seq<int>, k: int, from: int, last: int)
    requires
        embeds(n, h, ix),
        0 <= k <= n.len(),
        0 <= from,
        k < n.len() ==> ix[k] >= from,
    ensures
        scan_score(n, h, k, from, last) is Some,
    decreases n.len() - k,
{
    if k < n.len() {
        lemma_first_at_le(h, n[k], from, ix[k]);
        let p = first_at(h, n[k], from);
        if k + 1 < n.len() {
            assert(ix[k] < ix[k + 1]);
        }
        lemma_scan_complete(n, h, ix, k + 1, p + 1, p);
    }
}

proof fn lemma_scan_sound(n: Seq<char>, h: Seq<char>, k: int, from: int, last: int)
    requires
        0 <= k <= n.len(),
        0 <= from,
        scan_score(n, h, k, from, last) is Some,
    ensures
        ({
            let ps = scan_positions(n, h, k, from);
            &&& ps.len() == n.len() - k
            &&& forall|m: int| 0 <= m < ps.len() ==> from <= #[trigger] ps[m] < h.len() && h[ps[m]] == n[k + m]
            &&& forall|m: int, j: int| 0 <= m < j < ps.len() ==> #[trigger] ps[m] < #[trigger] ps[j]
        }),
    decreases n.len() - k,
{
    if k < n.len() {
        let p = first_at(h, n[k], from);
        lemma_first_at(h, n[k], from);
        lemma_scan_sound(n, h, k + 1, p + 1, p);
        let rest = scan_positions(n, h, k + 1, p + 1);
        let ps = scan_positions(n, h, k, from);
        assert(ps =~= seq![p] + rest);
        assert forall|m: int| 0 <= m < ps.len() implies from <= #[trigger] ps[m] < h.len() && h[ps[m]] == n[k + m] by {
            if m > 0 {
                assert(ps[m] == rest[m - 1]);
            }
        }
        assert forall|m: int, j: int| 0 <= m < j < ps.len() implies #[trigger] ps[m] < #[trigger] ps[j] by {
            assert(ps[j] == rest[j - 1]);
            if m > 0 {
                assert(ps[m] == rest[m - 1]);
            }
        }
    } else {
        assert(scan_positions(n, h, k, from) =~= Seq::<int>::empty());
    }
}

/// The fuzzy score exists exactly when the needle is a subsequence of the
/// haystack.
pub proof fn law_fuzzy_scores_subsequences(n: Seq<char>, h: Seq<char>)
    ensures
        subsequence_score(n, h) is Some <==> is_subsequence(n, h),
{
    if n.len() == 0 {
        let e = Seq::<int>::empty();
        assert(embeds(n, h, e));
    } else {
        if subsequence_score(n, h) is Some {
            lemma_scan_sound(n, h, 0, 0, -2);
            let ps = scan_positions(n, h, 0, 0);
            assert(embeds(n, h, ps));
        }
        if is_subsequence(n, h) {
            let ix = choose|ix: Seq<int>| embeds(n, h, ix);
            lemma_scan_complete(n, h, ix, 0, 0, -2);
        }
    }
}

/// The positions the index scan matches `q[qi..]` at, from `name[i..]`.
spec fn index_positions(q: Seq<char>, name: Seq<char>, i: int, qi: int) -> Seq<int>
    decreases name.len() - i,
{
    if qi >= q.len() || i < 0 || i >= name.len() {
        Seq::empty()
    } else if ascii_lower(name[i]) == q[qi] {
        seq![i] + index_positions(q, name, i + 1, qi + 1)
    } else {
        index_positions(q, name, i + 1, qi)
    }
}

proof fn lemma_index_complete(q: Seq<char>, name: Seq<char>, ix: Seq<int>, i: int, qi: int, last: int)
    requires
        embeds(q, ascii_lowered(name), ix),
        0 <= i,
        0 <= qi <= q.len(),
        qi < q.len() ==> ix[qi] >= i,
    ensures
        index_scan(q, name, i, qi, last) is Some,
    decreases name.len() - i,
{
    let l = ascii_lowered(name);
    if qi < q.len() {
        assert(ix[qi] < l.len());
        assert(l[ix[qi]] == q[qi]);
        if qi + 1 < q.len() {
            assert(ix[qi] < ix[qi + 1]);
        }
        if ascii_lower(name[i]) == q[qi] {
            lemma_index_complete(q, name, ix, i + 1, qi + 1, i);
        } else {
            assert(l[i] == ascii_lower(name[i]));
            lemma_index_complete(q, name, ix, i + 1, qi, last);
        }
    }
}

proof fn lemma_index_sound(q: Seq<char>, name: Seq<char>, i: int, qi: int, last: int)
    requires
        0 <= i,
        0 <= qi <= q.len(),
        index_scan(q, name, i, qi, last) is Some,
    ensures
        ({
            let ps = index_positions(q, name, i, qi);
            let l = ascii_lowered(name);
            &&& ps.len() == q.len() - qi
            &&& forall|m: int| 0 <= m < ps.len() ==> i <= #[trigger] ps[m] < name.len() && l[ps[m]] == q[qi + m]
            &&& forall|m: int, j: int| 0 <= m < j < ps.len() ==> #[trigger] ps[m] < #[trigger] ps[j]
        }),
    decreases name.len() - i,
{
    let l = ascii_lowered(name);
    let ps = index_positions(q, name, i, qi);
    if qi >= q.len() {
        assert(ps =~= Seq::<int>::empty());
    } else if ascii_lower(name[i]) == q[qi] {
        lemma_index_sound(q, name, i + 1, qi + 1, i);
        let rest = index_positions(q, name, i + 1, qi + 1);
        assert(ps =~= seq![i] + rest);
        assert forall|m: int| 0 <= m < ps.len() implies i <= #[trigger] ps[m] < name.len() && l[ps[m]] == q[qi + m] by {
            if m > 0 {
                assert(ps[m] == rest[m - 1]);
            }
        }
        assert forall|m: int, j: int| 0 <= m < j < ps.len() implies #[trigger] ps[m] < #[trigger] ps[j] by {
            assert(ps[j] == rest[j - 1]);
            if m > 0 {
                assert(ps[m] == rest[m - 1]);
            }
        }
    } else {
        lemma_index_sound(q, name, i + 1, qi, last);
    }
}

/// The index scores a name exactly when the query is a subsequence of the
/// name with each character ASCII-lowercased.
pub proof fn law_index_scores_subsequences(q: Seq<char>, name: Seq<char>)
    ensures
        index_name_score(q, name) is Some <==> is_subsequence(q, ascii_lowered(name)),
{
    let l = ascii_lowered(name);
    if index_name_score(q, name) is Some {
        lemma_index_sound(q, name, 0, 0, -2);
        let ps = index_positions(q, name, 0, 0);
        assert(embeds(q, l, ps));
    }
    if is_subsequence(q, l) {
        let ix = choose|ix: Seq<int>| embeds(q, l, ix);
        lemma_index_complete(q, name, ix, 0, 0, -2);
    }
}

const QUARTER: i128 = 0x4000_0000_0000_0000;

/// Bounds on the scan scores: a quarter of each of at most `usize::MAX`
/// positions below, 16 per matched character above.
const SCORE_LOW: i128 = -0x4000_0000_0000_0000_4000_0000_0000_0000;

const SCORE_HIGH: i128 = 0x40_0000_0000_0000_0000;

fn subsequence_score_exec(n: &Vec<char>, h: &Vec<char>) -> (r: Option<i128>)
    ensures
        match subsequence_score(n@, h@) {
            Some(s) => r is Some && r.unwrap() as int == s,
            None => r is None,
        },
        r matches Some(v) ==> SCORE_LOW <= v <= SCORE_HIGH,
{
    if n.len() == 0 {
        return Some(0);
    }
    let ghost total = scan_score(n@, h@, 0, 0, -2);
    let mut hi: usize = 0;
    let mut score: i128 = 0;
    let mut last: i128 = -2;
    let mut k: usize = 0;
    while k < n.len()
        invariant
            k <= n@.len(),
            n@.len() > 0,
            total == scan_score(n@, h@, 0, 0, -2),
            hi <= h@.len(),
            k <= hi,
            h@.len() == h.len(),
            last == -2 || (0 <= last && last + 1 == hi),
            k == 0 ==> (hi == 0 && last == -2),
            -(k as int) * (QUARTER as int) <= score <= 16 * (k as int),
            match scan_score(n@, h@, k as int, hi as int, last as int) {
                Some(rest) => total == Some(rest + score),
                None => total is None,
            },
        decreases n.len() - k,
    {
        let c = n[k];
        let mut p = hi;
        while p < h.len() && h[p] != c
            invariant
                hi <= p <= h@.len(),
                h@.len() == h.len(),
                first_at(h@, c, p as int) == first_at(h@, c, hi as int),
            decreases h.len() - p,
        {
            p = p + 1;
        }
        if p == h.len() {
            proof {
                assert(first_at(h@, c, hi as int) == -1);
                assert(total is None);
                assert(subsequence_score(n@, h@) is None);
            }
            return None;
        }
        proof {
            lemma_first_at(h@, c, hi as int);
        }
        let mut bonus: i128 = 0;
        if p as i128 == last + 1 {
            bonus = bonus + 6;
        }
        if p == 0 || is_word_boundary(h[p - 1]) {
            bonus = bonus + 10;
        }
        bonus = bonus - (p / 4) as i128;
        proof {
            assert(bonus as int == match_bonus(h@, p as int, last as int));
            assert((p / 4) as int <= QUARTER as int);
        }
        score = score + bonus;
        last = p as i128;
        hi = p + 1;
        k = k + 1;
    }
    proof {
        assert(total == Some(score as int));
        assert(subsequence_score(n@, h@) == Some(score - (h@.len() as int) / 8));
    }
    let tail = (h.len() / 8) as i128;
    Some(score - tail)
}

/// The lowercased characters of a string (`str::to_lowercase`).
pub fn lower_chars(s: &str) -> (r: Vec<char>)
    ensures
        r@ == lowercase(s@),
{
    let l = to_lowercase(s);
    chars_of(l.as_str())
}

/// Case-insensitive subsequence score of `needle` in `haystack`; `None` if
/// `needle` is not a subsequence. Both are lowercased first.
pub fn fuzzy_score(needle: &str, haystack: &str) -> (r: Option<i32>)
    ensures
        r == as_i32(subsequence_score(lowercase(needle@), lowercase(haystack@))),
{
    let n = lower_chars(needle);
    let h = lower_chars(haystack);
    match subsequence_score_exec(&n, &h) {
        Some(s) => Some(s as i32),
        None => None,
    }
}

/// The name scan of the in-memory index: `q` (already lowercased) against
/// `name` compared ASCII-case-insensitively, from character `i` with `qi`
/// query characters matched and the previous match at `last`.
pub open spec fn index_scan(q: Seq<char>, name: Seq<char>, i: int, qi: int, last: int) -> Option<
    int,
>
    decreases name.len() - i,
{
    if qi >= q.len() || i < 0 {
        Some(-(i / 8))
    } else if i >= name.len() {
        None
    } else if ascii_lower(name[i]) == q[qi] {
        match index_scan(q, name, i + 1, qi + 1, i) {
            Some(s) => Some(s + match_bonus(name, i, last)),
            None => None,
        }
    } else {
        index_scan(q, name, i + 1, qi, last)
    }
}

/// Subsequence score used by the file index: `None` if `q` is not a
/// subsequence of `name` (ASCII-lowercased).
pub open spec fn index_name_score(q: Seq<char>, name: Seq<char>) -> Option<int> {
    index_scan(q, name, 0, 0, -2)
}

fn index_score_exec(q: &Vec<char>, name: &Vec<char>) -> (r: Option<i128>)
    ensures
        match index_name_score(q@, name@) {
            Some(s) => r is Some && r.unwrap() as int == s,
            None => r is None,
        },
        r matches Some(v) ==> SCORE_LOW <= v <= SCORE_HIGH,
{
    let ghost total = index_name_score(q@, name@);
    let mut qi: usize = 0;
    let mut score: i128 = 0;
    let mut last: i128 = -2;
    let mut i: usize = 0;
    while i < name.len() && qi < q.len()
        invariant
            i <= name@.len(),
            qi <= q@.len(),
            qi <= i,
            name@.len() == name.len(),
            last == -2 || (0 <= last < i),
            -(qi as int) * (QUARTER as int) <= score <= 16 * (qi as int),
            match index_scan(q@, name@, i as int, qi as int, last as int) {
                Some(rest) => total == Some(rest + score),
                None => total is None,
            },
        decreases name.len() - i,
    {
        let ch = name[i];
        if to_ascii_lower(ch) == q[qi] {
            let mut bonus: i128 = 0;
            if i as i128 == last + 1 {
                bonus = bonus + 6;
            }
            if i == 0 || is_word_boundary(name[i - 1]) {
                bonus = bonus + 10;
            }
            bonus = bonus - (i / 4) as i128;
            proof {
                assert(bonus as int == match_bonus(name@, i as int, last as int));
                assert((i / 4) as int <= QUARTER as int);
            }
            score = score + bonus;
            last = i as i128;
            qi = qi + 1;
        }
        i = i + 1;
    }
    if qi < q.len() {
        return None;
    }
    proof {
        assert(total == Some(score - (i as int) / 8));
    }
    Some(score - (i / 8) as i128)
}

/// The in-memory index's subsequence score of `query` (already lowercased)
/// against `name`; `None` if `query` is not a subsequence of `name`.
pub fn index_score(query: &Vec<char>, name: &str) -> (r: Option<i32>)
    ensures
        r == as_i32(index_name_score(query@, name@)),
{
    let cs = chars_of(name);
    match index_score_exec(query, &cs) {
        Some(s) => Some(s as i32),
        None => None,
    }
}

// ----- bigram overlap -----------------------------------------------------

pub type Bigram = (char, char);

/// Adjacent character pairs of `s` (`windows(2)`).
pub open spec fn bigrams(s: Seq<char>) -> Seq<Bigram> {
    Seq::new(if s.len() >= 1 { (s.len() - 1) as nat } else { 0 }, |i: int| (s[i], s[i + 1]))
}

pub fn bigrams_of(s: &Vec<char>) -> (r: Vec<Bigram>)
    ensures
        r@ == bigrams(s@),
{
    let mut r: Vec<Bigram> = Vec::new();
    if s.len() < 2 {
        assert(r@ =~= bigrams(s@));
        return r;
    }
    let mut i: usize = 0;
    while i + 1 < s.len()
        invariant
            i + 1 <= s@.len(),
            r@ == bigrams(s@).take(i as int),
        decreases s.len() - i,
    {
        r.push((s[i], s[i + 1]));
        proof {
            assert(bigrams(s@).take(i as int + 1) =~= bigrams(s@).take(i as int).push(
                (s@[i as int], s@[i as int + 1]),
            ));
        }
        i = i + 1;
    }
    assert(bigrams(s@).take(i as int) =~= bigrams(s@));
    r
}

/// How many bigrams the two sequences share, counted with multiplicity.
pub open spec fn shared_count(a: Seq<Bigram>, b: Seq<Bigram>) -> nat {
    a.to_multiset().intersection_with(b.to_multiset()).len()
}

/// The bigrams of `b[..n]` not yet marked used.
pub open spec fn avail(b: Seq<Bigram>, used: Seq<bool>, n: int) -> Multiset<Bigram>
    decreases n,
{
    if n <= 0 {
        Multiset::empty()
    } else if used[n - 1] {
        avail(b, used, n - 1)
    } else {
        avail(b, used, n - 1).insert(b[n - 1])
    }
}

proof fn lemma_avail_all(b: Seq<Bigram>, used: Seq<bool>, n: int)
    requires
        0 <= n <= b.len(),
        n <= used.len(),
        forall|k: int| 0 <= k < n ==> !used[k],
    ensures
        avail(b, used, n) == b.take(n).to_multiset(),
    decreases n,
{
    broadcast use vstd::seq_lib::group_to_multiset_ensures;
    broadcast use vstd::multiset::group_multiset_axioms;
    if n > 0 {
        lemma_avail_all(b, used, n - 1);
        assert(b.take(n) =~= b.take(n - 1).push(b[n - 1]));
        assert(b.take(n).to_multiset() == b.take(n - 1).to_multiset().insert(b[n - 1]));
    } else {
        assert(b.take(0) =~= Seq::<Bigram>::empty());
        assert(b.take(0).to_multiset() =~= Multiset::empty());
    }
}

proof fn lemma_avail_mark(b: Seq<Bigram>, used: Seq<bool>, j: int, n: int)
    requires
        0 <= j < used.len(),
        !used[j],
        0 <= n <= used.len(),
    ensures
        j < n ==> avail(b, used.update(j, true), n) == avail(b, used, n).remove(b[j]),
        j < n ==> avail(b, used, n).count(b[j]) >= 1,
        j >= n ==> avail(b, used.update(j, true), n) == avail(b, used, n),
    decreases n,
{
    broadcast use vstd::multiset::group_multiset_axioms;
    if n > 0 {
        lemma_avail_mark(b, used, j, n - 1);
        let u2 = used.update(j, true);
        if n - 1 == j {
            assert(avail(b, u2, n) == avail(b, u2, n - 1));
            assert(avail(b, used, n) == avail(b, used, n - 1).insert(b[j]));
            assert(avail(b, used, n - 1).insert(b[j]).remove(b[j]) =~= avail(b, used, n - 1));
        } else if j < n - 1 {
            assert(u2[n - 1] == used[n - 1]);
            if !used[n - 1] {
                let m = avail(b, used, n - 1);
                assert(m.remove(b[j]).insert(b[n - 1]) =~= m.insert(b[n - 1]).remove(b[j]));
            }
        } else {
            assert(u2[n - 1] == used[n - 1]);
        }
    }
}

proof fn lemma_avail_none(b: Seq<Bigram>, used: Seq<bool>, g: Bigram, n: int)
    requires
        0 <= n <= used.len(),
        n <= b.len(),
        forall|k: int| 0 <= k < n ==> used[k] || b[k] != g,
    ensures
        avail(b, used, n).count(g) == 0,
    decreases n,
{
    broadcast use vstd::multiset::group_multiset_axioms;
    if n > 0 {
        lemma_avail_none(b, used, g, n - 1);
    }
}

/// Counts the bigrams `a` and `b` share (with multiplicity) by greedily
/// pairing each bigram of `a` with the first unused equal bigram of `b`.
pub fn overlap_count(a: &Vec<Bigram>, b: &Vec<Bigram>) -> (r: usize)
    ensures
        r == shared_count(a@, b@),
{
    broadcast use vstd::multiset::group_multiset_axioms;
    broadcast use vstd::multiset::group_multiset_properties;
    broadcast use vstd::seq_lib::group_to_multiset_ensures;
    let ghost bm = b@.to_multiset();
    let mut used: Vec<bool> = Vec::new();
    let mut z: usize = 0;
    while z < b.len()
        invariant
            z <= b@.len(),
            used@.len() == z,
            forall|k: int| 0 <= k < z ==> !used@[k],
        decreases b.len() - z,
    {
        used.push(false);
        z = z + 1;
    }
    proof {
        lemma_avail_all(b@, used@, b@.len() as int);
        assert(b@.take(b@.len() as int) =~= b@);
        assert(a@.take(0) =~= Seq::<Bigram>::empty());
        assert(a@.take(0).to_multiset() =~= Multiset::empty());
        assert(a@.take(0).to_multiset().intersection_with(bm) =~= Multiset::empty());
        assert(Multiset::<Bigram>::empty().add(avail(b@, used@, b@.len() as int)) =~= bm);
    }
    let ghost mut matched: Multiset<Bigram> = Multiset::empty();
    let mut inter: usize = 0;
    let mut i: usize = 0;
    while i < a.len()
        invariant
            i <= a@.len(),
            used@.len() == b@.len(),
            bm == b@.to_multiset(),
            matched == a@.take(i as int).to_multiset().intersection_with(bm),
            matched.add(avail(b@, used@, b@.len() as int)) == bm,
            inter == matched.len(),
            inter <= i,
        decreases a.len() - i,
    {
        let g = a[i];
        let ghost av = avail(b@, used@, b@.len() as int);
        let ghost pm = a@.take(i as int).to_multiset();
        proof {
            assert(a@.take(i as int + 1) =~= a@.take(i as int).push(g));
            vstd::seq_lib::to_multiset_build(a@.take(i as int), g);
            assert(a@.take(i as int).push(g).to_multiset() == pm.insert(g));
            assert(a@.take(i as int + 1).to_multiset() == pm.insert(g));
        }
        let mut j: usize = 0;
        while j < b.len() && (used[j] || b[j].0 != g.0 || b[j].1 != g.1)
            invariant
                j <= b@.len(),
                used@.len() == b@.len(),
                forall|k: int| 0 <= k < j ==> used@[k] || b@[k] != g,
            decreases b.len() - j,
        {
            proof {
                if !used@[j as int] && b@[j as int] != g {
                    assert(b@[j as int].0 != g.0 || b@[j as int].1 != g.1);
                }
            }
            j = j + 1;
        }
        if j < b.len() {
            proof {
                assert(b@[j as int] == g);
                lemma_avail_mark(b@, used@, j as int, b@.len() as int);
                let m2 = matched.insert(g);
                assert(av.count(g) >= 1);
                assert(matched.count(g) + av.count(g) == bm.count(g));
                vstd::multiset::lemma_intersection_count(pm, bm, g);
                assert(pm.intersection_with(bm).count(g) == if pm.count(g) <= bm.count(g) {
                    pm.count(g)
                } else {
                    bm.count(g)
                });
                assert(matched.count(g) == if pm.count(g) <= bm.count(g) {
                    pm.count(g)
                } else {
                    bm.count(g)
                });
                assert forall|x: Bigram| #[trigger] m2.count(x) == pm.insert(g).intersection_with(
                    bm,
                ).count(x) by {
                    vstd::multiset::lemma_intersection_count(pm.insert(g), bm, x);
                    vstd::multiset::lemma_intersection_count(pm, bm, x);
                }
                assert(m2 =~= pm.insert(g).intersection_with(bm));
                assert(m2.add(av.remove(g)) =~= bm);
                matched = m2;
            }
            used.set(j, true);
            inter = inter + 1;
        } else {
            proof {
                lemma_avail_none(b@, used@, g, b@.len() as int);
                vstd::multiset::lemma_intersection_count(pm, bm, g);
                assert(pm.intersection_with(bm).count(g) == if pm.count(g) <= bm.count(g) {
                    pm.count(g)
                } else {
                    bm.count(g)
                });
                assert(matched.count(g) == bm.count(g));
                assert forall|x: Bigram| #[trigger] matched.count(x) == pm.insert(g).intersection_with(
                    bm,
                ).count(x) by {
                    vstd::multiset::lemma_intersection_count(pm.insert(g), bm, x);
                    vstd::multiset::lemma_intersection_count(pm, bm, x);
                }
                assert(matched =~= pm.insert(g).intersection_with(bm));
            }
        }
        i = i + 1;
    }
    proof {
        assert(a@.take(a@.len() as int) =~= a@);
    }
    inter
}

/// The integers behind a Sørensen–Dice similarity, which is
/// `2 * shared / (size_a + size_b)`.
pub struct Overlap {
    pub shared: usize,
    pub size_a: usize,
    pub size_b: usize,
}

/// The Dice counts of two strings (taken as they are, not lowercased): the
/// shared bigrams and the bigram counts of each; when either has no bigram,
/// counts whose similarity is 1 for equal strings and 0 otherwise.
pub open spec fn dice_counts(a: Seq<char>, b: Seq<char>) -> (nat, nat, nat) {
    let ba = bigrams(a);
    let bb = bigrams(b);
    if ba.len() == 0 || bb.len() == 0 {
        if a == b {
            (1nat, 1nat, 1nat)
        } else {
            (0nat, 1nat, 0nat)
        }
    } else {
        (shared_count(ba, bb), ba.len(), bb.len())
    }
}

pub fn dice_overlap_chars(a: &Vec<char>, b: &Vec<char>) -> (r: Overlap)
    ensures
        (r.shared as nat, r.size_a as nat, r.size_b as nat) == dice_counts(a@, b@),
{
    let ba = bigrams_of(a);
    let bb = bigrams_of(b);
    if ba.len() == 0 || bb.len() == 0 {
        if chars_eq(a, b) {
            return Overlap { shared: 1, size_a: 1, size_b: 1 };
        } else {
            return Overlap { shared: 0, size_a: 1, size_b: 0 };
        }
    }
    let shared = overlap_count(&ba, &bb);
    Overlap { shared, size_a: ba.len(), size_b: bb.len() }
}

/// The Dice counts of two strings, as `dice` in the palette compares them.
pub fn dice_overlap(a: &str, b: &str) -> (r: Overlap)
    ensures
        (r.shared as nat, r.size_a as nat, r.size_b as nat) == dice_counts(a@, b@),
{
    let ac = chars_of(a);
    let bc = chars_of(b);
    dice_overlap_chars(&ac, &bc)
}

proof fn lemma_shared_bounds(a: Seq<Bigram>, b: Seq<Bigram>)
    ensures
        shared_count(a, b) == shared_count(b, a),
        shared_count(a, b) <= a.len(),
        shared_count(a, b) <= b.len(),
        shared_count(a, a) == a.len(),
{
    broadcast use vstd::multiset::group_multiset_axioms;
    broadcast use vstd::seq_lib::group_to_multiset_ensures;
    let ma = a.to_multiset();
    let mb = b.to_multiset();
    assert forall|x: Bigram| #[trigger] ma.intersection_with(mb).count(x) == mb.intersection_with(
        ma,
    ).count(x) by {
        vstd::multiset::lemma_intersection_count(ma, mb, x);
        vstd::multiset::lemma_intersection_count(mb, ma, x);
    }
    assert(ma.intersection_with(mb) =~= mb.intersection_with(ma));
    assert forall|x: Bigram| #[trigger] ma.intersection_with(ma).count(x) == ma.count(x) by {
        vstd::multiset::lemma_intersection_count(ma, ma, x);
    }
    assert(ma.intersection_with(ma) =~= ma);
    assert forall|x: Bigram| #[trigger] ma.intersection_with(mb).count(x) <= ma.count(x) by {
        vstd::multiset::lemma_intersection_count(ma, mb, x);
    }
    assert forall|x: Bigram| #[trigger] mb.intersection_with(ma).count(x) <= mb.count(x) by {
        vstd::multiset::lemma_intersection_count(mb, ma, x);
    }
    assert(ma.intersection_with(mb).subset_of(ma));
    assert(mb.intersection_with(ma).subset_of(mb));
    assert(ma.sub(ma.intersection_with(mb)).len() == ma.len() - ma.intersection_with(mb).len());
    assert(mb.sub(mb.intersection_with(ma)).len() == mb.len() - mb.intersection_with(ma).len());
}

/// Dice similarity is symmetric and lies in `[0, 1]`, and a string is
/// perfectly similar to itself: the shared count and the total bigram count
/// do not depend on the order of the two strings, the total is never zero,
/// twice the shared count never exceeds it, and for equal strings the two
/// are equal.
pub proof fn law_dice_symmetric_bounded(a: Seq<char>, b: Seq<char>)
    ensures
        dice_counts(a, b).0 == dice_counts(b, a).0,
        dice_counts(a, b).1 + dice_counts(a, b).2 == dice_counts(b, a).1 + dice_counts(b, a).2,
        dice_counts(a, b).1 + dice_counts(a, b).2 > 0,
        2 * dice_counts(a, b).0 <= dice_counts(a, b).1 + dice_counts(a, b).2,
        2 * dice_counts(a, a).0 == dice_counts(a, a).1 + dice_counts(a, a).2,
{
    lemma_shared_bounds(bigrams(a), bigrams(b));
}


// ----- rankings -----------------------------------------------------------

/// Length in bytes of the UTF-8 encoding of `s` (`str::len`).
pub open spec fn byte_len(s: Seq<char>) -> int {
    (vstd::utf8::encode_utf8(s).len() as usize) as int
}

fn byte_len_of(s: &String) -> (r: usize)
    ensures
        r as int == byte_len(s@),
{
    s.as_str().len()
}

/// The lowercased name without its last `.extension` (`rsplit_once('.')`).
pub open spec fn stem(nl: Seq<char>) -> Seq<char> {
    let k = crate::path::last_index_of(nl, '.', nl.len() as int);
    if k >= 0 {
        nl.take(k)
    } else {
        nl
    }
}

/// Exact score of an index entry: the subsequence gate, then bonuses for an
/// exact name, an exact stem, a prefix or a substring, a penalty for name
/// characters beyond the query's, a penalty per path component, and a bonus
/// for directories. `q` is the lowercased query.
pub open spec fn entry_score(q: Seq<char>, name: Seq<char>, path: Seq<char>, is_dir: bool) -> Option<
    int,
> {
    match index_name_score(q, name) {
        None => None,
        Some(base) => {
            let nl = lowercase(name);
            let exact = if nl == q {
                100_000int
            } else if stem(nl) == q {
                60_000int
            } else {
                0int
            };
            let part = if q.is_prefix_of(nl) {
                5_000int
            } else if contains_seq(nl, q) {
                1_500int
            } else {
                0int
            };
            let cover = if name.len() > q.len() {
                (name.len() - q.len()) * 4
            } else {
                0int
            };
            Some(base + exact + part - cover - components(path).len() * 8 + if is_dir {
                40int
            } else {
                0int
            })
        },
    }
}

proof fn lemma_index_scan_upper(q: Seq<char>, name: Seq<char>, i: int, qi: int, last: int)
    requires
        0 <= i <= name.len(),
        0 <= qi,
    ensures
        index_scan(q, name, i, qi, last) matches Some(s) ==> s <= 16 * (name.len() - i),
    decreases name.len() - i,
{
    if qi < q.len() && i < name.len() {
        if ascii_lower(name[i]) == q[qi] {
            lemma_index_scan_upper(q, name, i + 1, qi + 1, i);
        } else {
            lemma_index_scan_upper(q, name, i + 1, qi, last);
        }
    }
}

proof fn lemma_index_scan_lower(q: Seq<char>, name: Seq<char>, i: int, qi: int, last: int)
    requires
        0 <= i <= name.len(),
        name.len() <= 255,
        0 <= qi,
    ensures
        index_scan(q, name, i, qi, last) matches Some(s) ==> s >= -64 * (name.len() - i) - 32,
    decreases name.len() - i,
{
    if qi < q.len() && i < name.len() {
        if ascii_lower(name[i]) == q[qi] {
            lemma_index_scan_lower(q, name, i + 1, qi + 1, i);
        } else {
            lemma_index_scan_lower(q, name, i + 1, qi, last);
        }
    }
}

/// An exact name match always wins: a name whose lowercase form is the
/// query is always scored, and outranks every scored name whose lowercase
/// form is not, whatever their depth, kind, stem or prefix bonuses. This
/// holds for names of at most 255 characters, an exact match at most 100
/// path components deep, and an exact name that `str::to_lowercase` lowers
/// the way the index compares characters (`A`..=`Z` only), as it does every
/// ASCII name.
pub proof fn law_exact_name_wins(
    q: Seq<char>,
    name1: Seq<char>,
    path1: Seq<char>,
    dir1: bool,
    name2: Seq<char>,
    path2: Seq<char>,
    dir2: bool,
)
    requires
        lowercase(name1) == q,
        lowercase(name2) != q,
        name1.len() <= 255,
        name2.len() <= 255,
        components(path1).len() <= 100,
        lowercase(name1) == ascii_lowered(name1),
        entry_score(q, name2, path2, dir2) is Some,
    ensures
        entry_score(q, name1, path1, dir1) is Some,
        entry_score(q, name1, path1, dir1).unwrap() > entry_score(q, name2, path2, dir2).unwrap(),
        components(path2).len() <= 100 ==> as_i32(entry_score(q, name1, path1, dir1)).unwrap()
            > as_i32(entry_score(q, name2, path2, dir2)).unwrap(),
{
    let same = Seq::new(q.len(), |i: int| i);
    assert(embeds(q, ascii_lowered(name1), same));
    law_index_scores_subsequences(q, name1);
    lemma_index_scan_lower(q, name1, 0, 0, -2);
    lemma_index_scan_upper(q, name2, 0, 0, -2);
    lemma_index_scan_lower(q, name2, 0, 0, -2);
    lemma_index_scan_upper(q, name1, 0, 0, -2);
    let nl1 = lowercase(name1);
    assert(q.is_prefix_of(nl1)) by {
        assert(nl1.subrange(0, q.len() as int) =~= q);
    }
    let base1 = index_name_score(q, name1).unwrap();
    let base2 = index_name_score(q, name2).unwrap();
    assert(base1 >= -64 * 255 - 32);
    assert(base2 <= 16 * 255);
    let cover1 = if name1.len() > q.len() {
        (name1.len() - q.len()) * 4
    } else {
        0int
    };
    assert(cover1 <= 1020);
    let s1 = entry_score(q, name1, path1, dir1).unwrap();
    let s2 = entry_score(q, name2, path2, dir2).unwrap();
    assert(s1 <= 16 * 255 + 100_000 + 5_000 + 40);
    if components(path2).len() <= 100 {
        assert(s2 >= -64 * 255 - 32 - 1020 - 800);
        assert(s1 as i32 == s1);
        assert(s2 as i32 == s2);
    }
}

fn stem_chars(nl: &Vec<char>) -> (r: Vec<char>)
    ensures
        r@ == stem(nl@),
{
    let n = nl.len();
    let mut e = n;
    while e > 0 && nl[e - 1] != '.'
        invariant
            e <= nl@.len(),
            n == nl@.len(),
            crate::path::last_index_of(nl@, '.', e as int) == crate::path::last_index_of(
                nl@,
                '.',
                n as int,
            ),
        decreases e,
    {
        e = e - 1;
    }
    if e == 0 {
        return nl.clone();
    }
    let mut r: Vec<char> = Vec::new();
    let mut i: usize = 0;
    while i < e - 1
        invariant
            i <= e - 1,
            e <= nl@.len(),
            r@ == nl@.take(i as int),
        decreases e - 1 - i,
    {
        r.push(nl[i]);
        proof {
            assert(nl@.take(i as int + 1) =~= nl@.take(i as int).push(nl@[i as int]));
        }
        i = i + 1;
    }
    r
}

/// Ranks one candidate for the in-memory index and the Spotlight fallback;
/// `q` is the lowercased query. `None` when `q` is not a subsequence of the
/// name.
pub fn score_entry(q: &Vec<char>, name: &str, path: &str, is_dir: bool) -> (r: Option<i32>)
    ensures
        r == as_i32(entry_score(q@, name@, path@, is_dir)),
{
    let nc = chars_of(name);
    let base = match index_score_exec(q, &nc) {
        Some(b) => b,
        None => return None,
    };
    let nl = lower_chars(name);
    let mut score: i128 = base;
    if chars_eq(&nl, q) {
        score = score + 100_000;
    } else {
        let st = stem_chars(&nl);
        if chars_eq(&st, q) {
            score = score + 60_000;
        }
    }
    if crate::text::starts_with(&nl, q) {
        score = score + 5_000;
    } else if crate::text::contains(&nl, q) {
        score = score + 1_500;
    }
    if nc.len() > q.len() {
        score = score - ((nc.len() - q.len()) as i128) * 4;
    }
    let depth = crate::path::path_depth(path);
    score = score - (depth as i128) * 8;
    if is_dir {
        score = score + 40;
    }
    Some(score as i32)
}

/// What the in-directory filter makes of one entry: a score decided without
/// the Dice similarity, or the Dice counts it falls back on, or no match.
pub enum FindRank {
    Scored(i32),
    /// Matches when `2 * shared / (size_a + size_b) >= 0.5`, scoring
    /// `similarity * 5000 - penalty`.
    Similar { overlap: Overlap, penalty: i32 },
    Miss,
}

/// The filter's view of an entry name `name` for query `q`, over exact
/// integers. The penalty is a quarter of the lowercased name's byte length.
pub open spec fn find_rank(q: Seq<char>, name: Seq<char>) -> (int, Option<int>, Option<(nat, nat, nat)>) {
    let ql = lowercase(q);
    let nl = lowercase(name);
    let pen = byte_len(nl) / 4;
    if nl == ql {
        (0, Some(100_000), None)
    } else if ql.is_prefix_of(nl) {
        (0, Some(50_000 - pen), None)
    } else {
        match subsequence_score(lowercase(ql), lowercase(nl)) {
            Some(fs) => (0, Some(10_000 + fs - pen), None),
            None => {
                let d = dice_counts(ql, nl);
                if bigrams(ql).len() == 0 || bigrams(nl).len() == 0 {
                    (0, None, None)
                } else {
                    (pen, None, Some(d))
                }
            },
        }
    }
}

/// `r` is what the filter makes of `name` for query `q`.
pub open spec fn find_rank_is(r: FindRank, q: Seq<char>, name: Seq<char>) -> bool {
    let (pen, score, dice) = find_rank(q, name);
    match r {
        FindRank::Scored(s) => score matches Some(x) && s == x as i32,
        FindRank::Similar { overlap, penalty } => score is None && dice == Some(
            (overlap.shared as nat, overlap.size_a as nat, overlap.size_b as nat),
        ) && penalty == pen as i32,
        FindRank::Miss => score is None && dice is None,
    }
}

/// Scores one directory entry against the in-directory filter query. Names
/// equal to the query, starting with it, or holding it as a subsequence are
/// scored here; the rest carry their Dice counts (or miss outright when one
/// side has no bigram, where the similarity is 0).
pub fn find_score(q: &str, name: &str) -> (r: FindRank)
    ensures
        find_rank_is(r, q@, name@),
{
    let ql = to_lowercase(q);
    let nl = to_lowercase(name);
    let qc = chars_of(ql.as_str());
    let nc = chars_of(nl.as_str());
    let pen = (byte_len_of(&nl) / 4) as i128;
    if chars_eq(&nc, &qc) {
        return FindRank::Scored(100_000);
    }
    if crate::text::starts_with(&nc, &qc) {
        return FindRank::Scored((50_000 - pen) as i32);
    }
    let q2 = lower_chars(ql.as_str());
    let n2 = lower_chars(nl.as_str());
    match subsequence_score_exec(&q2, &n2) {
        Some(fs) => {
            return FindRank::Scored((10_000 + fs - pen) as i32);
        },
        None => {},
    }
    let bq = bigrams_of(&qc);
    let bn = bigrams_of(&nc);
    if bq.len() == 0 || bn.len() == 0 {
        return FindRank::Miss;
    }
    let overlap = dice_overlap_chars(&qc, &nc);
    FindRank::Similar { overlap, penalty: pen as i32 }
}

proof fn lemma_scan_bounds(n: Seq<char>, h: Seq<char>, k: int, from: int, last: int)
    requires
        0 <= k <= n.len(),
        0 <= from,
    ensures
        scan_score(n, h, k, from, last) matches Some(s) ==> s <= 16 * (n.len() - k),
        h.len() <= 64 ==> (scan_score(n, h, k, from, last) matches Some(s) ==> s >= -16 * (n.len()
            - k)),
    decreases n.len() - k,
{
    if k < n.len() {
        let p = first_at(h, n[k], from);
        lemma_first_at(h, n[k], from);
        if p >= 0 {
            lemma_scan_bounds(n, h, k + 1, p + 1, p);
        }
    }
}

/// The match tier of an entry name in the in-directory filter: 4 for the
/// query itself, 3 for a name starting with it, 2 for a name holding it as
/// a subsequence, 1 for one only compared by Dice similarity (kept when the
/// similarity reaches one half), 0 for a miss. Names and query compare
/// lowercased.
pub open spec fn find_tier(q: Seq<char>, name: Seq<char>) -> int {
    let ql = lowercase(q);
    let nl = lowercase(name);
    if nl == ql {
        4
    } else if ql.is_prefix_of(nl) {
        3
    } else if subsequence_score(lowercase(ql), lowercase(nl)) is Some {
        2
    } else if bigrams(ql).len() > 0 && bigrams(nl).len() > 0 {
        1
    } else {
        0
    }
}

/// The filter's tiers never mix: names in the top three tiers get an exact
/// score, above 5000, which no Dice-tier score (at most 5000 less the
/// penalty) reaches; Dice counts come only for the Dice tier and nothing for
/// a miss; and a name in a higher of the top three tiers scores higher. This
/// holds for a query whose lowercase form lowered again has at most 16
/// characters and names whose lowercase forms take at most 256 bytes and,
/// lowered again, at most 64 characters, as with ASCII names of at most 64
/// characters.
pub proof fn law_find_tiers(q: Seq<char>, n1: Seq<char>, n2: Seq<char>)
    requires
        lowercase(lowercase(q)).len() <= 16,
        byte_len(lowercase(n1)) <= 256,
        byte_len(lowercase(n2)) <= 256,
        lowercase(lowercase(n1)).len() <= 64,
        lowercase(lowercase(n2)).len() <= 64,
    ensures
        find_rank(q, n1).1 is Some <==> find_tier(q, n1) >= 2,
        find_rank(q, n1).2 is Some <==> find_tier(q, n1) == 1,
        find_tier(q, n1) >= 2 ==> find_rank(q, n1).1.unwrap() > 5000,
        find_tier(q, n1) > find_tier(q, n2) >= 2 ==> find_rank(q, n1).1.unwrap() > find_rank(
            q,
            n2,
        ).1.unwrap(),
{
    let qq = lowercase(lowercase(q));
    let h1 = lowercase(lowercase(n1));
    let h2 = lowercase(lowercase(n2));
    if qq.len() > 0 {
        lemma_scan_bounds(qq, h1, 0, 0, -2);
        lemma_scan_bounds(qq, h2, 0, 0, -2);
    }
    let p1 = byte_len(lowercase(n1)) / 4;
    let p2 = byte_len(lowercase(n2)) / 4;
    assert(0 <= p1 <= 64);
    assert(0 <= p2 <= 64);
    if find_tier(q, n1) == 2 {
        let fs = subsequence_score(qq, h1).unwrap();
        assert(-16 * 16 - 8 <= fs <= 16 * 16);
    }
    if find_tier(q, n2) == 2 {
        let fs = subsequence_score(qq, h2).unwrap();
        assert(-16 * 16 - 8 <= fs <= 16 * 16);
    }
}

/// The integer part of the palette's path-mode match score and, unless the
/// partial name is empty, the Dice counts whose similarity times 2000 is
/// added to it.
pub struct MatchParts {
    pub base: i32,
    pub overlap: Option<Overlap>,
}

/// The palette's typo-tolerant score of a partial name against a candidate,
/// without its Dice term: exact, prefix, substring and subsequence bonuses,
/// less a quarter of the lowercased candidate's byte length.
pub open spec fn match_base(partial: Seq<char>, name: Seq<char>) -> int {
    let p = lowercase(partial);
    let n = lowercase(name);
    if p.len() == 0 {
        0
    } else {
        (if n == p {
            10_000int
        } else {
            0int
        }) + (if p.is_prefix_of(n) {
            4_000int
        } else {
            0int
        }) + (if contains_seq(n, p) {
            1_500int
        } else {
            0int
        }) + (match subsequence_score(lowercase(p), lowercase(n)) {
            Some(fs) => 800 + fs,
            None => 0,
        }) - byte_len(n) / 4
    }
}

/// The exact, prefix and substring bonuses of the path-mode score.
fn plain_bonus(p: &Vec<char>, n: &Vec<char>) -> (r: i128)
    ensures
        r == (if n@ == p@ {
            10_000int
        } else {
            0int
        }) + (if p@.is_prefix_of(n@) {
            4_000int
        } else {
            0int
        }) + (if contains_seq(n@, p@) {
            1_500int
        } else {
            0int
        }),
{
    let mut score: i128 = 0;
    if chars_eq(n, p) {
        score = score + 10_000;
    }
    if crate::text::starts_with(n, p) {
        score = score + 4_000;
    }
    if crate::text::contains(n, p) {
        score = score + 1_500;
    }
    score
}

/// The subsequence term of the path-mode score.
fn subsequence_bonus(p: &str, n: &str) -> (r: i128)
    ensures
        r == (match subsequence_score(lowercase(p@), lowercase(n@)) {
            Some(fs) => 800 + fs,
            None => 0,
        }),
        SCORE_LOW <= r <= SCORE_HIGH + 800,
{
    let p2 = lower_chars(p);
    let n2 = lower_chars(n);
    match subsequence_score_exec(&p2, &n2) {
        Some(fs) => 800 + fs,
        None => 0,
    }
}

pub fn match_score(partial: &str, name: &str) -> (r: MatchParts)
    ensures
        r.base == match_base(partial@, name@) as i32,
        lowercase(partial@).len() == 0 <==> r.overlap is None,
        r.overlap matches Some(o) ==> (o.shared as nat, o.size_a as nat, o.size_b as nat)
            == dice_counts(lowercase(partial@), lowercase(name@)),
{
    let p = to_lowercase(partial);
    let n = to_lowercase(name);
    let pc = chars_of(p.as_str());
    let nc = chars_of(n.as_str());
    if pc.len() == 0 {
        return MatchParts { base: 0, overlap: None };
    }
    let plain = plain_bonus(&pc, &nc);
    let sub = subsequence_bonus(p.as_str(), n.as_str());
    let quarter = (byte_len_of(&n) / 4) as i128;
    let score = plain + sub - quarter;
    let overlap = dice_overlap_chars(&pc, &nc);
    MatchParts { base: score as i32, overlap: Some(overlap) }
}

/// The names under which the Settings command is found in the palette.
pub open spec fn command_aliases() -> Seq<Seq<char>> {
    seq!["settings"@, "preferences"@, "config"@]
}

/// For each command alias: whether it starts with the lowercased query, and
/// the Dice counts of the lowercased query against it.
pub fn command_alias_checks(q: &str) -> (r: Vec<(bool, Overlap)>)
    ensures
        r@.len() == 3,
        forall|i: int|
            0 <= i < 3 ==> {
                let (pre, o) = #[trigger] r@[i];
                &&& pre == lowercase(q@).is_prefix_of(command_aliases()[i])
                &&& (o.shared as nat, o.size_a as nat, o.size_b as nat) == dice_counts(
                    lowercase(q@),
                    command_aliases()[i],
                )
            },
{
    let ql = lower_chars(q);
    let mut r: Vec<(bool, Overlap)> = Vec::new();
    let a0 = chars_of("settings");
    let a1 = chars_of("preferences");
    let a2 = chars_of("config");
    r.push((crate::text::starts_with(&a0, &ql), dice_overlap_chars(&ql, &a0)));
    r.push((crate::text::starts_with(&a1, &ql), dice_overlap_chars(&ql, &a1)));
    r.push((crate::text::starts_with(&a2, &ql), dice_overlap_chars(&ql, &a2)));
    r
}

/// The query characters the index ranks with: each character lowercased
/// (`chars().flat_map(char::to_lowercase)`).
pub open spec fn lower_each(s: Seq<char>) -> Seq<char>
    decreases s.len(),
{
    if s.len() == 0 {
        Seq::empty()
    } else {
        lower_each(s.drop_last()) + char_lowercase(s.last())
    }
}

pub fn query_chars(query: &str) -> (r: Vec<char>)
    ensures
        r@ == lower_each(query@),
{
    let cs = chars_of(query);
    let mut r: Vec<char> = Vec::new();
    let mut i: usize = 0;
    while i < cs.len()
        invariant
            i <= cs@.len(),
            r@ == lower_each(cs@.take(i as int)),
        decreases cs.len() - i,
    {
        let l = crate::text::char_to_lowercase(cs[i]);
        let mut k: usize = 0;
        let ghost before = r@;
        while k < l.len()
            invariant
                k <= l@.len(),
                r@ == before + l@.take(k as int),
            decreases l.len() - k,
        {
            r.push(l[k]);
            proof {
                assert(l@.take(k as int + 1) =~= l@.take(k as int).push(l@[k as int]));
            }
            k = k + 1;
        }
        proof {
            assert(l@.take(l@.len() as int) =~= l@);
            assert(cs@.take(i as int + 1).drop_last() =~= cs@.take(i as int));
        }
        i = i + 1;
    }
    proof {
        assert(cs@.take(cs@.len() as int) =~= cs@);
    }
    r
}

/// `name` with `A`..=`Z` lowered.
pub open spec fn ascii_lowered(name: Seq<char>) -> Seq<char> {
    name.map_values(|c: char| ascii_lower(c))
}

/// The Dice counts the index falls back on: the name's bigrams (ASCII
/// lowercased) against at most the first 64 query bigrams; all query bigrams
/// count in the total. Zero similarity when either side has no bigram.
pub open spec fn name_dice(qb: Seq<Bigram>, name: Seq<char>) -> (nat, nat, nat) {
    let nb = bigrams(ascii_lowered(name));
    if qb.len() == 0 || nb.len() == 0 {
        (0nat, 1nat, 0nat)
    } else {
        let cap = if qb.len() < 64 {
            qb.len() as int
        } else {
            64int
        };
        (shared_count(nb, qb.take(cap)), qb.len(), nb.len())
    }
}

pub fn name_bigram_dice(q_bigrams: &Vec<Bigram>, name: &str) -> (r: Overlap)
    ensures
        (r.shared as nat, r.size_a as nat, r.size_b as nat) == name_dice(q_bigrams@, name@),
{
    let cs = chars_of(name);
    let mut lc: Vec<char> = Vec::new();
    let mut i: usize = 0;
    while i < cs.len()
        invariant
            i <= cs@.len(),
            lc@ == ascii_lowered(cs@.take(i as int)),
        decreases cs.len() - i,
    {
        lc.push(to_ascii_lower(cs[i]));
        proof {
            assert(ascii_lowered(cs@.take(i as int + 1)) =~= ascii_lowered(cs@.take(i as int)).push(
                ascii_lower(cs@[i as int]),
            ));
        }
        i = i + 1;
    }
    proof {
        assert(cs@.take(cs@.len() as int) =~= cs@);
    }
    let nb = bigrams_of(&lc);
    if q_bigrams.len() == 0 || nb.len() == 0 {
        return Overlap { shared: 0, size_a: 1, size_b: 0 };
    }
    let cap = if q_bigrams.len() < 64 { q_bigrams.len() } else { 64 };
    let mut qcap: Vec<Bigram> = Vec::new();
    let mut k: usize = 0;
    while k < cap
        invariant
            k <= cap <= q_bigrams@.len(),
            qcap@ == q_bigrams@.take(k as int),
        decreases cap - k,
    {
        qcap.push(q_bigrams[k]);
        proof {
            assert(q_bigrams@.take(k as int + 1) =~= q_bigrams@.take(k as int).push(
                q_bigrams@[k as int],
            ));
        }
        k = k + 1;
    }
    let shared = overlap_count(&nb, &qcap);
    Overlap { shared, size_a: q_bigrams.len(), size_b: nb.len() }
}

/// How the index ranks a candidate: by its exact score when the query is a
/// subsequence of the name, else by Dice similarity.
pub enum Rank {
    Scored(i32),
    /// Kept when the similarity `2 * shared / (size_a + size_b)` is at least
    /// 0.5, scoring `similarity * 1500 + adjust`.
    Similar { overlap: Overlap, adjust: i32 },
}

/// The coverage, depth and directory terms added to a similarity score.
pub open spec fn rank_adjust(q: Seq<char>, name: Seq<char>, path: Seq<char>, is_dir: bool) -> int {
    -(if name.len() > q.len() {
        (name.len() - q.len()) * 4
    } else {
        0int
    }) - components(path).len() * 8 + if is_dir {
        40int
    } else {
        0int
    }
}

pub fn rank_entry(
    q: &Vec<char>,
    q_bigrams: &Vec<Bigram>,
    name: &str,
    path: &str,
    is_dir: bool,
) -> (r: Rank)
    ensures
        match r {
            Rank::Scored(s) => entry_score(q@, name@, path@, is_dir) matches Some(x) && s == x as i32,
            Rank::Similar { overlap, adjust } => entry_score(q@, name@, path@, is_dir) is None
                && (overlap.shared as nat, overlap.size_a as nat, overlap.size_b as nat)
                == name_dice(q_bigrams@, name@) && adjust == rank_adjust(q@, name@, path@, is_dir) as i32,
        },
{
    match score_entry(q, name, path, is_dir) {
        Some(s) => Rank::Scored(s),
        None => {
            let overlap = name_bigram_dice(q_bigrams, name);
            let nc = chars_of(name);
            let mut adjust: i128 = 0;
            if nc.len() > q.len() {
                adjust = adjust - ((nc.len() - q.len()) as i128) * 4;
            }
            let depth = crate::path::path_depth(path);
            adjust = adjust - (depth as i128) * 8;
            if is_dir {
                adjust = adjust + 40;
            }
            Rank::Similar { overlap, adjust: adjust as i32 }
        },
    }
}

} // verus!
