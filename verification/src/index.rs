//! The in-memory file index behind the palette's name search, and the
//! ranking of Spotlight's answers used while the index is being built.
//!
//! Walking the disk and running Spotlight are the caller's; this module
//! decides what is walked into, what is kept and how hits are ranked.

use vstd::prelude::*;
use crate::text::chars_of;
use crate::path::{file_name, path_file_name};
use crate::score::{Rank, bigrams, bigrams_of, lower_each, query_chars, rank_entry, entry_score, score_entry, name_dice, rank_adjust, byte_len, as_i32};
use crate::order::{RankKey, KeyView, views, ranked, rank_ids, rank_order, rank_positions, idx_leq, law_rank_order};

verus! {

/// Most lines of Spotlight output read.
pub const SPOTLIGHT_LINES: usize = 4000;

/// Most Spotlight hits kept.
pub const SPOTLIGHT_HITS: usize = 40;

/// Directory names never walked into (besides hidden ones).
pub open spec fn skip_dirs() -> Seq<Seq<char>> {
    seq!["node_modules"@, "Library"@]
}

/// Whether the walk keeps a child it read (`read_ok` false: reading it
/// failed): files always, directories unless their name is skipped.
pub open spec fn keeps_child(name: Seq<char>, is_dir: bool, read_ok: bool) -> bool {
    read_ok && (!is_dir || !skip_dirs().contains(name))
}

pub fn keep_child(name: &str, is_dir: bool, read_ok: bool) -> (r: bool)
    ensures
        r == keeps_child(name@, is_dir, read_ok),
{
    if !read_ok {
        return false;
    }
    if !is_dir {
        return true;
    }
    let a = crate::text::same_text(name, "node_modules");
    let b = crate::text::same_text(name, "Library");
    proof {
        reveal_strlit("node_modules");
        reveal_strlit("Library");
        let s = skip_dirs();
        if s.contains(name@) {
            let k = choose|k: int| 0 <= k < s.len() && s[k] == name@;
            assert(k == 0 || k == 1);
        }
        if a {
            assert(s[0] == name@);
        }
        if b {
            assert(s[1] == name@);
        }
    }
    !(a || b)
}

/// One thing the walk found below the root (`depth` 0 is the root).
pub struct Walked {
    pub depth: usize,
    pub name: String,
    pub path: String,
    pub is_dir: bool,
}

/// One entry of the index.
pub struct IndexEntry {
    pub name: String,
    pub path: String,
    pub is_dir: bool,
}

pub type EntryView = (Seq<char>, Seq<char>, bool);

pub open spec fn entry_view(e: IndexEntry) -> EntryView {
    (e.name@, e.path@, e.is_dir)
}

pub open spec fn entries_view(es: Seq<IndexEntry>) -> Seq<EntryView> {
    es.map_values(|e: IndexEntry| entry_view(e))
}

/// The index entries of a walk: everything but the root, in walk order.
pub open spec fn walk_entries(w: Seq<Walked>) -> Seq<EntryView> {
    w.filter(|x: Walked| x.depth != 0).map_values(|x: Walked| (x.name@, x.path@, x.is_dir))
}

/// A flat list of everything under a root directory.
pub struct FileIndex {
    pub entries: Vec<IndexEntry>,
}

/// The rank of every entry for lowercased query `q`.
pub open spec fn ranks_ok(r: Seq<Rank>, q: Seq<char>, es: Seq<IndexEntry>) -> bool {
    &&& r.len() == es.len()
    &&& forall|i: int| 0 <= i < r.len() ==> rank_is(#[trigger] r[i], q, es[i])
}

/// `r` is how the index ranks entry `e` for lowercased query `q`.
pub open spec fn rank_is(r: Rank, q: Seq<char>, e: IndexEntry) -> bool {
    match r {
        Rank::Scored(s) => entry_score(q, e.name@, e.path@, e.is_dir) matches Some(x) && s == x as i32,
        Rank::Similar { overlap, adjust } => entry_score(q, e.name@, e.path@, e.is_dir) is None
            && (overlap.shared as nat, overlap.size_a as nat, overlap.size_b as nat) == name_dice(
            bigrams(q),
            e.name@,
        ) && adjust == rank_adjust(q, e.name@, e.path@, e.is_dir) as i32,
    }
}

/// The positions of the entries with a score.
pub open spec fn scored_ids(scores: Seq<Option<i32>>) -> Seq<usize> {
    Seq::new(scores.len(), |i: int| i as usize).filter(|i: usize| scores[i as int] is Some)
}

/// Hit order: the higher score first, then the shorter name in bytes.
pub open spec fn hit_key(scores: Seq<Option<i32>>, es: Seq<IndexEntry>, i: usize) -> KeyView {
    (scores[i as int]->Some_0 as int, -byte_len(es[i as int].name@), Seq::empty())
}

/// The hits of a search: the scored entries in hit order (ties in index
/// order), at most `limit` of them; none for an empty query.
pub open spec fn top_hits_of(q: Seq<char>, scores: Seq<Option<i32>>, es: Seq<IndexEntry>, limit: nat) -> Seq<EntryView> {
    if q.len() == 0 {
        Seq::empty()
    } else {
        hit_positions(scores, es, limit).map_values(|i: usize| entry_view(es[i as int]))
    }
}

/// The positions of the hits: the scored entries in hit order, at most
/// `limit` of them.
pub open spec fn hit_positions(scores: Seq<Option<i32>>, es: Seq<IndexEntry>, limit: nat) -> Seq<usize> {
    let ids = scored_ids(scores);
    let order = ranked(ids.map_values(|i: usize| hit_key(scores, es, i)), ids);
    if order.len() > limit {
        order.take(limit as int)
    } else {
        order
    }
}

fn name_bytes(s: &String) -> (r: usize)
    ensures
        r as int == byte_len(s@),
{
    s.as_str().len()
}

impl FileIndex {
    /// The index of a walk: every walked item but the root.
    pub fn build(walked: Vec<Walked>) -> (r: FileIndex)
        ensures
            entries_view(r.entries@) == walk_entries(walked@),
    {
        let ghost pred = |x: Walked| x.depth != 0;
        let ghost f = |x: Walked| (x.name@, x.path@, x.is_dir);
        let mut entries: Vec<IndexEntry> = Vec::new();
        let mut i: usize = 0;
        proof {
            assert(walked@.take(0).filter(pred) =~= Seq::<Walked>::empty()) by {
                reveal_with_fuel(Seq::<_>::filter, 1);
            }
        }
        while i < walked.len()
            invariant
                i <= walked@.len(),
                pred == (|x: Walked| x.depth != 0),
                f == (|x: Walked| (x.name@, x.path@, x.is_dir)),
                entries_view(entries@) == walked@.take(i as int).filter(pred).map_values(f),
            decreases walked.len() - i,
        {
            proof {
                assert(walked@.take(i as int + 1) =~= walked@.take(i as int).push(walked@[i as int]));
                walked@.take(i as int).lemma_filter_push(walked@[i as int], pred);
            }
            let w = &walked[i];
            if w.depth != 0 {
                let ghost ev = entries@;
                let e = IndexEntry { name: w.name.clone(), path: w.path.clone(), is_dir: w.is_dir };
                entries.push(e);
                proof {
                    assert(entries_view(entries@) =~= entries_view(ev).push(entry_view(e)));
                    assert(walked@.take(i as int + 1).filter(pred).map_values(f) =~= walked@.take(
                        i as int,
                    ).filter(pred).map_values(f).push(f(walked@[i as int])));
                }
            }
            i = i + 1;
        }
        proof {
            assert(walked@.take(walked@.len() as int) =~= walked@);
        }
        FileIndex { entries }
    }

    /// How each entry ranks for `query` (each character lowercased); empty
    /// for a query that lowercases to nothing.
    pub fn rank_all(&self, query: &str) -> (r: Vec<Rank>)
        ensures
            lower_each(query@).len() == 0 ==> r@.len() == 0,
            lower_each(query@).len() > 0 ==> ranks_ok(r@, lower_each(query@), self.entries@),
    {
        let q = query_chars(query);
        let mut r: Vec<Rank> = Vec::new();
        if q.len() == 0 {
            return r;
        }
        let qb = bigrams_of(&q);
        let mut i: usize = 0;
        while i < self.entries.len()
            invariant
                i <= self.entries@.len(),
                q@ == lower_each(query@),
                qb@ == bigrams(q@),
                r@.len() == i,
                forall|k: int| 0 <= k < i ==> rank_is(#[trigger] r@[k], q@, self.entries@[k]),
            decreases self.entries.len() - i,
        {
            let e = &self.entries[i];
            r.push(rank_entry(&q, &qb, e.name.as_str(), e.path.as_str(), e.is_dir));
            i = i + 1;
        }
        r
    }

    /// The best `limit` hits for `query` given each entry's score (`None`:
    /// no match): higher score first, then shorter names, ties in index
    /// order; none for a query that lowercases to nothing.
    pub fn top_hits(&self, query: &str, scores: &Vec<Option<i32>>, limit: usize) -> (r: Vec<(String, String, bool)>)
        requires
            lower_each(query@).len() > 0 ==> scores@.len() == self.entries@.len(),
        ensures
            r@.map_values(|h: (String, String, bool)| (h.0@, h.1@, h.2)) == top_hits_of(
                lower_each(query@),
                scores@,
                self.entries@,
                limit as nat,
            ),
    {
        let q = query_chars(query);
        if q.len() == 0 {
            let r: Vec<(String, String, bool)> = Vec::new();
            proof {
                assert(r@.map_values(|h: (String, String, bool)| (h.0@, h.1@, h.2)) =~= Seq::<
                    EntryView,
                >::empty());
            }
            return r;
        }
        let ghost pred = |i: usize| scores@[i as int] is Some;
        let ghost all = Seq::new(scores@.len(), |i: int| i as usize);
        let ghost keyf = |i: usize| hit_key(scores@, self.entries@, i);
        let mut ids: Vec<usize> = Vec::new();
        let mut keys: Vec<RankKey> = Vec::new();
        let mut i: usize = 0;
        proof {
            assert(all.take(0).filter(pred) =~= Seq::<usize>::empty()) by {
                reveal_with_fuel(Seq::<_>::filter, 1);
            }
        }
        while i < scores.len()
            invariant
                i <= scores@.len(),
                scores@.len() == self.entries@.len(),
                all == Seq::new(scores@.len(), |i: int| i as usize),
                pred == (|i: usize| scores@[i as int] is Some),
                keyf == (|i: usize| hit_key(scores@, self.entries@, i)),
                ids@ == all.take(i as int).filter(pred),
                forall|k: int| 0 <= k < ids@.len() ==> ids@[k] < scores@.len(),
                views(keys@) == ids@.map_values(keyf),
            decreases scores.len() - i,
        {
            proof {
                assert(all.take(i as int + 1) =~= all.take(i as int).push(i));
                all.take(i as int).lemma_filter_push(i, pred);
            }
            match scores[i] {
                Some(s) => {
                    let ghost kv = keys@;
                    let ghost iv = ids@;
                    let len = name_bytes(&self.entries[i].name);
                    let key = RankKey { primary: s as i128, secondary: -(len as i128), name: Vec::new() };
                    keys.push(key);
                    ids.push(i);
                    proof {
                        assert(views(keys@) =~= views(kv).push(key@));
                        assert(ids@.map_values(keyf) =~= iv.map_values(keyf).push(keyf(i)));
                    }
                },
                None => {},
            }
            i = i + 1;
        }
        proof {
            assert(all.take(scores@.len() as int) =~= all);
        }
        let order = rank_ids(&keys, &ids);
        proof {
            assert forall|k: int| 0 <= k < order@.len() implies order@[k] < self.entries@.len() by {
                assert(ids@.contains(order@[k]));
            }
        }
        let n = if order.len() > limit {
            limit
        } else {
            order.len()
        };
        let ghost ov = order@;
        let ghost hv = |h: (String, String, bool)| (h.0@, h.1@, h.2);
        let ghost ef = |i: usize| entry_view(self.entries@[i as int]);
        let mut r: Vec<(String, String, bool)> = Vec::new();
        let mut j: usize = 0;
        while j < n
            invariant
                j <= n <= order@.len(),
                ov == order@,
                forall|k: int| 0 <= k < ov.len() ==> ov[k] < self.entries@.len(),
                hv == (|h: (String, String, bool)| (h.0@, h.1@, h.2)),
                ef == (|i: usize| entry_view(self.entries@[i as int])),
                r@.map_values(hv) == ov.take(j as int).map_values(ef),
            decreases n - j,
        {
            let e = &self.entries[order[j]];
            let ghost rv = r@;
            r.push((e.name.clone(), e.path.clone(), e.is_dir));
            proof {
                assert(r@.map_values(hv) =~= rv.map_values(hv).push(ef(ov[j as int])));
                assert(ov.take(j as int + 1).map_values(ef) =~= ov.take(j as int).map_values(ef).push(
                    ef(ov[j as int]),
                ));
            }
            j = j + 1;
        }
        proof {
            if ov.len() <= limit {
                assert(ov.take(ov.len() as int) =~= ov);
            }
        }
        r
    }
}

/// Spotlight's scored candidates among `lines` (paths, one per line): each
/// non-empty line with a file name whose name the query matches, as
/// `(score, name, path)`, in line order.
pub open spec fn spot_scored(q: Seq<char>, lines: Seq<Seq<char>>) -> Seq<(int, Seq<char>, Seq<char>)>
    decreases lines.len(),
{
    if lines.len() == 0 {
        Seq::empty()
    } else {
        let prev = spot_scored(q, lines.drop_last());
        let l = lines.last();
        if l.len() == 0 {
            prev
        } else {
            match file_name(l) {
                None => prev,
                Some(n) => match as_i32(entry_score(q, n, l, false)) {
                    Some(s) => prev.push((s as int, n, l)),
                    None => prev,
                },
            }
        }
    }
}

/// The Spotlight hits for lowercased query `q`: of the first
/// `SPOTLIGHT_LINES` lines, the scored ones, best first (ties in line
/// order), at most `SPOTLIGHT_HITS`, as `(name, path)`.
pub open spec fn spotlight_hits(q: Seq<char>, lines: Seq<Seq<char>>) -> Seq<(Seq<char>, Seq<char>)> {
    let first = if lines.len() > SPOTLIGHT_LINES {
        lines.take(SPOTLIGHT_LINES as int)
    } else {
        lines
    };
    let c = spot_scored(q, first);
    let order = rank_order(c.map_values(|x: (int, Seq<char>, Seq<char>)| (x.0, 0int, Seq::<char>::empty())));
    let top = if order.len() > SPOTLIGHT_HITS {
        order.take(SPOTLIGHT_HITS as int)
    } else {
        order
    };
    top.map_values(|k: usize| (c[k as int].1, c[k as int].2))
}

pub open spec fn texts(v: Seq<String>) -> Seq<Seq<char>> {
    v.map_values(|s: String| s@)
}

/// Ranks Spotlight's answer to `query` (its output lines, in order); which
/// hits are directories is for the caller to find out.
pub fn rank_spotlight(query: &str, lines: &Vec<String>) -> (r: Vec<(String, String)>)
    ensures
        r@.map_values(|h: (String, String)| (h.0@, h.1@)) == spotlight_hits(lower_each(query@), texts(lines@)),
{
    let q = query_chars(query);
    let n = if lines.len() > SPOTLIGHT_LINES {
        SPOTLIGHT_LINES
    } else {
        lines.len()
    };
    let ghost tl = texts(lines@);
    let ghost first = if tl.len() > SPOTLIGHT_LINES {
        tl.take(SPOTLIGHT_LINES as int)
    } else {
        tl
    };
    let ghost cf = |x: (int, Seq<char>, Seq<char>)| (x.0, 0int, Seq::<char>::empty());
    let mut cands: Vec<(i32, String, String)> = Vec::new();
    let mut keys: Vec<RankKey> = Vec::new();
    let mut i: usize = 0;
    while i < n
        invariant
            i <= n <= lines@.len(),
            n as int == first.len(),
            tl == texts(lines@),
            first == tl.take(n as int),
            q@ == lower_each(query@),
            cf == (|x: (int, Seq<char>, Seq<char>)| (x.0, 0int, Seq::<char>::empty())),
            cands@.map_values(|c: (i32, String, String)| (c.0 as int, c.1@, c.2@)) == spot_scored(q@, first.take(i as int)),
            views(keys@) == spot_scored(q@, first.take(i as int)).map_values(cf),
        decreases n - i,
    {
        let line = &lines[i];
        let ghost before = spot_scored(q@, first.take(i as int));
        proof {
            assert(first.take(i as int + 1).drop_last() =~= first.take(i as int));
            assert(first.take(i as int + 1).last() == line@);
        }
        let lc = chars_of(line.as_str());
        if lc.len() > 0 {
            match path_file_name(line.as_str()) {
                Some(name) => {
                    match score_entry(&q, name.as_str(), line.as_str(), false) {
                        Some(s) => {
                            let ghost cv = cands@;
                            let ghost kv = keys@;
                            let key = RankKey { primary: s as i128, secondary: 0, name: Vec::new() };
                            cands.push((s, name, line.clone()));
                            keys.push(key);
                            proof {
                                assert(cands@.map_values(|c: (i32, String, String)| (c.0 as int, c.1@, c.2@))
                                    =~= cv.map_values(|c: (i32, String, String)| (c.0 as int, c.1@, c.2@)).push(
                                    (s as int, name@, line@),
                                ));
                                assert(views(keys@) =~= views(kv).push(key@));
                                assert(spot_scored(q@, first.take(i as int + 1)) == before.push(
                                    (s as int, name@, line@),
                                ));
                                assert(before.push((s as int, name@, line@)).map_values(cf) =~= before.map_values(
                                    cf,
                                ).push(cf((s as int, name@, line@))));
                            }
                        },
                        None => {},
                    }
                },
                None => {},
            }
        }
        i = i + 1;
    }
    proof {
        assert(first.take(n as int) =~= first);
    }
    let ghost c = spot_scored(q@, first);
    let pos = rank_positions(&keys);
    let m = if pos.len() > SPOTLIGHT_HITS {
        SPOTLIGHT_HITS
    } else {
        pos.len()
    };
    let ghost hv = |h: (String, String)| (h.0@, h.1@);
    let ghost pf = |k: usize| (c[k as int].1, c[k as int].2);
    let mut r: Vec<(String, String)> = Vec::new();
    let mut j: usize = 0;
    while j < m
        invariant
            j <= m <= pos@.len(),
            pos@ == rank_order(c.map_values(cf)),
            pos@.len() == keys@.len(),
            keys@.len() == cands@.len(),
            forall|k: int| 0 <= k < pos@.len() ==> pos@[k] < keys@.len(),
            cands@.map_values(|c: (i32, String, String)| (c.0 as int, c.1@, c.2@)) == c,
            hv == (|h: (String, String)| (h.0@, h.1@)),
            pf == (|k: usize| (c[k as int].1, c[k as int].2)),
            r@.map_values(hv) == pos@.take(j as int).map_values(pf),
        decreases m - j,
    {
        let k = pos[j];
        let e = &cands[k];
        let ghost rv = r@;
        proof {
            assert(c[k as int] == (e.0 as int, e.1@, e.2@));
        }
        r.push((e.1.clone(), e.2.clone()));
        proof {
            assert(r@.map_values(hv) =~= rv.map_values(hv).push(pf(k)));
            assert(pos@.take(j as int + 1).map_values(pf) =~= pos@.take(j as int).map_values(pf).push(
                pf(pos@[j as int]),
            ));
        }
        j = j + 1;
    }
    proof {
        if pos@.len() <= SPOTLIGHT_HITS {
            assert(pos@.take(pos@.len() as int) =~= pos@);
        }
    }
    r
}

proof fn lemma_scored_ids(m: nat, scores: Seq<Option<i32>>)
    requires
        m <= scores.len(),
        scores.len() <= usize::MAX,
    ensures
        ({
            let f = Seq::new(m, |i: int| i as usize).filter(|i: usize| scores[i as int] is Some);
            &&& forall|k: int| 0 <= k < f.len() ==> (#[trigger] f[k]) < m && scores[f[k] as int] is Some
            &&& f.no_duplicates()
            &&& f.len() <= m
            &&& forall|x: usize| x < m && scores[x as int] is Some ==> #[trigger] f.contains(x)
        }),
    decreases m,
{
    let pred = |i: usize| scores[i as int] is Some;
    let f = Seq::new(m, |i: int| i as usize).filter(pred);
    if m == 0 {
        assert(Seq::new(0, |i: int| i as usize) =~= Seq::<usize>::empty());
        assert(f =~= Seq::<usize>::empty()) by {
            reveal_with_fuel(Seq::<_>::filter, 1);
        }
    } else {
        let m1 = (m - 1) as nat;
        let x = m1 as usize;
        lemma_scored_ids(m1, scores);
        let g = Seq::new(m1, |i: int| i as usize).filter(pred);
        assert(Seq::new(m, |i: int| i as usize) =~= Seq::new(m1, |i: int| i as usize).push(x));
        Seq::new(m1, |i: int| i as usize).lemma_filter_push(x, pred);
        if pred(x) {
            assert(f == g.push(x));
            assert forall|a: int, b: int| 0 <= a < f.len() && 0 <= b < f.len() && a != b implies f[a] != f[b] by {
                if a < g.len() && b < g.len() {
                    assert(f[a] == g[a] && f[b] == g[b]);
                } else if a < g.len() {
                    assert(f[a] == g[a]);
                } else {
                    assert(f[b] == g[b]);
                }
            }
            assert forall|y: usize| y < m && scores[y as int] is Some implies #[trigger] f.contains(y) by {
                if y == x {
                    assert(f[g.len() as int] == x);
                } else {
                    assert(g.contains(y));
                    let k = choose|k: int| 0 <= k < g.len() && g[k] == y;
                    assert(f[k] == y);
                }
            }
        } else {
            assert(f == g);
        }
    }
}

/// A search yields the best `limit` scored entries (all of them when
/// fewer), all different, the best score first and, among equal scores,
/// shorter names first; no entry left out scores higher than a hit.
pub proof fn law_hits_best_first(scores: Seq<Option<i32>>, es: Seq<IndexEntry>, limit: nat)
    requires
        scores.len() == es.len(),
        es.len() <= usize::MAX,
    ensures
        hit_positions(scores, es, limit).len() == if scored_ids(scores).len() > limit {
            limit as int
        } else {
            scored_ids(scores).len() as int
        },
        forall|k: int, i: int|
            0 <= k < hit_positions(scores, es, limit).len() && 0 <= i < es.len() && scores[i] is Some
                && !hit_positions(scores, es, limit).contains(i as usize) ==> scores[(#[trigger] hit_positions(
                scores,
                es,
                limit,
            )[k]) as int]->Some_0 >= (#[trigger] scores[i])->Some_0,
        hit_positions(scores, es, limit).no_duplicates(),
        forall|k: int|
            0 <= k < hit_positions(scores, es, limit).len() ==> (#[trigger] hit_positions(scores, es, limit)[k])
                < es.len() && scores[hit_positions(scores, es, limit)[k] as int] is Some,
        forall|a: int, b: int|
            0 <= a < b < hit_positions(scores, es, limit).len() ==> {
                let x = #[trigger] hit_positions(scores, es, limit)[a];
                let y = #[trigger] hit_positions(scores, es, limit)[b];
                ||| scores[x as int]->Some_0 > scores[y as int]->Some_0
                ||| (scores[x as int]->Some_0 == scores[y as int]->Some_0 && byte_len(es[x as int].name@)
                    <= byte_len(es[y as int].name@))
            },
{
    let ids = scored_ids(scores);
    lemma_scored_ids(scores.len(), scores);
    let kf = |i: usize| hit_key(scores, es, i);
    let keys = ids.map_values(kf);
    let o = rank_order(keys);
    law_rank_order(keys);
    let order = ranked(keys, ids);
    assert(order == o.map_values(|k: usize| ids[k as int]));
    let h = hit_positions(scores, es, limit);
    assert forall|k: int| 0 <= k < h.len() implies (#[trigger] h[k]) < es.len() && scores[h[k] as int] is Some by {
        assert(h[k] == order[k]);
        assert(o[k] < keys.len());
    }
    assert forall|a: int, b: int| 0 <= a < h.len() && 0 <= b < h.len() && a != b implies h[a] != h[b] by {
        assert(h[a] == ids[o[a] as int]);
        assert(h[b] == ids[o[b] as int]);
        assert(o[a] != o[b]);
    }
    assert forall|a: int, b: int| 0 <= a < b < h.len() implies {
        let x = #[trigger] h[a];
        let y = #[trigger] h[b];
        ||| scores[x as int]->Some_0 > scores[y as int]->Some_0
        ||| (scores[x as int]->Some_0 == scores[y as int]->Some_0 && byte_len(es[x as int].name@) <= byte_len(
            es[y as int].name@,
        ))
    } by {
        assert(idx_leq(keys, o[a], o[b]));
        assert(keys[o[a] as int] == hit_key(scores, es, ids[o[a] as int]));
        assert(keys[o[b] as int] == hit_key(scores, es, ids[o[b] as int]));
        assert(h[a] == ids[o[a] as int]);
        assert(h[b] == ids[o[b] as int]);
    }
    assert forall|k: int, i: int|
        0 <= k < h.len() && 0 <= i < es.len() && scores[i] is Some && !h.contains(i as usize) implies scores[(
        #[trigger] h[k]) as int]->Some_0 >= (#[trigger] scores[i])->Some_0 by {
        let iu = i as usize;
        assert(scores[iu as int] is Some);
        assert(ids.contains(iu));
        let m = choose|m: int| 0 <= m < ids.len() && ids[m] == iu;
        assert(o.contains(m as usize));
        let j = choose|j: int| 0 <= j < o.len() && o[j] == m as usize;
        assert(order[j] == iu);
        if j < h.len() {
            assert(h[j] == order[j]);
            assert(false);
        }
        assert(idx_leq(keys, o[k], o[j]));
        assert(keys[o[k] as int] == hit_key(scores, es, ids[o[k] as int]));
        assert(keys[o[j] as int] == hit_key(scores, es, ids[o[j] as int]));
        assert(h[k] == ids[o[k] as int]);
    }
}

} // verus!
