//! How tabs sit in panes, as pure values: what closing a tab and dropping a
//! dragged tab do to the arrangement, and what every arrangement keeps.

use vstd::prelude::*;
use crate::workspace::{Pane, Tab};

verus! {

/// A pane's tabs and the index of the one it shows.
pub type PaneView<H> = (Seq<Tab<H>>, int);

/// The arrangement of a list of panes.
pub open spec fn layout<H>(panes: Seq<Pane<H>>) -> Seq<PaneView<H>> {
    panes.map_values(|p: Pane<H>| (p.tabs@, p.active as int))
}

/// Every pane holds a tab, shows one of its tabs, and each tab is well formed.
pub open spec fn panes_ok<H>(l: Seq<PaneView<H>>) -> bool {
    forall|p: int|
        0 <= p < l.len() ==> {
            &&& (#[trigger] l[p]).0.len() >= 1
            &&& 0 <= l[p].1 < l[p].0.len()
            &&& forall|t: int| 0 <= t < l[p].0.len() ==> (#[trigger] l[p].0[t]).wf()
        }
}

/// The tabs of all panes together.
pub open spec fn layout_tabs<H>(l: Seq<PaneView<H>>) -> nat
    decreases l.len(),
{
    if l.len() == 0 {
        0
    } else {
        layout_tabs(l.drop_last()) + l.last().0.len()
    }
}

/// The tabs left in a pane once tab `t` is removed from `tabs` (shown `act`),
/// and the index shown then: the last when it ran past the end, one less
/// when an earlier tab went.
pub open spec fn after_removal<H>(tabs: Seq<Tab<H>>, act: int, t: int) -> PaneView<H> {
    let rest = tabs.remove(t);
    let a = if rest.len() == 0 {
        act
    } else if act >= rest.len() {
        rest.len() - 1
    } else if t < act {
        act - 1
    } else {
        act
    };
    (rest, a)
}

/// Tab `t` of pane `p` can be closed: it exists and is not the only tab
/// left in the workspace.
pub open spec fn can_close<H>(l: Seq<PaneView<H>>, p: int, t: int) -> bool {
    &&& 0 <= p < l.len()
    &&& 0 <= t < l[p].0.len()
    &&& (l[p].0.len() > 1 || l.len() > 1)
}

/// The arrangement after closing tab `t` of pane `p`: the tab goes, and a
/// pane left without tabs goes with it.
pub open spec fn closed_layout<H>(l: Seq<PaneView<H>>, p: int, t: int) -> Seq<PaneView<H>> {
    if l[p].0.len() > 1 {
        l.update(p, after_removal(l[p].0, l[p].1, t))
    } else {
        l.remove(p)
    }
}

/// Most panes shown side by side.
pub const MAX_PANES: usize = 2;

/// Tab `ft` of pane `fp` can be dropped at pane `to_pane`: it exists, and
/// the drop is not a split that would only move the one tab of the one pane
/// into a new pane, nor a split while two panes are already shown.
pub open spec fn can_move<H>(l: Seq<PaneView<H>>, fp: int, ft: int, to_pane: int) -> bool {
    &&& 0 <= fp < l.len()
    &&& 0 <= ft < l[fp].0.len()
    &&& 0 <= to_pane
    &&& !(to_pane >= l.len() && l[fp].0.len() == 1 && l.len() == 1)
    &&& !(to_pane >= l.len() && l.len() >= MAX_PANES)
}

/// Where the tabs are after the dragged tab `ft` of pane `fp` is dropped at
/// position `to_index` of pane `to_pane` (`to_pane` past the last pane opens
/// a new pane on the right), and which pane is active. An emptied source
/// pane is dropped.
pub open spec fn moved_layout<H>(l: Seq<PaneView<H>>, fp: int, ft: int, to_pane: int, to_index: int) -> (Seq<PaneView<H>>, int) {
    let tab = l[fp].0[ft];
    let src = after_removal(l[fp].0, l[fp].1, ft);
    let rest = src.0;
    let l1 = l.update(fp, src);
    if to_pane >= l.len() {
        let l2 = l1.push((seq![tab], 0int));
        let l3 = if rest.len() == 0 {
            l2.remove(fp)
        } else {
            l2
        };
        (l3, l3.len() - 1)
    } else {
        let idx = if to_pane == fp && ft < to_index {
            to_index - 1
        } else {
            to_index
        };
        let dtabs = l1[to_pane].0;
        let at = if idx < dtabs.len() {
            idx
        } else {
            dtabs.len() as int
        };
        let l2 = l1.update(to_pane, (dtabs.insert(at, tab), at));
        if rest.len() == 0 && fp != to_pane {
            (l2.remove(fp), if fp < to_pane {
                to_pane - 1
            } else {
                to_pane
            })
        } else {
            (l2, to_pane)
        }
    }
}

/// Whether a move changes the pane count or splits, so that the divider
/// between two panes goes back to the middle.
pub open spec fn move_resets_split<H>(l: Seq<PaneView<H>>, fp: int, ft: int, to_pane: int) -> bool {
    to_pane >= l.len() || (l[fp].0.len() == 1 && fp != to_pane)
}

pub proof fn lemma_layout_ok<H>(panes: Seq<Pane<H>>)
    ensures
        panes_ok(layout(panes)) <==> forall|p: int| 0 <= p < panes.len() ==> (#[trigger] panes[p]).wf(),
{
    let l = layout(panes);
    if panes_ok(l) {
        assert forall|p: int| 0 <= p < panes.len() implies (#[trigger] panes[p]).wf() by {
            assert(l[p] == (panes[p].tabs@, panes[p].active as int));
        }
    }
    if forall|p: int| 0 <= p < panes.len() ==> (#[trigger] panes[p]).wf() {
        assert forall|p: int| 0 <= p < l.len() implies {
            &&& (#[trigger] l[p]).0.len() >= 1
            &&& 0 <= l[p].1 < l[p].0.len()
            &&& forall|t: int| 0 <= t < l[p].0.len() ==> (#[trigger] l[p].0[t]).wf()
        } by {
            assert(panes[p].wf());
        }
    }
}

proof fn lemma_tabs_update<H>(l: Seq<PaneView<H>>, i: int, v: PaneView<H>)
    requires
        0 <= i < l.len(),
    ensures
        layout_tabs(l.update(i, v)) == layout_tabs(l) - l[i].0.len() + v.0.len(),
    decreases l.len(),
{
    let u = l.update(i, v);
    if i == l.len() - 1 {
        assert(u.drop_last() =~= l.drop_last());
    } else {
        lemma_tabs_update(l.drop_last(), i, v);
        assert(u.drop_last() =~= l.drop_last().update(i, v));
    }
}

proof fn lemma_tabs_remove<H>(l: Seq<PaneView<H>>, i: int)
    requires
        0 <= i < l.len(),
    ensures
        layout_tabs(l.remove(i)) == layout_tabs(l) - l[i].0.len(),
    decreases l.len(),
{
    let r = l.remove(i);
    if i == l.len() - 1 {
        assert(r =~= l.drop_last());
    } else {
        lemma_tabs_remove(l.drop_last(), i);
        assert(r.drop_last() =~= l.drop_last().remove(i));
    }
}

proof fn lemma_tabs_push<H>(l: Seq<PaneView<H>>, v: PaneView<H>)
    ensures
        layout_tabs(l.push(v)) == layout_tabs(l) + v.0.len(),
{
    assert(l.push(v).drop_last() =~= l);
}

proof fn lemma_removal_ok<H>(tabs: Seq<Tab<H>>, act: int, t: int)
    requires
        0 <= t < tabs.len(),
        0 <= act < tabs.len(),
        forall|k: int| 0 <= k < tabs.len() ==> (#[trigger] tabs[k]).wf(),
    ensures
        after_removal(tabs, act, t).0.len() == tabs.len() - 1,
        after_removal(tabs, act, t).0.len() > 0 ==> 0 <= after_removal(tabs, act, t).1 < after_removal(
            tabs,
            act,
            t,
        ).0.len(),
        forall|k: int|
            0 <= k < after_removal(tabs, act, t).0.len() ==> (#[trigger] after_removal(
                tabs,
                act,
                t,
            ).0[k]).wf(),
{
    let rest = tabs.remove(t);
    assert forall|k: int| 0 <= k < rest.len() implies (#[trigger] rest[k]).wf() by {
        if k < t {
            assert(rest[k] == tabs[k]);
        } else {
            assert(rest[k] == tabs[k + 1]);
        }
    }
}

/// Closing a tab keeps every pane holding a shown, well-formed tab.
pub proof fn lemma_close_ok<H>(l: Seq<PaneView<H>>, p: int, t: int)
    requires
        panes_ok(l),
        can_close(l, p, t),
    ensures
        panes_ok(closed_layout(l, p, t)),
        closed_layout(l, p, t).len() >= 1,
{
    let c = closed_layout(l, p, t);
    assert(l[p].0.len() >= 1);
    if l[p].0.len() > 1 {
        lemma_removal_ok(l[p].0, l[p].1, t);
        assert forall|q: int| 0 <= q < c.len() implies {
            &&& (#[trigger] c[q]).0.len() >= 1
            &&& 0 <= c[q].1 < c[q].0.len()
            &&& forall|k: int| 0 <= k < c[q].0.len() ==> (#[trigger] c[q].0[k]).wf()
        } by {
            if q != p {
                assert(c[q] == l[q]);
            }
        }
    } else {
        assert forall|q: int| 0 <= q < c.len() implies {
            &&& (#[trigger] c[q]).0.len() >= 1
            &&& 0 <= c[q].1 < c[q].0.len()
            &&& forall|k: int| 0 <= k < c[q].0.len() ==> (#[trigger] c[q].0[k]).wf()
        } by {
            if q < p {
                assert(c[q] == l[q]);
            } else {
                assert(c[q] == l[q + 1]);
            }
        }
    }
}

/// Closing a tab takes exactly that one tab out of the workspace.
pub proof fn law_close_drops_one<H>(l: Seq<PaneView<H>>, p: int, t: int)
    requires
        panes_ok(l),
        can_close(l, p, t),
    ensures
        layout_tabs(closed_layout(l, p, t)) + 1 == layout_tabs(l),
{
    assert(l[p].0.len() >= 1);
    if l[p].0.len() > 1 {
        lemma_tabs_update(l, p, after_removal(l[p].0, l[p].1, t));
    } else {
        lemma_tabs_remove(l, p);
    }
}

/// Dropping a dragged tab keeps every pane holding a shown, well-formed tab
/// and leaves the active pane in range.
pub proof fn lemma_move_ok<H>(l: Seq<PaneView<H>>, fp: int, ft: int, to_pane: int, to_index: int)
    requires
        panes_ok(l),
        can_move(l, fp, ft, to_pane),
        to_index >= 0,
    ensures
        panes_ok(moved_layout(l, fp, ft, to_pane, to_index).0),
        0 <= moved_layout(l, fp, ft, to_pane, to_index).1 < moved_layout(
            l,
            fp,
            ft,
            to_pane,
            to_index,
        ).0.len(),
        l.len() <= MAX_PANES ==> moved_layout(l, fp, ft, to_pane, to_index).0.len() <= MAX_PANES,
{
    let tab = l[fp].0[ft];
    let src = after_removal(l[fp].0, l[fp].1, ft);
    let rest = src.0;
    let l1 = l.update(fp, src);
    assert(l[fp].0.len() >= 1);
    lemma_removal_ok(l[fp].0, l[fp].1, ft);
    assert(tab.wf());
    let m = moved_layout(l, fp, ft, to_pane, to_index).0;
    if to_pane >= l.len() {
        let l2 = l1.push((seq![tab], 0int));
        assert forall|q: int| 0 <= q < m.len() implies {
            &&& (#[trigger] m[q]).0.len() >= 1
            &&& 0 <= m[q].1 < m[q].0.len()
            &&& forall|k: int| 0 <= k < m[q].0.len() ==> (#[trigger] m[q].0[k]).wf()
        } by {
            let j = if rest.len() == 0 && q >= fp {
                q + 1
            } else {
                q
            };
            assert(m[q] == l2[j]);
            if j == l.len() {
                assert(l2[j] == (seq![tab], 0int));
            } else if j != fp {
                assert(l2[j] == l[j]);
            }
        }
    } else {
        let idx = if to_pane == fp && ft < to_index {
            to_index - 1
        } else {
            to_index
        };
        let dtabs = l1[to_pane].0;
        let at = if idx < dtabs.len() {
            idx
        } else {
            dtabs.len() as int
        };
        let ins = dtabs.insert(at, tab);
        let l2 = l1.update(to_pane, (ins, at));
        assert(forall|k: int| 0 <= k < dtabs.len() ==> (#[trigger] dtabs[k]).wf()) by {
            if to_pane != fp {
                assert(l1[to_pane] == l[to_pane]);
            }
        }
        assert forall|k: int| 0 <= k < ins.len() implies (#[trigger] ins[k]).wf() by {
            if k < at {
                assert(ins[k] == dtabs[k]);
            } else if k > at {
                assert(ins[k] == dtabs[k - 1]);
            }
        }
        assert forall|q: int| 0 <= q < m.len() implies {
            &&& (#[trigger] m[q]).0.len() >= 1
            &&& 0 <= m[q].1 < m[q].0.len()
            &&& forall|k: int| 0 <= k < m[q].0.len() ==> (#[trigger] m[q].0[k]).wf()
        } by {
            let j = if rest.len() == 0 && fp != to_pane && q >= fp {
                q + 1
            } else {
                q
            };
            assert(m[q] == l2[j]);
            if j != to_pane && j != fp {
                assert(l2[j] == l[j]);
            }
        }
    }
}

/// Dropping a dragged tab neither loses nor adds a tab.
pub proof fn law_move_keeps_tabs<H>(l: Seq<PaneView<H>>, fp: int, ft: int, to_pane: int, to_index: int)
    requires
        panes_ok(l),
        can_move(l, fp, ft, to_pane),
        to_index >= 0,
    ensures
        layout_tabs(moved_layout(l, fp, ft, to_pane, to_index).0) == layout_tabs(l),
{
    let tab = l[fp].0[ft];
    let src = after_removal(l[fp].0, l[fp].1, ft);
    let rest = src.0;
    let l1 = l.update(fp, src);
    lemma_removal_ok(l[fp].0, l[fp].1, ft);
    lemma_tabs_update(l, fp, src);
    if to_pane >= l.len() {
        let l2 = l1.push((seq![tab], 0int));
        lemma_tabs_push(l1, (seq![tab], 0int));
        if rest.len() == 0 {
            lemma_tabs_remove(l2, fp);
        }
    } else {
        let idx = if to_pane == fp && ft < to_index {
            to_index - 1
        } else {
            to_index
        };
        let dtabs = l1[to_pane].0;
        let at = if idx < dtabs.len() {
            idx
        } else {
            dtabs.len() as int
        };
        let l2 = l1.update(to_pane, (dtabs.insert(at, tab), at));
        lemma_tabs_update(l1, to_pane, (dtabs.insert(at, tab), at));
        if rest.len() == 0 && fp != to_pane {
            lemma_tabs_remove(l2, fp);
        }
    }
}

/// After a drop, the active pane shows the dragged tab.
pub proof fn law_move_shows_dragged<H>(l: Seq<PaneView<H>>, fp: int, ft: int, to_pane: int, to_index: int)
    requires
        panes_ok(l),
        can_move(l, fp, ft, to_pane),
        to_index >= 0,
    ensures
        ({
            let (m, a) = moved_layout(l, fp, ft, to_pane, to_index);
            &&& 0 <= a < m.len()
            &&& m[a].0[m[a].1] == l[fp].0[ft]
        }),
{
    lemma_move_ok(l, fp, ft, to_pane, to_index);
    lemma_removal_ok(l[fp].0, l[fp].1, ft);
    let tab = l[fp].0[ft];
    let src = after_removal(l[fp].0, l[fp].1, ft);
    let rest = src.0;
    let l1 = l.update(fp, src);
    let (m, a) = moved_layout(l, fp, ft, to_pane, to_index);
    if to_pane >= l.len() {
        let l2 = l1.push((seq![tab], 0int));
        assert(m[a] == l2[l.len() as int]);
    } else {
        let idx = if to_pane == fp && ft < to_index {
            to_index - 1
        } else {
            to_index
        };
        let dtabs = l1[to_pane].0;
        let at = if idx < dtabs.len() {
            idx
        } else {
            dtabs.len() as int
        };
        let l2 = l1.update(to_pane, (dtabs.insert(at, tab), at));
        assert(m[a] == l2[to_pane]);
        assert(dtabs.insert(at, tab)[at] == tab);
    }
}


/// Closing a tab removes just that tab from its pane and touches no other
/// pane. When it was not the shown tab, the same tab stays shown; when it
/// was, its right neighbour (or, for the last tab, its left neighbour) is
/// shown. A pane's only tab takes the pane with it.
pub proof fn law_close_keeps_shown<H>(l: Seq<PaneView<H>>, p: int, t: int)
    requires
        panes_ok(l),
        can_close(l, p, t),
    ensures
        ({
            let c = closed_layout(l, p, t);
            let tabs = l[p].0;
            let act = l[p].1;
            if tabs.len() > 1 {
                &&& c.len() == l.len()
                &&& forall|q: int| 0 <= q < l.len() && q != p ==> #[trigger] c[q] == l[q]
                &&& c[p].0 == tabs.remove(t)
                &&& t != act ==> c[p].0[c[p].1] == tabs[act]
                &&& t == act && t + 1 < tabs.len() ==> c[p].1 == t && c[p].0[c[p].1] == tabs[t + 1]
                &&& t == act && t + 1 == tabs.len() ==> c[p].1 == t - 1 && c[p].0[c[p].1] == tabs[t - 1]
            } else {
                c == l.remove(p)
            }
        }),
{
    assert(l[p].0.len() >= 1);
    assert(0 <= l[p].1 < l[p].0.len());
}

/// Dragging a tab that is not the shown one out of a pane that keeps other
/// tabs leaves that pane showing the same tab, with just the dragged tab gone.
pub proof fn law_move_keeps_source_shown<H>(l: Seq<PaneView<H>>, fp: int, ft: int, to_pane: int, to_index: int)
    requires
        panes_ok(l),
        can_move(l, fp, ft, to_pane),
        to_index >= 0,
        to_pane != fp,
        l[fp].0.len() > 1,
        ft != l[fp].1,
    ensures
        ({
            let m = moved_layout(l, fp, ft, to_pane, to_index).0;
            &&& m[fp].0 == l[fp].0.remove(ft)
            &&& m[fp].0[m[fp].1] == l[fp].0[l[fp].1]
        }),
{
    assert(0 <= l[fp].1 < l[fp].0.len());
}

/// A tab dropped into an existing pane lands at the requested position,
/// counted among the tabs left there once the dragged tab is lifted out
/// (a position past the end puts it last), and the other tabs of that pane
/// keep their order. A tab dropped past the last pane opens a new pane on
/// the right holding just that tab.
pub proof fn law_move_lands_at_position<H>(l: Seq<PaneView<H>>, fp: int, ft: int, to_pane: int, to_index: int)
    requires
        panes_ok(l),
        can_move(l, fp, ft, to_pane),
        to_index >= 0,
    ensures
        ({
            let (m, a) = moved_layout(l, fp, ft, to_pane, to_index);
            let tab = l[fp].0[ft];
            if to_pane < l.len() {
                let idx = if to_pane == fp && ft < to_index {
                    to_index - 1
                } else {
                    to_index
                };
                let left = if to_pane == fp {
                    l[fp].0.remove(ft)
                } else {
                    l[to_pane].0
                };
                let at = if idx < left.len() {
                    idx
                } else {
                    left.len() as int
                };
                &&& 0 <= a < m.len()
                &&& m[a].1 == at
                &&& m[a].0[at] == tab
                &&& m[a].0.remove(at) == left
            } else {
                &&& a == m.len() - 1
                &&& m[a] == (seq![tab], 0int)
            }
        }),
{
    lemma_move_ok(l, fp, ft, to_pane, to_index);
    let tab = l[fp].0[ft];
    let src = after_removal(l[fp].0, l[fp].1, ft);
    let rest = src.0;
    let l1 = l.update(fp, src);
    let (m, a) = moved_layout(l, fp, ft, to_pane, to_index);
    if to_pane >= l.len() {
        let l2 = l1.push((seq![tab], 0int));
        assert(m[a] == l2[l.len() as int]);
    } else {
        let idx = if to_pane == fp && ft < to_index {
            to_index - 1
        } else {
            to_index
        };
        let dtabs = l1[to_pane].0;
        let at = if idx < dtabs.len() {
            idx
        } else {
            dtabs.len() as int
        };
        let l2 = l1.update(to_pane, (dtabs.insert(at, tab), at));
        assert(m[a] == l2[to_pane]);
        assert(dtabs.insert(at, tab).remove(at) =~= dtabs);
    }
}

/// The tabs of all panes, pane by pane from the left.
pub open spec fn all_tabs<H>(l: Seq<PaneView<H>>) -> Seq<Tab<H>>
    decreases l.len(),
{
    if l.len() == 0 {
        Seq::empty()
    } else {
        all_tabs(l.drop_last()) + l.last().0
    }
}

/// Where tab `t` of pane `p` stands in `all_tabs(l)`.
pub open spec fn tab_position<H>(l: Seq<PaneView<H>>, p: int, t: int) -> int {
    all_tabs(l.take(p)).len() + t
}

proof fn lemma_all_tabs_concat<H>(a: Seq<PaneView<H>>, b: Seq<PaneView<H>>)
    ensures
        all_tabs(a + b) == all_tabs(a) + all_tabs(b),
    decreases b.len(),
{
    if b.len() == 0 {
        assert(a + b =~= a);
        assert(all_tabs(a) + all_tabs(b) =~= all_tabs(a));
    } else {
        lemma_all_tabs_concat(a, b.drop_last());
        assert((a + b).drop_last() =~= a + b.drop_last());
        assert((a + b).last() == b.last());
        assert(all_tabs(a) + all_tabs(b.drop_last()) + b.last().0 =~= all_tabs(a) + (all_tabs(
            b.drop_last(),
        ) + b.last().0));
    }
}

proof fn lemma_all_tabs_single<H>(v: PaneView<H>)
    ensures
        all_tabs(seq![v]) == v.0,
{
    let e = Seq::<PaneView<H>>::empty();
    assert(seq![v].drop_last() =~= e);
    assert(all_tabs(e) == Seq::<Tab<H>>::empty());
    assert(all_tabs(seq![v]) == all_tabs(e) + v.0);
    assert(Seq::<Tab<H>>::empty() + v.0 =~= v.0);
}

proof fn lemma_all_tabs_update<H>(l: Seq<PaneView<H>>, i: int, v: PaneView<H>)
    requires
        0 <= i < l.len(),
    ensures
        all_tabs(l.update(i, v)) == all_tabs(l.take(i)) + v.0 + all_tabs(l.skip(i + 1)),
{
    let u = l.update(i, v);
    assert(u =~= l.take(i) + seq![v] + l.skip(i + 1));
    lemma_all_tabs_concat(l.take(i) + seq![v], l.skip(i + 1));
    lemma_all_tabs_concat(l.take(i), seq![v]);
    lemma_all_tabs_single(v);
}

proof fn lemma_all_tabs_split<H>(l: Seq<PaneView<H>>, i: int)
    requires
        0 <= i < l.len(),
    ensures
        all_tabs(l) == all_tabs(l.take(i)) + l[i].0 + all_tabs(l.skip(i + 1)),
{
    assert(l.update(i, l[i]) =~= l);
    lemma_all_tabs_update(l, i, l[i]);
}

proof fn lemma_all_tabs_remove_empty<H>(l: Seq<PaneView<H>>, i: int)
    requires
        0 <= i < l.len(),
        l[i].0.len() == 0,
    ensures
        all_tabs(l.remove(i)) == all_tabs(l),
{
    assert(l.remove(i) =~= l.take(i) + l.skip(i + 1));
    lemma_all_tabs_concat(l.take(i), l.skip(i + 1));
    lemma_all_tabs_split(l, i);
    assert(all_tabs(l.take(i)) + l[i].0 =~= all_tabs(l.take(i)));
}

proof fn lemma_all_tabs_remove_at<H>(l: Seq<PaneView<H>>, i: int, t: int, x: int)
    requires
        0 <= i < l.len(),
        0 <= t < l[i].0.len(),
    ensures
        all_tabs(l.update(i, (l[i].0.remove(t), x))) == all_tabs(l).remove(tab_position(l, i, t)),
        0 <= tab_position(l, i, t) < all_tabs(l).len(),
        all_tabs(l)[tab_position(l, i, t)] == l[i].0[t],
{
    lemma_all_tabs_split(l, i);
    lemma_all_tabs_update(l, i, (l[i].0.remove(t), x));
    let pre = all_tabs(l.take(i));
    let post = all_tabs(l.skip(i + 1));
    assert(pre + l[i].0.remove(t) + post =~= (pre + l[i].0 + post).remove(pre.len() + t));
}

proof fn lemma_all_tabs_insert_at<H>(l: Seq<PaneView<H>>, i: int, at: int, tab: Tab<H>, x: int)
    requires
        0 <= i < l.len(),
        0 <= at <= l[i].0.len(),
    ensures
        ({
            let f = all_tabs(l.update(i, (l[i].0.insert(at, tab), x)));
            &&& 0 <= tab_position(l, i, at) < f.len()
            &&& f[tab_position(l, i, at)] == tab
            &&& f.remove(tab_position(l, i, at)) == all_tabs(l)
        }),
{
    lemma_all_tabs_split(l, i);
    lemma_all_tabs_update(l, i, (l[i].0.insert(at, tab), x));
    let pre = all_tabs(l.take(i));
    let post = all_tabs(l.skip(i + 1));
    let f = pre + l[i].0.insert(at, tab) + post;
    assert(f[pre.len() + at] == tab);
    assert(f.remove(pre.len() + at) =~= pre + l[i].0 + post);
}

/// Dropping a dragged tab moves that one tab and nothing else: taken out of
/// the tabs of all panes read from left to right, before and after, the rest
/// stand in the same order, so no tab is lost, added or reordered.
pub proof fn law_move_keeps_order<H>(l: Seq<PaneView<H>>, fp: int, ft: int, to_pane: int, to_index: int)
    requires
        panes_ok(l),
        can_move(l, fp, ft, to_pane),
        to_index >= 0,
    ensures
        ({
            let f = all_tabs(moved_layout(l, fp, ft, to_pane, to_index).0);
            exists|k: int|
                0 <= k < f.len() && #[trigger] f[k] == l[fp].0[ft] && f.remove(k) == all_tabs(
                    l,
                ).remove(tab_position(l, fp, ft))
        }),
        all_tabs(moved_layout(l, fp, ft, to_pane, to_index).0).to_multiset() == all_tabs(
            l,
        ).to_multiset(),
{
    broadcast use vstd::seq_lib::group_to_multiset_ensures;
    broadcast use vstd::multiset::group_multiset_axioms;
    let tab = l[fp].0[ft];
    let src = after_removal(l[fp].0, l[fp].1, ft);
    let rest = src.0;
    let l1 = l.update(fp, src);
    let before = all_tabs(l).remove(tab_position(l, fp, ft));
    lemma_all_tabs_remove_at(l, fp, ft, src.1);
    assert(all_tabs(l1) == before);
    let m = moved_layout(l, fp, ft, to_pane, to_index).0;
    let f = all_tabs(m);
    let mut k: int = 0;
    if to_pane >= l.len() {
        let l2 = l1.push((seq![tab], 0int));
        assert(l2.drop_last() =~= l1);
        assert(all_tabs(l2) == all_tabs(l1) + seq![tab]);
        if rest.len() == 0 {
            assert(l2[fp] == l1[fp]);
            lemma_all_tabs_remove_empty(l2, fp);
        }
        assert(f == all_tabs(l1) + seq![tab]);
        k = all_tabs(l1).len() as int;
        assert(f.remove(k) =~= all_tabs(l1));
    } else {
        let idx = if to_pane == fp && ft < to_index {
            to_index - 1
        } else {
            to_index
        };
        let dtabs = l1[to_pane].0;
        let at = if idx < dtabs.len() {
            idx
        } else {
            dtabs.len() as int
        };
        let l2 = l1.update(to_pane, (dtabs.insert(at, tab), at));
        lemma_all_tabs_insert_at(l1, to_pane, at, tab, at);
        k = tab_position(l1, to_pane, at);
        if rest.len() == 0 && fp != to_pane {
            assert(l2[fp] == l1[fp]);
            lemma_all_tabs_remove_empty(l2, fp);
        }
        assert(f == all_tabs(l2));
    }
    assert(0 <= k < f.len() && f[k] == tab && f.remove(k) == before);
    let g = all_tabs(l);
    let pos = tab_position(l, fp, ft);
    vstd::seq_lib::to_multiset_remove(f, k);
    vstd::seq_lib::to_multiset_remove(g, pos);
    assert(f.to_multiset().remove(tab) == g.to_multiset().remove(tab));
    assert(f.to_multiset().count(tab) >= 1) by {
        assert(f.contains(tab));
    }
    assert(g.to_multiset().count(tab) >= 1) by {
        assert(g.contains(tab));
    }
    assert forall|x: Tab<H>| #[trigger] f.to_multiset().count(x) == g.to_multiset().count(x) by {
        if x != tab {
            assert(f.to_multiset().remove(tab).count(x) == f.to_multiset().count(x));
            assert(g.to_multiset().remove(tab).count(x) == g.to_multiset().count(x));
        } else {
            assert(f.to_multiset().remove(tab).count(x) == f.to_multiset().count(x) - 1);
            assert(g.to_multiset().remove(tab).count(x) == g.to_multiset().count(x) - 1);
        }
    }
    assert(f.to_multiset() =~= g.to_multiset());
}

} // verus!
