use vstd::prelude::*;
use crate::panel::PanelModel;
use crate::board::{valid_idx, same_shape, count_closed};

verus! {

/// `b` differs from `a` at most in which panels are open.
pub open spec fn same_except_open(a: Seq<PanelModel>, b: Seq<PanelModel>) -> bool {
    &&& a.len() == b.len()
    &&& forall|i: int|
        0 <= i < a.len() ==> #[trigger] b[i] == (PanelModel { is_open: b[i].is_open, ..a[i] })
}

/// Panel `c` spreads the opening to its neighbours: it is a seed, or it was closed
/// before, and no mine lies around it.
pub open spec fn propagates(a: Seq<PanelModel>, seeds: Set<int>, c: int) -> bool {
    (seeds.contains(c) || !a[c].is_open) && a[c].around_num == 0
}

/// Opening spreads from `c` to its neighbour `j`, a closed panel without a mine.
pub open spec fn chain_step(a: Seq<PanelModel>, seeds: Set<int>, c: int, j: int) -> bool {
    &&& valid_idx(a, c)
    &&& propagates(a, seeds, c)
    &&& a[c].around.contains(j)
    &&& valid_idx(a, j)
    &&& !a[j].is_bom
    &&& !a[j].is_open
}

/// From `a` to `b` only panels were opened, every seed is open, and `ord` lists every
/// newly opened panel in an order where each is a seed or is reached by a step
/// from an earlier one.
pub open spec fn chain_core(
    a: Seq<PanelModel>,
    b: Seq<PanelModel>,
    seeds: Set<int>,
    ord: Seq<int>,
) -> bool {
    &&& same_except_open(a, b)
    &&& forall|i: int| valid_idx(a, i) && a[i].is_open ==> #[trigger] b[i].is_open
    &&& forall|s: int| #[trigger] seeds.contains(s) ==> valid_idx(a, s) && b[s].is_open
    &&& forall|i: int| valid_idx(a, i) && #[trigger] b[i].is_open && !a[i].is_open ==> ord.contains(i)
    &&& forall|m: int|
        0 <= m < ord.len() ==> valid_idx(a, #[trigger] ord[m]) && b[ord[m]].is_open && (seeds.contains(
            ord[m],
        ) || exists|m2: int| 0 <= m2 < m && #[trigger] chain_step(a, seeds, ord[m2], ord[m]))
}

/// In `b`, every open panel that spreads (other than those in `except`) has all its
/// neighbours without a mine open.
pub open spec fn chain_closed(
    a: Seq<PanelModel>,
    b: Seq<PanelModel>,
    seeds: Set<int>,
    except: Set<int>,
) -> bool {
    forall|c: int, j: int|
        #![trigger a[c].around.contains(j)]
        valid_idx(a, c) && !except.contains(c) && b[c].is_open && propagates(a, seeds, c)
            && a[c].around.contains(j) && valid_idx(a, j) && !a[j].is_bom ==> b[j].is_open
}

/// `b` is `a` after opening `seeds` and spreading: the open panels of `b` are exactly
/// those of `a`, the seeds, and every panel without a mine reached through spreading
/// panels; nothing else changes.
pub open spec fn chain_result(a: Seq<PanelModel>, b: Seq<PanelModel>, seeds: Set<int>) -> bool {
    &&& chain_closed(a, b, seeds, Set::empty())
    &&& exists|ord: Seq<int>| chain_core(a, b, seeds, ord)
}

/// `a` with panel `i` opened.
pub open spec fn open_one(a: Seq<PanelModel>, i: int) -> Seq<PanelModel> {
    a.update(i, PanelModel { is_open: true, ..a[i] })
}

/// Opening only panels keeps the cells, mines and numbers.
pub proof fn lemma_same_except_open_shape(a: Seq<PanelModel>, b: Seq<PanelModel>)
    requires
        same_except_open(a, b),
    ensures
        same_shape(a, b),
{
    assert forall|i: int| 0 <= i < a.len() implies (#[trigger] b[i]).index == a[i].index
        && b[i].pos_x == a[i].pos_x && b[i].pos_y == a[i].pos_y && b[i].around == a[i].around
        && b[i].is_bom == a[i].is_bom && b[i].around_num == a[i].around_num by {
        assert(b[i] == PanelModel { is_open: b[i].is_open, ..a[i] });
    }
}

/// Opening one seed.
pub proof fn lemma_chain_base(a: Seq<PanelModel>, i: int)
    requires
        valid_idx(a, i),
    ensures
        chain_core(a, open_one(a, i), set![i], seq![i]),
        chain_closed(a, open_one(a, i), set![i], set![i]),
        a[i].around_num != 0 ==> chain_closed(a, open_one(a, i), set![i], Set::empty()),
{
    let b = open_one(a, i);
    let ord = seq![i];
    assert forall|k: int| 0 <= k < a.len() implies #[trigger] b[k] == (PanelModel {
        is_open: b[k].is_open,
        ..a[k]
    }) by {}
    assert forall|k: int| valid_idx(a, k) && #[trigger] b[k].is_open && !a[k].is_open implies ord.contains(
        k,
    ) by {
        assert(k == i);
        assert(ord[0] == i);
    }
}

/// No seed: nothing changes.
pub proof fn lemma_chain_empty(a: Seq<PanelModel>)
    ensures
        chain_core(a, a, Set::empty(), Seq::empty()),
        chain_closed(a, a, Set::empty(), Set::empty()),
{
    assert forall|k: int| 0 <= k < a.len() implies #[trigger] a[k] == (PanelModel {
        is_open: a[k].is_open,
        ..a[k]
    }) by {}
}

/// Spreading from `j`, reached by a step from the first entry of `ord1`, extends a chain
/// without adding a seed.
pub proof fn lemma_chain_extend(
    a: Seq<PanelModel>,
    s: Seq<PanelModel>,
    t: Seq<PanelModel>,
    seeds: Set<int>,
    except: Set<int>,
    j: int,
    ord1: Seq<int>,
    ord2: Seq<int>,
)
    requires
        chain_core(a, s, seeds, ord1),
        chain_closed(a, s, seeds, except),
        chain_core(s, t, set![j], ord2),
        chain_closed(s, t, set![j], Set::empty()),
        ord1.len() > 0,
        chain_step(a, seeds, ord1[0], j),
    ensures
        chain_core(a, t, seeds, ord1 + ord2),
        chain_closed(a, t, seeds, except),
{
    let ord = ord1 + ord2;
    assert forall|k: int| 0 <= k < a.len() implies #[trigger] t[k] == (PanelModel {
        is_open: t[k].is_open,
        ..a[k]
    }) by {
        assert(s[k] == PanelModel { is_open: s[k].is_open, ..a[k] });
        assert(t[k] == PanelModel { is_open: t[k].is_open, ..s[k] });
    }
    assert forall|i: int| valid_idx(a, i) && a[i].is_open implies #[trigger] t[i].is_open by {
        assert(s[i].is_open);
    }
    assert forall|x: int| #[trigger] seeds.contains(x) implies valid_idx(a, x) && t[x].is_open by {
        assert(s[x].is_open);
    }
    assert forall|i: int| valid_idx(a, i) && #[trigger] t[i].is_open && !a[i].is_open implies ord.contains(
        i,
    ) by {
        if s[i].is_open {
            let m = choose|m: int| 0 <= m < ord1.len() && ord1[m] == i;
            assert(ord[m] == i);
        } else {
            let m = choose|m: int| 0 <= m < ord2.len() && ord2[m] == i;
            assert(ord[ord1.len() + m] == i);
        }
    }
    assert forall|m: int| 0 <= m < ord.len() implies valid_idx(a, #[trigger] ord[m]) && t[ord[m]].is_open
        && (seeds.contains(ord[m]) || exists|m2: int|
        0 <= m2 < m && #[trigger] chain_step(a, seeds, ord[m2], ord[m])) by {
        if m < ord1.len() {
            assert(ord[m] == ord1[m]);
            assert(s[ord1[m]].is_open);
            if !seeds.contains(ord1[m]) {
                let m2 = choose|m2: int| 0 <= m2 < m && #[trigger] chain_step(a, seeds, ord1[m2], ord1[m]);
                assert(ord[m2] == ord1[m2]);
                assert(chain_step(a, seeds, ord[m2], ord[m]));
            }
        } else {
            let n = m - ord1.len();
            assert(ord[m] == ord2[n]);
            let x = ord2[n];
            if x == j {
                assert(ord[0] == ord1[0]);
                assert(chain_step(a, seeds, ord[0], ord[m]));
            } else {
                let n2 = choose|n2: int| 0 <= n2 < n && #[trigger] chain_step(s, set![j], ord2[n2], ord2[n]);
                let d = ord2[n2];
                assert(ord[ord1.len() + n2] == d);
                assert(s[d] == PanelModel { is_open: s[d].is_open, ..a[d] });
                assert(s[x] == PanelModel { is_open: s[x].is_open, ..a[x] });
                if d != j {
                    assert(!s[d].is_open);
                    assert(!a[d].is_open);
                } else {
                    assert(!a[j].is_open);
                }
                assert(!a[x].is_open);
                assert(chain_step(a, seeds, ord[ord1.len() + n2], ord[m]));
            }
        }
    }
    assert forall|c: int, x: int|
        #![trigger a[c].around.contains(x)]
        valid_idx(a, c) && !except.contains(c) && t[c].is_open && propagates(a, seeds, c)
            && a[c].around.contains(x) && valid_idx(a, x) && !a[x].is_bom implies t[x].is_open by {
        assert(s[c] == PanelModel { is_open: s[c].is_open, ..a[c] });
        assert(s[x] == PanelModel { is_open: s[x].is_open, ..a[x] });
        if s[c].is_open {
            assert(s[x].is_open);
        } else {
            assert(propagates(s, set![j], c));
            assert(s[c].around.contains(x));
        }
    }
}

/// Spreading from one more seed `j` extends a chain with that seed.
pub proof fn lemma_chain_union(
    a: Seq<PanelModel>,
    s: Seq<PanelModel>,
    t: Seq<PanelModel>,
    seeds: Set<int>,
    except: Set<int>,
    j: int,
    ord1: Seq<int>,
    ord2: Seq<int>,
)
    requires
        chain_core(a, s, seeds, ord1),
        chain_closed(a, s, seeds, except),
        chain_core(s, t, set![j], ord2),
        chain_closed(s, t, set![j], Set::empty()),
    ensures
        chain_core(a, t, seeds.insert(j), ord1 + ord2),
        chain_closed(a, t, seeds.insert(j), except),
{
    let ord = ord1 + ord2;
    let sj = seeds.insert(j);
    assert forall|k: int| 0 <= k < a.len() implies #[trigger] t[k] == (PanelModel {
        is_open: t[k].is_open,
        ..a[k]
    }) by {
        assert(s[k] == PanelModel { is_open: s[k].is_open, ..a[k] });
        assert(t[k] == PanelModel { is_open: t[k].is_open, ..s[k] });
    }
    assert forall|i: int| valid_idx(a, i) && a[i].is_open implies #[trigger] t[i].is_open by {
        assert(s[i].is_open);
    }
    assert forall|x: int| #[trigger] sj.contains(x) implies valid_idx(a, x) && t[x].is_open by {
        if x != j {
            assert(seeds.contains(x));
            assert(s[x].is_open);
        } else {
            assert(set![j].contains(j));
        }
    }
    assert forall|i: int| valid_idx(a, i) && #[trigger] t[i].is_open && !a[i].is_open implies ord.contains(
        i,
    ) by {
        if s[i].is_open {
            let m = choose|m: int| 0 <= m < ord1.len() && ord1[m] == i;
            assert(ord[m] == i);
        } else {
            let m = choose|m: int| 0 <= m < ord2.len() && ord2[m] == i;
            assert(ord[ord1.len() + m] == i);
        }
    }
    assert forall|m: int| 0 <= m < ord.len() implies valid_idx(a, #[trigger] ord[m]) && t[ord[m]].is_open
        && (sj.contains(ord[m]) || exists|m2: int|
        0 <= m2 < m && #[trigger] chain_step(a, sj, ord[m2], ord[m])) by {
        if m < ord1.len() {
            assert(ord[m] == ord1[m]);
            assert(s[ord1[m]].is_open);
            if !seeds.contains(ord1[m]) {
                let m2 = choose|m2: int| 0 <= m2 < m && #[trigger] chain_step(a, seeds, ord1[m2], ord1[m]);
                assert(ord[m2] == ord1[m2]);
                assert(chain_step(a, sj, ord[m2], ord[m]));
            }
        } else {
            let n = m - ord1.len();
            assert(ord[m] == ord2[n]);
            let x = ord2[n];
            if x != j {
                let n2 = choose|n2: int| 0 <= n2 < n && #[trigger] chain_step(s, set![j], ord2[n2], ord2[n]);
                let d = ord2[n2];
                assert(ord[ord1.len() + n2] == d);
                assert(s[d] == PanelModel { is_open: s[d].is_open, ..a[d] });
                assert(s[x] == PanelModel { is_open: s[x].is_open, ..a[x] });
                if d != j {
                    assert(!s[d].is_open);
                }
                assert(chain_step(a, sj, ord[ord1.len() + n2], ord[m]));
            }
        }
    }
    assert forall|c: int, x: int|
        #![trigger a[c].around.contains(x)]
        valid_idx(a, c) && !except.contains(c) && t[c].is_open && propagates(a, sj, c)
            && a[c].around.contains(x) && valid_idx(a, x) && !a[x].is_bom implies t[x].is_open by {
        assert(s[c] == PanelModel { is_open: s[c].is_open, ..a[c] });
        assert(s[x] == PanelModel { is_open: s[x].is_open, ..a[x] });
        if c == j {
            assert(propagates(s, set![j], c));
            assert(s[c].around.contains(x));
        } else if s[c].is_open {
            assert(propagates(a, seeds, c));
            assert(s[x].is_open);
        } else {
            assert(propagates(s, set![j], c));
            assert(s[c].around.contains(x));
        }
    }
}

/// Opening a seed before spreading from it gives the same chain.
pub proof fn lemma_chain_open_first(
    a: Seq<PanelModel>,
    t: Seq<PanelModel>,
    seeds: Set<int>,
    i: int,
    ord: Seq<int>,
)
    requires
        valid_idx(a, i),
        seeds.contains(i),
        chain_core(open_one(a, i), t, seeds, ord),
        chain_closed(open_one(a, i), t, seeds, Set::empty()),
    ensures
        chain_core(a, t, seeds, seq![i] + ord),
        chain_closed(a, t, seeds, Set::empty()),
{
    let s = open_one(a, i);
    let o = seq![i] + ord;
    assert forall|k: int| 0 <= k < a.len() implies #[trigger] t[k] == (PanelModel {
        is_open: t[k].is_open,
        ..a[k]
    }) by {
        assert(t[k] == PanelModel { is_open: t[k].is_open, ..s[k] });
    }
    assert forall|k: int| valid_idx(a, k) && a[k].is_open implies #[trigger] t[k].is_open by {
        assert(s[k].is_open);
    }
    assert forall|k: int| valid_idx(a, k) && #[trigger] t[k].is_open && !a[k].is_open implies o.contains(
        k,
    ) by {
        if k == i {
            assert(o[0] == i);
        } else {
            assert(!s[k].is_open);
            let m = choose|m: int| 0 <= m < ord.len() && ord[m] == k;
            assert(o[m + 1] == k);
        }
    }
    assert forall|m: int| 0 <= m < o.len() implies valid_idx(a, #[trigger] o[m]) && t[o[m]].is_open && (
    seeds.contains(o[m]) || exists|m2: int| 0 <= m2 < m && #[trigger] chain_step(a, seeds, o[m2], o[m])) by {
        if m > 0 {
            assert(o[m] == ord[m - 1]);
            if !seeds.contains(ord[m - 1]) {
                let m2 = choose|m2: int|
                    0 <= m2 < m - 1 && #[trigger] chain_step(s, seeds, ord[m2], ord[m - 1]);
                let d = ord[m2];
                let x = ord[m - 1];
                assert(o[m2 + 1] == d);
                assert(x != i);
                assert(chain_step(a, seeds, o[m2 + 1], o[m]));
            }
        }
    }
    assert forall|c: int, x: int|
        #![trigger a[c].around.contains(x)]
        valid_idx(a, c) && !Set::<int>::empty().contains(c) && t[c].is_open && propagates(a, seeds, c)
            && a[c].around.contains(x) && valid_idx(a, x) && !a[x].is_bom implies t[x].is_open by {
        assert(propagates(s, seeds, c));
        assert(s[c].around.contains(x));
    }
}

/// Closed-panel counting: opening panels never adds closed ones.
pub proof fn lemma_count_closed_mono(a: Seq<PanelModel>, b: Seq<PanelModel>)
    requires
        a.len() == b.len(),
        forall|i: int| 0 <= i < a.len() && a[i].is_open ==> #[trigger] b[i].is_open,
    ensures
        count_closed(b) <= count_closed(a),
    decreases a.len(),
{
    if a.len() > 0 {
        let a2 = a.drop_last();
        let b2 = b.drop_last();
        assert forall|i: int| 0 <= i < a2.len() && a2[i].is_open implies #[trigger] b2[i].is_open by {
            assert(a2[i] == a[i] && b2[i] == b[i]);
        }
        lemma_count_closed_mono(a2, b2);
        assert(a.last() == a[a.len() - 1]);
    }
}

/// Opening one closed panel removes exactly one closed panel.
pub proof fn lemma_count_closed_open_one(a: Seq<PanelModel>, i: int)
    requires
        valid_idx(a, i),
    ensures
        count_closed(open_one(a, i)) + (if a[i].is_open {
            0int
        } else {
            1int
        }) == count_closed(a),
    decreases a.len(),
{
    let b = open_one(a, i);
    if i == a.len() - 1 {
        assert(b.drop_last() =~= a.drop_last());
    } else {
        assert(b.drop_last() =~= open_one(a.drop_last(), i));
        lemma_count_closed_open_one(a.drop_last(), i);
    }
}

/// A board with a closed panel has at least one closed panel.
pub proof fn lemma_count_closed_pos(a: Seq<PanelModel>, i: int)
    requires
        valid_idx(a, i),
        !a[i].is_open,
    ensures
        count_closed(a) >= 1,
{
    lemma_count_closed_open_one(a, i);
}

} // verus!
