use vstd::prelude::*;
use vstd::arithmetic::div_mod::{lemma_fundamental_div_mod, lemma_fundamental_div_mod_converse};
use crate::panel::{PanelModel, around_of};
use crate::utils::{spec_get_index, lemma_index_fits};

verus! {

/// Number of entries of `a` that satisfy `f`.
pub open spec fn count_where(a: Seq<int>, f: spec_fn(int) -> bool) -> nat
    decreases a.len(),
{
    if a.len() == 0 {
        0
    } else {
        count_where(a.drop_last(), f) + if f(a.last()) {
            1nat
        } else {
            0nat
        }
    }
}

/// Whether `j` is the index of a panel of `b`.
pub open spec fn valid_idx(b: Seq<PanelModel>, j: int) -> bool {
    0 <= j < b.len()
}

/// The panel at index `i` of a `width` x `height` board sits at `(i % width, i / width)`
/// and knows its 3x3 neighbourhood.
pub open spec fn wf_panel(p: PanelModel, i: int, width: int, height: int) -> bool {
    &&& p.index == i
    &&& p.pos_x == i % width
    &&& p.pos_y == i / width
    &&& p.around == around_of(i % width, i / width, width, height)
}

/// The shape of a `width` x `height` board: one panel per cell, in row order.
pub open spec fn wf_board(b: Seq<PanelModel>, width: int, height: int) -> bool {
    &&& 0 <= width
    &&& 0 <= height
    &&& width * height <= i32::MAX
    &&& b.len() == width * height
    &&& forall|i: int| 0 <= i < b.len() ==> #[trigger] wf_panel(b[i], i, width, height)
}

/// Number of mines among the 3x3 cells centred on panel `i`.
pub open spec fn bombs_around(b: Seq<PanelModel>, i: int) -> nat {
    count_where(b[i].around, |j: int| valid_idx(b, j) && b[j].is_bom)
}

/// Every panel that is not a mine shows the number of mines around it; a mine shows 0.
pub open spec fn consistent(b: Seq<PanelModel>) -> bool {
    forall|i: int|
        0 <= i < b.len() ==> (#[trigger] b[i]).around_num == if b[i].is_bom {
            0
        } else {
            bombs_around(b, i) as int
        }
}

/// Number of panels that satisfy `f`.
pub open spec fn count_panels(b: Seq<PanelModel>, f: spec_fn(PanelModel) -> bool) -> nat
    decreases b.len(),
{
    if b.len() == 0 {
        0
    } else {
        count_panels(b.drop_last(), f) + if f(b.last()) {
            1nat
        } else {
            0nat
        }
    }
}

/// Number of mines on the board.
pub open spec fn count_bombs(b: Seq<PanelModel>) -> nat {
    count_panels(b, |p: PanelModel| p.is_bom)
}

/// A panel where a new mine may go: not a mine, and not at `(x, y)`.
pub open spec fn is_free(p: PanelModel, x: int, y: int) -> bool {
    !p.is_bom && !(p.pos_x == x && p.pos_y == y)
}

/// Number of panels without a mine that are not at `(x, y)`.
pub open spec fn count_free(b: Seq<PanelModel>, x: int, y: int) -> nat {
    count_panels(b, |p: PanelModel| is_free(p, x, y))
}

/// Changing one panel changes a count by what that panel contributes.
pub proof fn lemma_count_panels_flip(
    b: Seq<PanelModel>,
    b2: Seq<PanelModel>,
    f: spec_fn(PanelModel) -> bool,
    t: int,
)
    requires
        b.len() == b2.len(),
        0 <= t < b.len(),
        forall|i: int| 0 <= i < b.len() && i != t ==> f(#[trigger] b2[i]) == f(b[i]),
    ensures
        count_panels(b2, f) + (if f(b[t]) {
            1int
        } else {
            0int
        }) == count_panels(b, f) + (if f(b2[t]) {
            1int
        } else {
            0int
        }),
    decreases b.len(),
{
    let p = b.drop_last();
    let p2 = b2.drop_last();
    if t == b.len() - 1 {
        assert forall|i: int| 0 <= i < p.len() implies f(#[trigger] p2[i]) == f(p[i]) by {
            assert(p2[i] == b2[i] && p[i] == b[i]);
        }
        lemma_count_panels_ext(p, p2, f);
    } else {
        assert forall|i: int| 0 <= i < p.len() && i != t implies f(#[trigger] p2[i]) == f(p[i]) by {
            assert(p2[i] == b2[i] && p[i] == b[i]);
        }
        lemma_count_panels_flip(p, p2, f, t);
        assert(f(b2.last()) == f(b.last())) by {
            assert(b2.last() == b2[b.len() - 1] && b.last() == b[b.len() - 1]);
        }
    }
}

/// Counts agree on boards that agree on the predicate.
pub proof fn lemma_count_panels_ext(b: Seq<PanelModel>, b2: Seq<PanelModel>, f: spec_fn(PanelModel) -> bool)
    requires
        b.len() == b2.len(),
        forall|i: int| 0 <= i < b.len() ==> f(#[trigger] b2[i]) == f(b[i]),
    ensures
        count_panels(b2, f) == count_panels(b, f),
    decreases b.len(),
{
    if b.len() > 0 {
        let p = b.drop_last();
        let p2 = b2.drop_last();
        assert forall|i: int| 0 <= i < p.len() implies f(#[trigger] p2[i]) == f(p[i]) by {
            assert(p2[i] == b2[i] && p[i] == b[i]);
        }
        lemma_count_panels_ext(p, p2, f);
        assert(b2.last() == b2[b.len() - 1] && b.last() == b[b.len() - 1]);
    }
}

/// A positive count needs a nonempty board.
pub proof fn lemma_count_panels_some(b: Seq<PanelModel>, f: spec_fn(PanelModel) -> bool)
    requires
        count_panels(b, f) >= 1,
    ensures
        b.len() >= 1,
{
}

/// A count is zero when no panel satisfies the predicate.
pub proof fn lemma_count_panels_none(b: Seq<PanelModel>, f: spec_fn(PanelModel) -> bool)
    requires
        forall|i: int| 0 <= i < b.len() ==> !f(#[trigger] b[i]),
    ensures
        count_panels(b, f) == 0,
    decreases b.len(),
{
    if b.len() > 0 {
        let p = b.drop_last();
        assert forall|i: int| 0 <= i < p.len() implies !f(#[trigger] p[i]) by {
            assert(p[i] == b[i]);
        }
        lemma_count_panels_none(p, f);
        assert(b.last() == b[b.len() - 1]);
    }
}

/// Number of closed panels on the board.
pub open spec fn count_closed(b: Seq<PanelModel>) -> nat
    decreases b.len(),
{
    if b.len() == 0 {
        0
    } else {
        count_closed(b.drop_last()) + if b.last().is_open {
            0nat
        } else {
            1nat
        }
    }
}

/// Number of open panels on the board.
pub open spec fn count_open(b: Seq<PanelModel>) -> nat
    decreases b.len(),
{
    if b.len() == 0 {
        0
    } else {
        count_open(b.drop_last()) + if b.last().is_open {
            1nat
        } else {
            0nat
        }
    }
}

/// Number of panels that carry `flg`.
pub open spec fn count_userflg(b: Seq<PanelModel>, flg: crate::myconst::UserFlg) -> nat
    decreases b.len(),
{
    if b.len() == 0 {
        0
    } else {
        count_userflg(b.drop_last(), flg) + if b.last().userflg == flg {
            1nat
        } else {
            0nat
        }
    }
}

/// Number of open mines on the board.
pub open spec fn count_bomopen(b: Seq<PanelModel>) -> nat
    decreases b.len(),
{
    if b.len() == 0 {
        0
    } else {
        count_bomopen(b.drop_last()) + if b.last().is_open && b.last().is_bom {
            1nat
        } else {
            0nat
        }
    }
}

/// Counting over a prefix one entry longer adds the entry.
pub proof fn lemma_count_where_take(a: Seq<int>, f: spec_fn(int) -> bool, k: int)
    requires
        0 <= k < a.len(),
    ensures
        count_where(a.take(k + 1), f) == count_where(a.take(k), f) + if f(a[k]) {
            1nat
        } else {
            0nat
        },
{
    assert(a.take(k + 1).drop_last() =~= a.take(k));
}

/// A count is at most the length.
pub proof fn lemma_count_where_le(a: Seq<int>, f: spec_fn(int) -> bool)
    ensures
        count_where(a, f) <= a.len(),
    decreases a.len(),
{
    if a.len() > 0 {
        lemma_count_where_le(a.drop_last(), f);
    }
}

/// Counts agree for predicates that agree on the entries.
pub proof fn lemma_count_where_ext(a: Seq<int>, f: spec_fn(int) -> bool, g: spec_fn(int) -> bool)
    requires
        forall|k: int| 0 <= k < a.len() ==> f(#[trigger] a[k]) == g(a[k]),
    ensures
        count_where(a, f) == count_where(a, g),
    decreases a.len(),
{
    if a.len() > 0 {
        lemma_count_where_ext(a.drop_last(), f, g);
    }
}

/// If every entry satisfying `f` satisfies `g` and both counts are equal, then
/// every entry satisfying `g` satisfies `f`.
pub proof fn lemma_count_where_sub_eq(a: Seq<int>, f: spec_fn(int) -> bool, g: spec_fn(int) -> bool)
    requires
        forall|k: int| 0 <= k < a.len() && f(#[trigger] a[k]) ==> g(a[k]),
        count_where(a, f) == count_where(a, g),
    ensures
        forall|k: int| 0 <= k < a.len() && g(#[trigger] a[k]) ==> f(a[k]),
    decreases a.len(),
{
    if a.len() > 0 {
        let p = a.drop_last();
        lemma_count_where_sub_le(p, f, g);
        assert forall|k: int| 0 <= k < p.len() && f(#[trigger] p[k]) implies g(p[k]) by {
            assert(p[k] == a[k]);
        }
        if f(a.last()) {
            lemma_count_where_sub_eq(p, f, g);
        } else if g(a.last()) {
            assert(count_where(p, f) <= count_where(p, g));
            assert(false);
        } else {
            lemma_count_where_sub_eq(p, f, g);
        }
        assert forall|k: int| 0 <= k < a.len() && g(#[trigger] a[k]) implies f(a[k]) by {
            if k < a.len() - 1 {
                assert(p[k] == a[k]);
            }
        }
    }
}

/// Pointwise implication gives ordered counts.
pub proof fn lemma_count_where_sub_le(a: Seq<int>, f: spec_fn(int) -> bool, g: spec_fn(int) -> bool)
    requires
        forall|k: int| 0 <= k < a.len() && f(#[trigger] a[k]) ==> g(a[k]),
    ensures
        count_where(a, f) <= count_where(a, g),
    decreases a.len(),
{
    if a.len() > 0 {
        let p = a.drop_last();
        assert forall|k: int| 0 <= k < p.len() && f(#[trigger] p[k]) implies g(p[k]) by {
            assert(p[k] == a[k]);
        }
        lemma_count_where_sub_le(p, f, g);
    }
}

/// Changing the predicate at one value `t`, which occurs at most once, changes
/// the count by at most one.
pub proof fn lemma_count_where_one_more(
    a: Seq<int>,
    f: spec_fn(int) -> bool,
    g: spec_fn(int) -> bool,
    t: int,
)
    requires
        forall|j: int| j != t ==> #[trigger] f(j) == g(j),
        !f(t),
        g(t),
        forall|k1: int, k2: int|
            0 <= k1 < a.len() && 0 <= k2 < a.len() && k1 != k2 && #[trigger] a[k1] == t
                ==> #[trigger] a[k2] != t,
    ensures
        count_where(a, g) == count_where(a, f) + if a.contains(t) {
            1nat
        } else {
            0nat
        },
    decreases a.len(),
{
    if a.len() > 0 {
        let p = a.drop_last();
        assert forall|k1: int, k2: int|
            0 <= k1 < p.len() && 0 <= k2 < p.len() && k1 != k2 && #[trigger] p[k1] == t
                implies #[trigger] p[k2] != t by {
            assert(p[k1] == a[k1] && p[k2] == a[k2]);
        }
        lemma_count_where_one_more(p, f, g, t);
        if a.last() == t {
            assert(!p.contains(t)) by {
                if p.contains(t) {
                    let k = choose|k: int| 0 <= k < p.len() && p[k] == t;
                    assert(a[k] == t && a[a.len() - 1] == t);
                }
            }
            assert(a.contains(t)) by {
                assert(a[a.len() - 1] == t);
            }
        } else {
            assert(p.contains(t) == a.contains(t)) by {
                if a.contains(t) {
                    let k = choose|k: int| 0 <= k < a.len() && a[k] == t;
                    assert(k != a.len() - 1);
                    assert(p[k] == t);
                }
                if p.contains(t) {
                    let k = choose|k: int| 0 <= k < p.len() && p[k] == t;
                    assert(a[k] == t);
                }
            }
        }
    }
}

/// Division facts about a cell index of a board.
pub proof fn lemma_cell_coords(i: int, width: int, height: int)
    requires
        0 <= i < width * height,
        0 <= width,
        0 <= height,
    ensures
        0 < width,
        0 < height,
        0 <= i % width < width,
        0 <= i / width < height,
        i == (i / width) * width + i % width,
{
    if width == 0 {
        assert(width * height == 0);
    }
    if height == 0 {
        assert(width * height == 0) by (nonlinear_arith)
            requires
                height == 0,
        ;
    }
    lemma_fundamental_div_mod(i, width);
    let q = i / width;
    let r = i % width;
    assert(0 <= r < width);
    assert(i == q * width + r) by (nonlinear_arith)
        requires
            i == width * q + r,
    ;
    assert(0 <= q < height) by (nonlinear_arith)
        requires
            i == q * width + r,
            0 <= r < width,
            0 <= i < width * height,
            0 < width,
    ;
}

/// The index of the cell `(x, y)` inside the board decodes back to `(x, y)`.
pub proof fn lemma_index_coords(x: int, y: int, width: int, height: int)
    requires
        0 <= x < width,
        0 <= y < height,
        width * height <= i32::MAX + 1,
    ensures
        spec_get_index(x, y, width, height) == y * width + x,
        0 <= y * width + x < width * height,
        (y * width + x) % width == x,
        (y * width + x) / width == y,
{
    lemma_index_fits(x, y, width, height);
    lemma_fundamental_div_mod_converse(y * width + x, width, y, x);
}

/// An entry of the 3x3 neighbourhood of panel `i` is either off the board or the
/// panel that sits at the matching offset.
pub proof fn lemma_around_entry(b: Seq<PanelModel>, width: int, height: int, i: int, k: int)
    requires
        wf_board(b, width, height),
        0 <= i < b.len(),
        0 <= k < 9,
    ensures
        b[i].around.len() == 9,
        b[i].around[k] == -1 || (valid_idx(b, b[i].around[k]) && b[i].around[k] % width == i
            % width + k % 3 - 1 && b[i].around[k] / width == i / width + k / 3 - 1),
        b[i].around[k] == spec_get_index(
            i % width + k % 3 - 1,
            i / width + k / 3 - 1,
            width,
            height,
        ),
{
    assert(wf_panel(b[i], i, width, height));
    lemma_cell_coords(i, width, height);
    let x = i % width + k % 3 - 1;
    let y = i / width + k / 3 - 1;
    if 0 <= x < width && 0 <= y < height {
        lemma_index_coords(x, y, width, height);
    }
}

/// The centre of the neighbourhood of panel `i` is `i` itself.
pub proof fn lemma_around_centre(b: Seq<PanelModel>, width: int, height: int, i: int)
    requires
        wf_board(b, width, height),
        0 <= i < b.len(),
    ensures
        b[i].around[4] == i,
{
    lemma_around_entry(b, width, height, i, 4);
    lemma_cell_coords(i, width, height);
    lemma_index_coords(i % width, i / width, width, height);
}

/// Neighbourhood is symmetric: if `j` is entry `k` around `i`, then `i` is entry `8 - k` around `j`.
pub proof fn lemma_around_symmetric(b: Seq<PanelModel>, width: int, height: int, i: int, k: int)
    requires
        wf_board(b, width, height),
        0 <= i < b.len(),
        0 <= k < 9,
        b[i].around[k] != -1,
    ensures
        valid_idx(b, b[i].around[k]),
        b[b[i].around[k]].around[8 - k] == i,
{
    lemma_around_entry(b, width, height, i, k);
    let j = b[i].around[k];
    lemma_around_entry(b, width, height, j, 8 - k);
    lemma_cell_coords(i, width, height);
    lemma_cell_coords(j, width, height);
    assert((8 - k) % 3 == 2 - k % 3 && (8 - k) / 3 == 2 - k / 3);
    lemma_index_coords(i % width, i / width, width, height);
}

/// Distinct offsets name distinct panels.
pub proof fn lemma_around_distinct(
    b: Seq<PanelModel>,
    width: int,
    height: int,
    i: int,
    k1: int,
    k2: int,
)
    requires
        wf_board(b, width, height),
        0 <= i < b.len(),
        0 <= k1 < 9,
        0 <= k2 < 9,
        k1 != k2,
        b[i].around[k1] != -1,
    ensures
        b[i].around[k1] != b[i].around[k2],
{
    lemma_around_entry(b, width, height, i, k1);
    lemma_around_entry(b, width, height, i, k2);
    assert(k1 % 3 != k2 % 3 || k1 / 3 != k2 / 3);
}

/// The valid entries of a neighbourhood occur once each.
pub proof fn lemma_around_no_dup(b: Seq<PanelModel>, width: int, height: int, i: int)
    requires
        wf_board(b, width, height),
        0 <= i < b.len(),
    ensures
        forall|k1: int, k2: int|
            0 <= k1 < 9 && 0 <= k2 < 9 && k1 != k2 && #[trigger] b[i].around[k1] != -1 ==> b[i].around[k1]
                != #[trigger] b[i].around[k2],
{
    assert forall|k1: int, k2: int|
        0 <= k1 < 9 && 0 <= k2 < 9 && k1 != k2 && #[trigger] b[i].around[k1] != -1 implies b[i].around[k1]
            != #[trigger] b[i].around[k2] by {
        lemma_around_distinct(b, width, height, i, k1, k2);
    }
}

/// `j` is in the neighbourhood of `i` exactly when `i` is in the neighbourhood of `j`.
pub proof fn lemma_around_contains_symmetric(
    b: Seq<PanelModel>,
    width: int,
    height: int,
    i: int,
    j: int,
)
    requires
        wf_board(b, width, height),
        valid_idx(b, i),
        valid_idx(b, j),
    ensures
        b[i].around.contains(j) == b[j].around.contains(i),
{
    assert(wf_panel(b[i], i, width, height));
    assert(wf_panel(b[j], j, width, height));
    if b[i].around.contains(j) {
        let k = choose|k: int| 0 <= k < b[i].around.len() && b[i].around[k] == j;
        lemma_around_symmetric(b, width, height, i, k);
        assert(b[j].around[8 - k] == i);
    }
    if b[j].around.contains(i) {
        let k = choose|k: int| 0 <= k < b[j].around.len() && b[j].around[k] == i;
        lemma_around_symmetric(b, width, height, j, k);
        assert(b[i].around[8 - k] == j);
    }
}

/// Two boards with the same cells, mines and numbers (flags, marks and openness may differ).
pub open spec fn same_shape(a: Seq<PanelModel>, b: Seq<PanelModel>) -> bool {
    &&& a.len() == b.len()
    &&& forall|i: int|
        0 <= i < a.len() ==> (#[trigger] b[i]).index == a[i].index && b[i].pos_x == a[i].pos_x
            && b[i].pos_y == a[i].pos_y && b[i].around == a[i].around && b[i].is_bom == a[i].is_bom
            && b[i].around_num == a[i].around_num
}

/// Changing flags, marks or openness keeps a board well formed and consistent.
pub proof fn lemma_same_shape(a: Seq<PanelModel>, b: Seq<PanelModel>, width: int, height: int)
    requires
        wf_board(a, width, height),
        consistent(a),
        same_shape(a, b),
    ensures
        wf_board(b, width, height),
        consistent(b),
{
    assert forall|i: int| 0 <= i < b.len() implies #[trigger] wf_panel(b[i], i, width, height) by {
        assert(wf_panel(a[i], i, width, height));
    }
    assert forall|i: int| 0 <= i < b.len() implies (#[trigger] b[i]).around_num == if b[i].is_bom {
        0
    } else {
        bombs_around(b, i) as int
    } by {
        assert(a[i].around_num == if a[i].is_bom {
            0
        } else {
            bombs_around(a, i) as int
        });
        let f = |j: int| valid_idx(a, j) && a[j].is_bom;
        let g = |j: int| valid_idx(b, j) && b[j].is_bom;
        assert forall|k: int| 0 <= k < b[i].around.len() implies f(#[trigger] b[i].around[k]) == g(
            b[i].around[k],
        ) by {
            let j = b[i].around[k];
            if valid_idx(a, j) {
                assert(b[j].is_bom == a[j].is_bom);
            }
        }
        lemma_count_where_ext(b[i].around, f, g);
    }
}

/// Changing flags, marks or openness keeps a board well formed.
pub proof fn lemma_same_shape_wf(a: Seq<PanelModel>, b: Seq<PanelModel>, width: int, height: int)
    requires
        wf_board(a, width, height),
        same_shape(a, b),
    ensures
        wf_board(b, width, height),
{
    assert forall|i: int| 0 <= i < b.len() implies #[trigger] wf_panel(b[i], i, width, height) by {
        assert(wf_panel(a[i], i, width, height));
    }
}

/// A fresh board is consistent.
pub proof fn lemma_fresh_consistent(b: Seq<PanelModel>)
    requires
        forall|i: int| 0 <= i < b.len() ==> !(#[trigger] b[i]).is_bom && b[i].around_num == 0,
    ensures
        consistent(b),
{
    assert forall|i: int| 0 <= i < b.len() implies (#[trigger] b[i]).around_num == if b[i].is_bom {
        0
    } else {
        bombs_around(b, i) as int
    } by {
        let f = |j: int| valid_idx(b, j) && b[j].is_bom;
        let g = |j: int| false;
        lemma_count_where_ext(b[i].around, f, g);
        lemma_count_where_zero(b[i].around, g);
    }
}

/// Nothing satisfies a false predicate.
pub proof fn lemma_count_where_zero(a: Seq<int>, g: spec_fn(int) -> bool)
    requires
        forall|j: int| !#[trigger] g(j),
    ensures
        count_where(a, g) == 0,
    decreases a.len(),
{
    if a.len() > 0 {
        lemma_count_where_zero(a.drop_last(), g);
    }
}

} // verus!
