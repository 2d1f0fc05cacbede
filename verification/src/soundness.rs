use vstd::prelude::*;
use crate::myconst::{AutoSts, UserFlg};
use crate::panel::PanelModel;
use crate::board::{
    wf_board,
    wf_panel,
    consistent,
    valid_idx,
    count_where,
    same_shape,
    bombs_around,
    lemma_same_shape,
    lemma_count_where_ext,
    lemma_count_where_sub_eq,
    lemma_count_where_sub_le,
    lemma_around_no_dup,
};
use crate::gametable::{assist_cleared, redflag_all};
use crate::inference::{
    select,
    mark_all,
    is_closed,
    no_open_mine,
    same_reads,
    danger_targets,
    danger_one,
    danger_count,
    safety_targets,
    safety_one,
    believe_marks,
    danger_pass,
    safety_pass,
    simple_step,
    lemma_mark_all_shape,
    lemma_select_sound,
    InfEntry,
    unmarked_closed,
    infe_entry,
    infe_upto,
    remain_of,
    candidate,
    first_candidate,
    inference_one_spec,
    check_pass,
    deep_step,
    repeat_simple,
    repeat_deep,
    inference_round,
    inference_rounds,
    inference_result,
};

verus! {

/// Every assist mark is right: a panel marked dangerous is a mine, a panel marked
/// safe is not, and no panel is left marked unknown.
pub open spec fn marks_sound(b: Seq<PanelModel>) -> bool {
    forall|i: int|
        0 <= i < b.len() ==> (#[trigger] b[i]).auto_flg != AutoSts::Unknown && (b[i].auto_flg
            == AutoSts::Danger ==> b[i].is_bom) && (b[i].auto_flg == AutoSts::Safety ==> !b[i].is_bom)
}

/// Every red flag stands on a mine.
pub open spec fn flags_right(b: Seq<PanelModel>) -> bool {
    forall|i: int| 0 <= i < b.len() && (#[trigger] b[i]).userflg == UserFlg::RedFlg ==> b[i].is_bom
}

/// A board of a game in progress whose marks are right: laid out, its numbers agree
/// with its mines, no mine open, and every mark right.
pub open spec fn sound_board(b: Seq<PanelModel>, width: int, height: int) -> bool {
    &&& wf_board(b, width, height)
    &&& consistent(b)
    &&& no_open_mine(b)
    &&& marks_sound(b)
}

/// Whether panel `j` of `b` is a mine.
pub open spec fn is_mine(b: Seq<PanelModel>, j: int) -> bool {
    valid_idx(b, j) && b[j].is_bom
}

/// Selecting then counting is counting both conditions.
pub proof fn lemma_select_count(a: Seq<int>, p: spec_fn(int) -> bool, f: spec_fn(int) -> bool)
    ensures
        count_where(select(a, p), f) == count_where(a, |j: int| p(j) && f(j)),
    decreases a.len(),
{
    if a.len() > 0 {
        lemma_select_count(a.drop_last(), p, f);
        let s = select(a.drop_last(), p);
        if p(a.last()) {
            assert(select(a, p).drop_last() =~= s);
        }
    }
}

/// Counting everything counts the entries.
pub proof fn lemma_count_all(a: Seq<int>, f: spec_fn(int) -> bool)
    requires
        forall|j: int| #[trigger] f(j),
    ensures
        count_where(a, f) == a.len(),
    decreases a.len(),
{
    if a.len() > 0 {
        lemma_count_all(a.drop_last(), f);
    }
}

/// The length of a selection is the count of its condition.
pub proof fn lemma_select_len(a: Seq<int>, p: spec_fn(int) -> bool)
    ensures
        select(a, p).len() == count_where(a, p),
    decreases a.len(),
{
    if a.len() > 0 {
        lemma_select_len(a.drop_last(), p);
    }
}

/// A count splits along a second condition.
pub proof fn lemma_count_split(a: Seq<int>, f: spec_fn(int) -> bool, g: spec_fn(int) -> bool)
    ensures
        count_where(a, f) == count_where(a, |j: int| f(j) && g(j)) + count_where(
            a,
            |j: int| f(j) && !g(j),
        ),
    decreases a.len(),
{
    if a.len() > 0 {
        lemma_count_split(a.drop_last(), f, g);
    }
}

/// An entry that satisfies the condition makes the count positive.
pub proof fn lemma_count_pos(a: Seq<int>, f: spec_fn(int) -> bool, k: int)
    requires
        0 <= k < a.len(),
        f(a[k]),
    ensures
        count_where(a, f) > 0,
    decreases a.len(),
{
    if k < a.len() - 1 {
        assert(a.drop_last()[k] == a[k]);
        lemma_count_pos(a.drop_last(), f, k);
    }
}

/// A panel whose mines are all among the entries `p` admits: when as many entries
/// satisfy `p` as there are mines, every such entry is a mine.
pub proof fn lemma_all_mines(a: Seq<int>, f: spec_fn(int) -> bool, p: spec_fn(int) -> bool)
    requires
        forall|k: int| 0 <= k < a.len() && f(#[trigger] a[k]) ==> p(a[k]),
        count_where(a, f) == count_where(a, p),
    ensures
        forall|k: int| 0 <= k < a.len() && p(#[trigger] a[k]) ==> f(a[k]),
{
    lemma_count_where_sub_eq(a, f, p);
}

/// A board whose reads and shape agree with a sound board, and whose marks are
/// right, is sound.
pub proof fn lemma_sound_transfer(a: Seq<PanelModel>, b: Seq<PanelModel>, width: int, height: int)
    requires
        sound_board(a, width, height),
        same_reads(a, b),
        same_shape(a, b),
        marks_sound(b),
    ensures
        sound_board(b, width, height),
        flags_right(a) == flags_right(b),
{
    lemma_same_shape(a, b, width, height);
    assert forall|i: int| 0 <= i < b.len() && (#[trigger] b[i]).is_open implies !b[i].is_bom by {
        assert(a[i].is_open);
    }
    if flags_right(a) {
        assert forall|i: int| 0 <= i < b.len() && (#[trigger] b[i]).userflg == UserFlg::RedFlg implies b[i].is_bom by {
            assert(a[i].userflg == UserFlg::RedFlg);
        }
    }
    if flags_right(b) {
        assert forall|i: int| 0 <= i < a.len() && (#[trigger] a[i]).userflg == UserFlg::RedFlg implies a[i].is_bom by {
            assert(b[i].userflg == UserFlg::RedFlg);
        }
    }
}

/// Marking panels with a mark that is right for each of them keeps a board sound.
pub proof fn lemma_mark_sound(b: Seq<PanelModel>, s: Seq<int>, m: AutoSts, width: int, height: int)
    requires
        sound_board(b, width, height),
        m != AutoSts::Unknown,
        forall|x: int|
            #[trigger] s.contains(x) && valid_idx(b, x) ==> (m == AutoSts::Danger ==> b[x].is_bom) && (m
                == AutoSts::Safety ==> !b[x].is_bom),
    ensures
        sound_board(mark_all(b, s, m), width, height),
        same_reads(b, mark_all(b, s, m)),
        same_shape(b, mark_all(b, s, m)),
        flags_right(b) == flags_right(mark_all(b, s, m)),
{
    let r = mark_all(b, s, m);
    lemma_mark_all_shape(b, s, m);
    assert forall|i: int| 0 <= i < r.len() implies (#[trigger] r[i]).auto_flg != AutoSts::Unknown && (
    r[i].auto_flg == AutoSts::Danger ==> r[i].is_bom) && (r[i].auto_flg == AutoSts::Safety
        ==> !r[i].is_bom) by {
        assert(b[i].auto_flg != AutoSts::Unknown);
    }
    lemma_sound_transfer(b, r, width, height);
}

/// The danger rule only marks mines.
pub proof fn lemma_danger_one_sound(b: Seq<PanelModel>, c: int, width: int, height: int)
    requires
        sound_board(b, width, height),
        0 <= c < b.len(),
    ensures
        sound_board(danger_one(b, c).0, width, height),
        same_reads(b, danger_one(b, c).0),
        same_shape(b, danger_one(b, c).0),
        flags_right(b) == flags_right(danger_one(b, c).0),
{
    let t = danger_targets(b, c);
    let r = b[c].around;
    let tp = |j: int| is_closed(b, j) && b[j].auto_flg != AutoSts::Safety;
    if b[c].is_open && b[c].around_num == t.len() {
        let fm = |j: int| valid_idx(b, j) && b[j].is_bom;
        assert(!b[c].is_bom);
        assert(b[c].around_num == bombs_around(b, c) as int);
        lemma_select_len(r, tp);
        assert forall|k: int| 0 <= k < r.len() && fm(#[trigger] r[k]) implies tp(r[k]) by {
            let j = r[k];
            assert(!b[j].is_open);
            assert(b[j].auto_flg != AutoSts::Safety);
        }
        lemma_all_mines(r, fm, tp);
        lemma_select_sound(r, tp);
        assert forall|x: int| #[trigger] t.contains(x) && valid_idx(b, x) implies b[x].is_bom by {
            let m = choose|m: int| 0 <= m < t.len() && t[m] == x;
            assert(tp(t[m]) && r.contains(t[m]));
            let k = choose|k: int| 0 <= k < r.len() && r[k] == x;
            assert(tp(r[k]));
        }
        lemma_mark_sound(b, t, AutoSts::Danger, width, height);
    } else {
        lemma_mark_all_shape(b, Seq::empty(), AutoSts::Danger);
        assert(mark_all(b, Seq::empty(), AutoSts::Danger) =~= b);
    }
}

/// The safety rule only marks panels without a mine.
pub proof fn lemma_safety_one_sound(b: Seq<PanelModel>, c: int, width: int, height: int)
    requires
        sound_board(b, width, height),
        0 <= c < b.len(),
    ensures
        sound_board(safety_one(b, c).0, width, height),
        same_reads(b, safety_one(b, c).0),
        same_shape(b, safety_one(b, c).0),
        flags_right(b) == flags_right(safety_one(b, c).0),
{
    let t = safety_targets(b, c);
    let r = b[c].around;
    let sp = |j: int|
        is_closed(b, j) && b[j].auto_flg != AutoSts::Danger && b[j].auto_flg != AutoSts::Safety;
    if b[c].around_num != 0 && b[c].is_open && b[c].around_num == danger_count(b, c) {
        let fm = |j: int| valid_idx(b, j) && b[j].is_bom;
        let fd = |j: int| is_closed(b, j) && b[j].auto_flg == AutoSts::Danger;
        assert(!b[c].is_bom);
        assert(b[c].around_num == bombs_around(b, c) as int);
        assert forall|k: int| 0 <= k < r.len() && fd(#[trigger] r[k]) implies fm(r[k]) by {
            let j = r[k];
            assert(b[j].is_bom);
        }
        lemma_all_mines(r, fd, fm);
        lemma_select_sound(r, sp);
        assert forall|x: int| #[trigger] t.contains(x) && valid_idx(b, x) implies !b[x].is_bom by {
            let m = choose|m: int| 0 <= m < t.len() && t[m] == x;
            assert(sp(t[m]) && r.contains(t[m]));
            let k = choose|k: int| 0 <= k < r.len() && r[k] == x;
            assert(sp(r[k]));
            if b[x].is_bom {
                assert(fm(r[k]));
                assert(fd(r[k]));
            }
        }
        lemma_mark_sound(b, t, AutoSts::Safety, width, height);
    } else {
        lemma_mark_all_shape(b, Seq::empty(), AutoSts::Safety);
        assert(mark_all(b, Seq::empty(), AutoSts::Safety) =~= b);
    }
}

/// The danger rule over panels `0..k` only marks mines.
pub proof fn lemma_danger_pass_sound(b: Seq<PanelModel>, k: nat, width: int, height: int)
    requires
        sound_board(b, width, height),
        k <= b.len(),
    ensures
        sound_board(danger_pass(b, k).0, width, height),
        same_reads(b, danger_pass(b, k).0),
        same_shape(b, danger_pass(b, k).0),
        flags_right(b) == flags_right(danger_pass(b, k).0),
    decreases k,
{
    if k == 0 {
        lemma_mark_all_shape(b, Seq::empty(), AutoSts::Danger);
        assert(mark_all(b, Seq::empty(), AutoSts::Danger) =~= b);
    } else {
        lemma_danger_pass_sound(b, (k - 1) as nat, width, height);
        let b1 = danger_pass(b, (k - 1) as nat).0;
        lemma_danger_one_sound(b1, k - 1, width, height);
        let b2 = danger_one(b1, k - 1).0;
        lemma_reads_trans(b, b1, b2);
    }
}

/// The safety rule over panels `0..k` only marks panels without a mine.
pub proof fn lemma_safety_pass_sound(b: Seq<PanelModel>, k: nat, width: int, height: int)
    requires
        sound_board(b, width, height),
        k <= b.len(),
    ensures
        sound_board(safety_pass(b, k).0, width, height),
        same_reads(b, safety_pass(b, k).0),
        same_shape(b, safety_pass(b, k).0),
        flags_right(b) == flags_right(safety_pass(b, k).0),
    decreases k,
{
    if k == 0 {
        lemma_mark_all_shape(b, Seq::empty(), AutoSts::Safety);
        assert(mark_all(b, Seq::empty(), AutoSts::Safety) =~= b);
    } else {
        lemma_safety_pass_sound(b, (k - 1) as nat, width, height);
        let b1 = safety_pass(b, (k - 1) as nat).0;
        lemma_safety_one_sound(b1, k - 1, width, height);
        let b2 = safety_one(b1, k - 1).0;
        lemma_reads_trans(b, b1, b2);
    }
}

/// Agreement on reads and shape is transitive.
pub proof fn lemma_reads_trans(a: Seq<PanelModel>, b: Seq<PanelModel>, c: Seq<PanelModel>)
    requires
        same_reads(a, b),
        same_shape(a, b),
        same_reads(b, c),
        same_shape(b, c),
    ensures
        same_reads(a, c),
        same_shape(a, c),
{
    assert forall|i: int| 0 <= i < a.len() implies (#[trigger] c[i]).is_open == a[i].is_open && c[i].userflg
        == a[i].userflg && c[i].is_bom == a[i].is_bom && c[i].around == a[i].around && c[i].around_num
        == a[i].around_num by {
        assert(b[i].is_open == a[i].is_open);
    }
    assert forall|i: int| 0 <= i < a.len() implies (#[trigger] c[i]).index == a[i].index && c[i].pos_x
        == a[i].pos_x && c[i].pos_y == a[i].pos_y && c[i].around == a[i].around && c[i].is_bom
        == a[i].is_bom && c[i].around_num == a[i].around_num by {
        assert(b[i].index == a[i].index);
    }
}

/// Trusting red flags that all stand on mines keeps the marks right.
pub proof fn lemma_believe_sound(b: Seq<PanelModel>, width: int, height: int)
    requires
        sound_board(b, width, height),
        flags_right(b),
    ensures
        sound_board(believe_marks(b), width, height),
        same_reads(b, believe_marks(b)),
        same_shape(b, believe_marks(b)),
        flags_right(believe_marks(b)),
{
    let r = believe_marks(b);
    assert forall|i: int| 0 <= i < r.len() implies (#[trigger] r[i]).auto_flg != AutoSts::Unknown && (
    r[i].auto_flg == AutoSts::Danger ==> r[i].is_bom) && (r[i].auto_flg == AutoSts::Safety
        ==> !r[i].is_bom) by {
        assert(b[i].auto_flg != AutoSts::Unknown);
        if b[i].userflg == UserFlg::RedFlg {
            assert(b[i].is_bom);
        }
    }
    lemma_sound_transfer(b, r, width, height);
}

/// One simple step keeps the marks right (trusting red flags only when they are right).
pub proof fn lemma_simple_step_sound(b: Seq<PanelModel>, believe: bool, width: int, height: int)
    requires
        sound_board(b, width, height),
        believe ==> flags_right(b),
    ensures
        sound_board(simple_step(b, believe).0, width, height),
        same_reads(b, simple_step(b, believe).0),
        same_shape(b, simple_step(b, believe).0),
        flags_right(b) == flags_right(simple_step(b, believe).0),
{
    let b0 = if believe {
        believe_marks(b)
    } else {
        b
    };
    if believe {
        lemma_believe_sound(b, width, height);
    } else {
        lemma_mark_all_shape(b, Seq::empty(), AutoSts::Safety);
        assert(mark_all(b, Seq::empty(), AutoSts::Safety) =~= b);
    }
    lemma_danger_pass_sound(b0, b0.len(), width, height);
    let b1 = danger_pass(b0, b0.len()).0;
    lemma_safety_pass_sound(b1, b1.len(), width, height);
    let b2 = safety_pass(b1, b1.len()).0;
    lemma_reads_trans(b, b0, b1);
    lemma_reads_trans(b, b1, b2);
}

/// Whether panel `j` of `b` is a mine, as a predicate on indices.
pub open spec fn mine_of(b: Seq<PanelModel>) -> spec_fn(int) -> bool {
    |j: int| is_mine(b, j)
}

/// The fact of an entry holds on `b`: its panels are distinct panels of `b` and
/// hold exactly `bomnum` mines.
pub open spec fn fact_holds(b: Seq<PanelModel>, e: InfEntry) -> bool {
    &&& e.index.no_duplicates()
    &&& forall|x: int| #[trigger] e.index.contains(x) ==> valid_idx(b, x)
    &&& count_where(e.index, mine_of(b)) == e.bomnum
}

/// Every fact of `infe` holds on `b`.
pub open spec fn facts_hold(b: Seq<PanelModel>, infe: Seq<InfEntry>) -> bool {
    forall|i: int| 0 <= i < infe.len() ==> fact_holds(b, #[trigger] infe[i])
}

/// A selection among entries that repeat no admitted value repeats nothing.
pub proof fn lemma_select_no_dup(a: Seq<int>, p: spec_fn(int) -> bool)
    requires
        forall|k1: int, k2: int|
            0 <= k1 < a.len() && 0 <= k2 < a.len() && k1 != k2 && p(#[trigger] a[k1]) ==> a[k1] != #[trigger] a[k2],
    ensures
        select(a, p).no_duplicates(),
    decreases a.len(),
{
    if a.len() > 0 {
        let d = a.drop_last();
        assert forall|k1: int, k2: int|
            0 <= k1 < d.len() && 0 <= k2 < d.len() && k1 != k2 && p(#[trigger] d[k1]) implies d[k1] != #[trigger] d[k2] by {
            assert(a[k1] == d[k1] && a[k2] == d[k2]);
        }
        lemma_select_no_dup(d, p);
        let s = select(d, p);
        if p(a.last()) {
            lemma_select_sound(d, p);
            let t = select(a, p);
            assert(t =~= s.push(a.last()));
            assert forall|m: int| 0 <= m < s.len() implies #[trigger] s[m] != a.last() by {
                let k = choose|k: int| 0 <= k < d.len() && d[k] == s[m];
                assert(a[k] == d[k]);
                assert(p(a[k]));
                assert(a[k] != a[a.len() - 1]);
            }
            assert forall|i: int, j: int| 0 <= i < t.len() && 0 <= j < t.len() && i != j implies t[i] != t[j] by {
                if i < s.len() && j < s.len() {
                    assert(t[i] == s[i] && t[j] == s[j]);
                } else if i < s.len() {
                    assert(t[i] == s[i]);
                } else {
                    assert(t[j] == s[j]);
                }
            }
        }
    }
}

/// For entries without repetition, a count is the size of the set counted.
pub proof fn lemma_count_as_set(a: Seq<int>, f: spec_fn(int) -> bool)
    requires
        a.no_duplicates(),
    ensures
        a.to_set().filter(f).finite(),
        count_where(a, f) == a.to_set().filter(f).len(),
    decreases a.len(),
{
    broadcast use vstd::set::group_set_axioms;

    if a.len() == 0 {
        assert(a.to_set().filter(f) =~= Set::<int>::empty());
    } else {
        let d = a.drop_last();
        let x = a.last();
        assert forall|i: int, j: int| 0 <= i < d.len() && 0 <= j < d.len() && i != j implies d[i] != d[j] by {
            assert(a[i] == d[i] && a[j] == d[j]);
        }
        lemma_count_as_set(d, f);
        assert(!d.to_set().filter(f).contains(x)) by {
            if d.contains(x) {
                let k = choose|k: int| 0 <= k < d.len() && d[k] == x;
                assert(a[k] == d[k]);
                assert(a[a.len() - 1] == x);
            }
        }
        assert forall|y: int| #[trigger] a.contains(y) == (d.contains(y) || y == x) by {
            if a.contains(y) {
                let k = choose|k: int| 0 <= k < a.len() && a[k] == y;
                if k < a.len() - 1 {
                    assert(d[k] == y);
                }
            }
            if d.contains(y) {
                let k = choose|k: int| 0 <= k < d.len() && d[k] == y;
                assert(a[k] == y);
            }
            if y == x {
                assert(a[a.len() - 1] == x);
            }
        }
        if f(x) {
            assert(a.to_set().filter(f) =~= d.to_set().filter(f).insert(x));
        } else {
            assert(a.to_set().filter(f) =~= d.to_set().filter(f));
        }
    }
}

/// What an open panel of a sound board tells about its unmarked closed neighbours holds.
pub proof fn lemma_entry_fact(b: Seq<PanelModel>, c: int, width: int, height: int)
    requires
        sound_board(b, width, height),
        0 <= c < b.len(),
        b[c].is_open,
    ensures
        fact_holds(b, infe_entry(b, c)),
{
    let r = b[c].around;
    let pu = |j: int| is_closed(b, j) && b[j].auto_flg == AutoSts::Unmarked;
    let idx = select(r, pu);
    assert(idx == infe_entry(b, c).index);
    assert(wf_panel(b[c], c, width, height));
    assert(r.len() == 9);
    lemma_around_no_dup(b, width, height, c);
    assert forall|k1: int, k2: int|
        0 <= k1 < r.len() && 0 <= k2 < r.len() && k1 != k2 && pu(#[trigger] r[k1]) implies r[k1] != #[trigger] r[k2] by {
        assert(r[k1] != -1);
    }
    lemma_select_no_dup(r, pu);
    lemma_select_sound(r, pu);
    assert forall|x: int| #[trigger] idx.contains(x) implies valid_idx(b, x) by {
        let m = choose|m: int| 0 <= m < idx.len() && idx[m] == x;
        assert(pu(idx[m]));
    }
    let fm = |j: int| valid_idx(b, j) && b[j].is_bom;
    let fd = |j: int| is_closed(b, j) && b[j].auto_flg == AutoSts::Danger;
    let isd = |j: int| valid_idx(b, j) && b[j].auto_flg == AutoSts::Danger;
    assert(!b[c].is_bom);
    assert(b[c].around_num == bombs_around(b, c) as int);
    lemma_count_split(r, fm, isd);
    lemma_count_where_ext(r, |j: int| fm(j) && isd(j), fd);
    lemma_count_where_ext(r, |j: int| fm(j) && !isd(j), |j: int| pu(j) && mine_of(b)(j));
    lemma_select_count(r, pu, mine_of(b));
}

/// A fact only reads mines, so it still holds after marks change.
pub proof fn lemma_fact_transfer(a: Seq<PanelModel>, b: Seq<PanelModel>, e: InfEntry)
    requires
        same_reads(a, b),
        fact_holds(a, e),
    ensures
        fact_holds(b, e),
{
    assert forall|k: int| 0 <= k < e.index.len() implies mine_of(a)(#[trigger] e.index[k]) == mine_of(b)(
        e.index[k],
    ) by {
        let j = e.index[k];
        if valid_idx(a, j) {
            assert(b[j].is_bom == a[j].is_bom);
        }
    }
    lemma_count_where_ext(e.index, mine_of(a), mine_of(b));
}

/// All facts transfer.
pub proof fn lemma_facts_transfer(a: Seq<PanelModel>, b: Seq<PanelModel>, infe: Seq<InfEntry>)
    requires
        same_reads(a, b),
        facts_hold(a, infe),
    ensures
        facts_hold(b, infe),
{
    assert forall|i: int| 0 <= i < infe.len() implies fact_holds(b, #[trigger] infe[i]) by {
        lemma_fact_transfer(a, b, infe[i]);
    }
}

/// The facts learnt from a sound board hold.
pub proof fn lemma_infe_upto_facts(b: Seq<PanelModel>, k: nat, width: int, height: int)
    requires
        sound_board(b, width, height),
        k <= b.len(),
    ensures
        facts_hold(b, infe_upto(b, k)),
    decreases k,
{
    if k > 0 {
        lemma_infe_upto_facts(b, (k - 1) as nat, width, height);
        let c = k - 1;
        let s = infe_upto(b, (k - 1) as nat);
        if b[c].is_open && infe_entry(b, c).bomnum > 0 {
            lemma_entry_fact(b, c, width, height);
            let t = s.push(infe_entry(b, c));
            assert forall|i: int| 0 <= i < t.len() implies fact_holds(b, #[trigger] t[i]) by {
                if i < s.len() {
                    assert(t[i] == s[i]);
                }
            }
        }
    }
}

/// The first comparable fact is comparable.
pub proof fn lemma_first_candidate(infe: Seq<InfEntry>, c: int, myclose: Seq<int>, k: int)
    ensures
        first_candidate(infe, c, myclose, k) matches Some(i) ==> 0 <= i < infe.len() && candidate(
            infe,
            i,
            c,
            myclose,
        ),
    decreases infe.len() - k,
{
    if 0 <= k < infe.len() && !candidate(infe, k, c, myclose) {
        lemma_first_candidate(infe, c, myclose, k + 1);
    }
}

/// The deep rule for one panel keeps the marks right.
pub proof fn lemma_inference_one_sound(
    b: Seq<PanelModel>,
    infe: Seq<InfEntry>,
    c: int,
    width: int,
    height: int,
)
    requires
        sound_board(b, width, height),
        facts_hold(b, infe),
        0 <= c < b.len(),
        b[c].is_open,
    ensures
        sound_board(inference_one_spec(b, infe, c).0, width, height),
        same_reads(b, inference_one_spec(b, infe, c).0),
        same_shape(b, inference_one_spec(b, infe, c).0),
        flags_right(b) == flags_right(inference_one_spec(b, infe, c).0),
{
    let n = b[c].around_num - danger_count(b, c);
    let myclose = unmarked_closed(b, c);
    lemma_mark_all_shape(b, Seq::empty(), AutoSts::Safety);
    assert(mark_all(b, Seq::empty(), AutoSts::Safety) =~= b);
    if myclose.len() == 0 || n == 0 {
    } else {
        lemma_first_candidate(infe, c, myclose, 0);
        match first_candidate(infe, c, myclose, 0) {
            None => {},
            Some(i) => {
                let idx = infe[i].index;
                let inidx = |x: int| idx.contains(x);
                let rem = remain_of(myclose, idx);
                let mine = mine_of(b);
                lemma_entry_fact(b, c, width, height);
                assert(fact_holds(b, infe[i]));
                lemma_count_split(myclose, mine, inidx);
                lemma_select_count(myclose, |x: int| !idx.contains(x), mine);
                lemma_count_where_ext(
                    myclose,
                    |j: int| (|x: int| !idx.contains(x))(j) && mine(j),
                    |j: int| mine(j) && !inidx(j),
                );
                lemma_count_as_set(myclose, |j: int| mine(j) && inidx(j));
                lemma_count_as_set(idx, mine);
                assert(myclose.to_set().filter(|j: int| mine(j) && inidx(j)) =~= idx.to_set().filter(
                    mine,
                ));
                assert(count_where(rem, mine) == n - infe[i].bomnum);
                lemma_select_sound(myclose, |x: int| !idx.contains(x));
                if n == infe[i].bomnum {
                    assert forall|x: int| #[trigger] rem.contains(x) && valid_idx(b, x) implies !b[x].is_bom by {
                        let m = choose|m: int| 0 <= m < rem.len() && rem[m] == x;
                        if b[x].is_bom {
                            assert(mine(rem[m]));
                            lemma_count_pos(rem, mine, m);
                        }
                    }
                    lemma_mark_sound(b, rem, AutoSts::Safety, width, height);
                } else if n - infe[i].bomnum == rem.len() {
                    let all = |j: int| true;
                    lemma_count_all(rem, all);
                    lemma_count_where_sub_eq(rem, mine, all);
                    assert forall|x: int| #[trigger] rem.contains(x) && valid_idx(b, x) implies b[x].is_bom by {
                        let m = choose|m: int| 0 <= m < rem.len() && rem[m] == x;
                        assert(all(rem[m]));
                    }
                    lemma_mark_sound(b, rem, AutoSts::Danger, width, height);
                }
            },
        }
    }
}

/// The deep rule over panels `0..k` keeps the marks right.
pub proof fn lemma_check_pass_sound(
    b: Seq<PanelModel>,
    infe: Seq<InfEntry>,
    k: nat,
    width: int,
    height: int,
)
    requires
        sound_board(b, width, height),
        facts_hold(b, infe),
        k <= b.len(),
    ensures
        sound_board(check_pass(b, infe, k).0, width, height),
        same_reads(b, check_pass(b, infe, k).0),
        same_shape(b, check_pass(b, infe, k).0),
        flags_right(b) == flags_right(check_pass(b, infe, k).0),
    decreases k,
{
    if k == 0 {
        lemma_mark_all_shape(b, Seq::empty(), AutoSts::Safety);
        assert(mark_all(b, Seq::empty(), AutoSts::Safety) =~= b);
    } else {
        lemma_check_pass_sound(b, infe, (k - 1) as nat, width, height);
        let b1 = check_pass(b, infe, (k - 1) as nat).0;
        if b1[k - 1].is_open {
            lemma_facts_transfer(b, b1, infe);
            lemma_inference_one_sound(b1, infe, k - 1, width, height);
            lemma_reads_trans(b, b1, inference_one_spec(b1, infe, k - 1).0);
        }
    }
}

/// One deep step keeps the marks right.
pub proof fn lemma_deep_step_sound(b: Seq<PanelModel>, width: int, height: int)
    requires
        sound_board(b, width, height),
    ensures
        sound_board(deep_step(b).0, width, height),
        same_reads(b, deep_step(b).0),
        same_shape(b, deep_step(b).0),
        flags_right(b) == flags_right(deep_step(b).0),
{
    lemma_infe_upto_facts(b, b.len(), width, height);
    lemma_check_pass_sound(b, infe_upto(b, b.len()), b.len(), width, height);
}

/// Repeated simple steps keep the marks right.
pub proof fn lemma_repeat_simple_sound(b: Seq<PanelModel>, believe: bool, n: nat, width: int, height: int)
    requires
        sound_board(b, width, height),
        believe ==> flags_right(b),
    ensures
        sound_board(repeat_simple(b, believe, n), width, height),
        same_reads(b, repeat_simple(b, believe, n)),
        same_shape(b, repeat_simple(b, believe, n)),
        flags_right(b) == flags_right(repeat_simple(b, believe, n)),
    decreases n,
{
    lemma_mark_all_shape(b, Seq::empty(), AutoSts::Safety);
    assert(mark_all(b, Seq::empty(), AutoSts::Safety) =~= b);
    if n > 0 {
        lemma_simple_step_sound(b, believe, width, height);
        let (b1, u) = simple_step(b, believe);
        if u {
            lemma_repeat_simple_sound(b1, believe, (n - 1) as nat, width, height);
            lemma_reads_trans(b, b1, repeat_simple(b1, believe, (n - 1) as nat));
        }
    }
}

/// Repeated deep steps keep the marks right.
pub proof fn lemma_repeat_deep_sound(b: Seq<PanelModel>, n: nat, width: int, height: int)
    requires
        sound_board(b, width, height),
    ensures
        sound_board(repeat_deep(b, n), width, height),
        same_reads(b, repeat_deep(b, n)),
        same_shape(b, repeat_deep(b, n)),
        flags_right(b) == flags_right(repeat_deep(b, n)),
    decreases n,
{
    lemma_mark_all_shape(b, Seq::empty(), AutoSts::Safety);
    assert(mark_all(b, Seq::empty(), AutoSts::Safety) =~= b);
    if n > 0 {
        lemma_deep_step_sound(b, width, height);
        let (b1, u) = deep_step(b);
        if u {
            lemma_repeat_deep_sound(b1, (n - 1) as nat, width, height);
            lemma_reads_trans(b, b1, repeat_deep(b1, (n - 1) as nat));
        }
    }
}

/// Rounds of inference keep the marks right.
pub proof fn lemma_rounds_sound(b: Seq<PanelModel>, believe: bool, m: nat, width: int, height: int)
    requires
        sound_board(b, width, height),
        believe ==> flags_right(b),
    ensures
        sound_board(inference_rounds(b, believe, m), width, height),
        same_reads(b, inference_rounds(b, believe, m)),
        same_shape(b, inference_rounds(b, believe, m)),
        flags_right(b) == flags_right(inference_rounds(b, believe, m)),
    decreases m,
{
    if m == 0 {
        lemma_mark_all_shape(b, Seq::empty(), AutoSts::Safety);
        assert(mark_all(b, Seq::empty(), AutoSts::Safety) =~= b);
    } else {
        lemma_rounds_sound(b, believe, (m - 1) as nat, width, height);
        let b1 = inference_rounds(b, believe, (m - 1) as nat);
        lemma_repeat_simple_sound(b1, believe, 10, width, height);
        let b2 = repeat_simple(b1, believe, 10);
        lemma_repeat_deep_sound(b2, 10, width, height);
        let b3 = repeat_deep(b2, 10);
        assert(inference_round(b1, believe) == b3);
        lemma_reads_trans(b, b1, b2);
        lemma_reads_trans(b, b2, b3);
    }
}

/// The assist engine's marks are right: on a board whose numbers agree with its mines
/// and where no mine is open, every panel that the inference marks dangerous is a
/// mine and every panel it marks safe is not, provided that, where red flags are
/// trusted, each stands on a mine.
pub proof fn lemma_inference_sound(
    b: Seq<PanelModel>,
    width: int,
    height: int,
    believe_before: bool,
    believe: bool,
)
    requires
        wf_board(b, width, height),
        consistent(b),
        no_open_mine(b),
        believe_before || believe ==> flags_right(b),
    ensures
        inference_result(b, believe_before, believe).len() == b.len(),
        forall|i: int|
            0 <= i < b.len() ==> ((#[trigger] inference_result(b, believe_before, believe)[i]).auto_flg
                == AutoSts::Danger ==> b[i].is_bom) && (inference_result(
                b,
                believe_before,
                believe,
            )[i].auto_flg == AutoSts::Safety ==> !b[i].is_bom),
{
    let b0 = assist_cleared(b);
    assert(same_reads(b, b0));
    assert(same_shape(b, b0));
    lemma_same_shape(b, b0, width, height);
    assert forall|i: int| 0 <= i < b0.len() && (#[trigger] b0[i]).is_open implies !b0[i].is_bom by {
        assert(b[i].is_open);
    }
    assert(sound_board(b0, width, height));
    if believe_before || believe {
        assert forall|i: int| 0 <= i < b0.len() && (#[trigger] b0[i]).userflg == UserFlg::RedFlg implies b0[i].is_bom by {
            assert(b[i].userflg == UserFlg::RedFlg);
        }
    }
    lemma_rounds_sound(b0, believe_before, 10, width, height);
    let b1 = inference_rounds(b0, believe_before, 10);
    lemma_rounds_sound(b1, believe, 10, width, height);
    let b2 = inference_rounds(b1, believe, 10);
    lemma_reads_trans(b0, b1, b2);
    assert forall|i: int| 0 <= i < b.len() implies ((#[trigger] b2[i]).auto_flg == AutoSts::Danger
        ==> b[i].is_bom) && (b2[i].auto_flg == AutoSts::Safety ==> !b[i].is_bom) by {
        assert(b2[i].is_bom == b0[i].is_bom);
        assert(b0[i].is_bom == b[i].is_bom);
    }
}

/// Flagging every panel marked dangerous (the F key) on a board with right marks and
/// right red flags leaves every red flag on a mine.
pub proof fn lemma_redflag_all_right(b: Seq<PanelModel>)
    requires
        marks_sound(b),
        flags_right(b),
    ensures
        flags_right(redflag_all(b)),
{
    let r = redflag_all(b);
    assert forall|i: int| 0 <= i < r.len() && (#[trigger] r[i]).userflg == UserFlg::RedFlg implies r[i].is_bom by {
        assert(b[i].auto_flg != AutoSts::Unknown);
    }
}

/// Agreement on shape is transitive.
pub proof fn lemma_shape_trans(a: Seq<PanelModel>, b: Seq<PanelModel>, c: Seq<PanelModel>)
    requires
        same_shape(a, b),
        same_shape(b, c),
    ensures
        same_shape(a, c),
{
    assert forall|i: int| 0 <= i < a.len() implies (#[trigger] c[i]).index == a[i].index && c[i].pos_x
        == a[i].pos_x && c[i].pos_y == a[i].pos_y && c[i].around == a[i].around && c[i].is_bom
        == a[i].is_bom && c[i].around_num == a[i].around_num by {
        assert(b[i].index == a[i].index);
    }
}

/// One simple step only changes marks.
pub proof fn lemma_simple_step_shape(b: Seq<PanelModel>, believe: bool)
    ensures
        same_shape(b, simple_step(b, believe).0),
{
    let b0 = if believe {
        believe_marks(b)
    } else {
        b
    };
    assert(same_shape(b, b0));
    lemma_danger_pass_shape(b0, b0.len());
    let b1 = danger_pass(b0, b0.len()).0;
    lemma_safety_pass_shape(b1, b1.len());
    lemma_shape_trans(b, b0, b1);
    lemma_shape_trans(b, b1, safety_pass(b1, b1.len()).0);
}

/// The danger rule over panels `0..k` only changes marks.
pub proof fn lemma_danger_pass_shape(b: Seq<PanelModel>, k: nat)
    ensures
        same_shape(b, danger_pass(b, k).0),
    decreases k,
{
    if k > 0 {
        lemma_danger_pass_shape(b, (k - 1) as nat);
        let b1 = danger_pass(b, (k - 1) as nat).0;
        lemma_mark_all_shape(b1, danger_targets(b1, k - 1), AutoSts::Danger);
        lemma_shape_trans(b, b1, danger_one(b1, k - 1).0);
    }
}

/// The safety rule over panels `0..k` only changes marks.
pub proof fn lemma_safety_pass_shape(b: Seq<PanelModel>, k: nat)
    ensures
        same_shape(b, safety_pass(b, k).0),
    decreases k,
{
    if k > 0 {
        lemma_safety_pass_shape(b, (k - 1) as nat);
        let b1 = safety_pass(b, (k - 1) as nat).0;
        lemma_mark_all_shape(b1, safety_targets(b1, k - 1), AutoSts::Safety);
        lemma_shape_trans(b, b1, safety_one(b1, k - 1).0);
    }
}

/// The deep rule for one panel only changes marks.
pub proof fn lemma_inference_one_shape(b: Seq<PanelModel>, infe: Seq<InfEntry>, c: int)
    ensures
        same_shape(b, inference_one_spec(b, infe, c).0),
{
    let myclose = unmarked_closed(b, c);
    match first_candidate(infe, c, myclose, 0) {
        Some(i) => {
            let rem = remain_of(myclose, infe[i].index);
            lemma_mark_all_shape(b, rem, AutoSts::Safety);
            lemma_mark_all_shape(b, rem, AutoSts::Danger);
        },
        None => {},
    }
}

/// The deep rule over panels `0..k` only changes marks.
pub proof fn lemma_check_pass_shape(b: Seq<PanelModel>, infe: Seq<InfEntry>, k: nat)
    ensures
        same_shape(b, check_pass(b, infe, k).0),
    decreases k,
{
    if k > 0 {
        lemma_check_pass_shape(b, infe, (k - 1) as nat);
        let b1 = check_pass(b, infe, (k - 1) as nat).0;
        lemma_inference_one_shape(b1, infe, k - 1);
        lemma_shape_trans(b, b1, inference_one_spec(b1, infe, k - 1).0);
    }
}

/// Repeated simple steps only change marks.
pub proof fn lemma_repeat_simple_shape(b: Seq<PanelModel>, believe: bool, n: nat)
    ensures
        same_shape(b, repeat_simple(b, believe, n)),
    decreases n,
{
    if n > 0 {
        lemma_simple_step_shape(b, believe);
        let (b1, u) = simple_step(b, believe);
        if u {
            lemma_repeat_simple_shape(b1, believe, (n - 1) as nat);
            lemma_shape_trans(b, b1, repeat_simple(b1, believe, (n - 1) as nat));
        }
    }
}

/// Repeated deep steps only change marks.
pub proof fn lemma_repeat_deep_shape(b: Seq<PanelModel>, n: nat)
    ensures
        same_shape(b, repeat_deep(b, n)),
    decreases n,
{
    if n > 0 {
        lemma_check_pass_shape(b, infe_upto(b, b.len()), b.len());
        let (b1, u) = deep_step(b);
        if u {
            lemma_repeat_deep_shape(b1, (n - 1) as nat);
            lemma_shape_trans(b, b1, repeat_deep(b1, (n - 1) as nat));
        }
    }
}

/// Rounds of inference only change marks.
pub proof fn lemma_rounds_shape(b: Seq<PanelModel>, believe: bool, m: nat)
    ensures
        same_shape(b, inference_rounds(b, believe, m)),
    decreases m,
{
    if m > 0 {
        lemma_rounds_shape(b, believe, (m - 1) as nat);
        let b1 = inference_rounds(b, believe, (m - 1) as nat);
        lemma_repeat_simple_shape(b1, believe, 10);
        let b2 = repeat_simple(b1, believe, 10);
        lemma_repeat_deep_shape(b2, 10);
        lemma_shape_trans(b, b1, b2);
        lemma_shape_trans(b, b2, repeat_deep(b2, 10));
    }
}

/// The inference only changes emphasis and marks: the board keeps its cells, mines
/// and numbers.
pub proof fn lemma_inference_shape(b: Seq<PanelModel>, believe_before: bool, believe: bool)
    ensures
        same_shape(b, inference_result(b, believe_before, believe)),
{
    let b0 = assist_cleared(b);
    assert(same_shape(b, b0));
    lemma_rounds_shape(b0, believe_before, 10);
    let b1 = inference_rounds(b0, believe_before, 10);
    lemma_rounds_shape(b1, believe, 10);
    lemma_shape_trans(b, b0, b1);
    lemma_shape_trans(b, b1, inference_rounds(b1, believe, 10));
}

/// With no comparable fact before position `i` (from `k` on), the search finds fact `i`.
proof fn lemma_first_candidate_is(infe: Seq<InfEntry>, c: int, myclose: Seq<int>, k: int, i: int)
    requires
        0 <= k <= i < infe.len(),
        candidate(infe, i, c, myclose),
        forall|j: int| k <= j < i ==> !candidate(infe, j, c, myclose),
    ensures
        first_candidate(infe, c, myclose, k) == Some(i),
    decreases i - k,
{
    if k < i {
        lemma_first_candidate_is(infe, c, myclose, k + 1, i);
    }
}

/// The deep rule compares panel `c` with the first fact, from another open panel, whose
/// panels all lie among `c`'s unmarked closed neighbours and leave some of them out.
/// Let `n` be the mines `c` still misses (its number less the neighbours marked
/// dangerous) and `k` the mines of that fact. When `n` equals `k`, every neighbour left
/// out of the fact is marked safe; when `n` differs from `k` and the left-out
/// neighbours are exactly `n - k` in number, every one of them is marked dangerous.
/// Either way the rule reports a change.
pub proof fn lemma_deep_rule(b: Seq<PanelModel>, infe: Seq<InfEntry>, c: int, i: int)
    requires
        0 <= c < b.len(),
        0 <= i < infe.len(),
        b[c].around_num - danger_count(b, c) > 0,
        infe[i].myindex != c,
        forall|x: int| #[trigger] infe[i].index.contains(x) ==> unmarked_closed(b, c).contains(x),
        remain_of(unmarked_closed(b, c), infe[i].index).len() > 0,
        forall|j: int| 0 <= j < i ==> !candidate(infe, j, c, unmarked_closed(b, c)),
    ensures
        ({
            let n = b[c].around_num - danger_count(b, c);
            let left = remain_of(unmarked_closed(b, c), infe[i].index);
            let r = inference_one_spec(b, infe, c);
            &&& n == infe[i].bomnum ==> r.1 && forall|x: int|
                #[trigger] left.contains(x) ==> r.0[x].auto_flg == AutoSts::Safety
            &&& n != infe[i].bomnum && n - infe[i].bomnum == left.len() ==> r.1 && forall|x: int|
                #[trigger] left.contains(x) ==> r.0[x].auto_flg == AutoSts::Danger
        }),
{
    let myclose = unmarked_closed(b, c);
    let left = remain_of(myclose, infe[i].index);
    assert(candidate(infe, i, c, myclose));
    lemma_first_candidate_is(infe, c, myclose, 0, i);
    lemma_select_sound(b[c].around, |j: int| is_closed(b, j) && b[j].auto_flg == AutoSts::Unmarked);
    lemma_select_sound(myclose, |x: int| !infe[i].index.contains(x));
    assert(myclose.len() > 0);
    assert forall|x: int| #[trigger] left.contains(x) implies 0 <= x < b.len() by {
        let m = choose|m: int| 0 <= m < left.len() && left[m] == x;
        assert(myclose.contains(left[m]));
        let q = choose|q: int| 0 <= q < myclose.len() && myclose[q] == x;
        assert(is_closed(b, myclose[q]));
    }
}

} // verus!
