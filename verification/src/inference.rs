use vstd::prelude::*;
use crate::myconst::{AutoSts, UserFlg};
use crate::panel::{Panel, PanelModel};
use crate::board::{
    wf_board,
    valid_idx,
    count_where,
    same_shape,
    lemma_count_where_take,
    lemma_around_entry,
};
use crate::gametable::{board_view, assist_cleared};

verus! {

/// Entries of `a` that satisfy `p`, in order.
pub open spec fn select(a: Seq<int>, p: spec_fn(int) -> bool) -> Seq<int>
    decreases a.len(),
{
    if a.len() == 0 {
        Seq::empty()
    } else {
        let s = select(a.drop_last(), p);
        if p(a.last()) {
            s.push(a.last())
        } else {
            s
        }
    }
}

/// `b` with the mark `m` on every panel listed in `s`.
pub open spec fn mark_all(b: Seq<PanelModel>, s: Seq<int>, m: AutoSts) -> Seq<PanelModel> {
    Seq::new(
        b.len(),
        |i: int|
            if s.contains(i) {
                PanelModel { auto_flg: m, ..b[i] }
            } else {
                b[i]
            },
    )
}

/// A closed panel of `b`.
pub open spec fn is_closed(b: Seq<PanelModel>, j: int) -> bool {
    valid_idx(b, j) && !b[j].is_open
}

/// Number of closed panels around `c`.
pub open spec fn close_cnt(b: Seq<PanelModel>, c: int) -> int {
    count_where(b[c].around, |j: int| is_closed(b, j)) as int
}

/// Number of closed panels around `c` with a red flag on a mine.
pub open spec fn flag_cnt(b: Seq<PanelModel>, c: int) -> int {
    count_where(
        b[c].around,
        |j: int| is_closed(b, j) && b[j].userflg == UserFlg::RedFlg && b[j].is_bom,
    ) as int
}

/// Number of closed panels around `c` with a red flag on no mine.
pub open spec fn miss_cnt(b: Seq<PanelModel>, c: int) -> int {
    count_where(
        b[c].around,
        |j: int| is_closed(b, j) && b[j].userflg == UserFlg::RedFlg && !b[j].is_bom,
    ) as int
}

/// An open panel with a number: the emphasis rule looks at it.
pub open spec fn bold_source(b: Seq<PanelModel>, c: int) -> bool {
    valid_idx(b, c) && b[c].is_open && b[c].around_num > 0
}

/// The panel is emphasised when its closed neighbours are exactly its mines and
/// not all of them carry a correct red flag yet.
pub open spec fn bold_cond(b: Seq<PanelModel>, c: int) -> bool {
    close_cnt(b, c) == b[c].around_num && flag_cnt(b, c) != b[c].around_num
}

/// With safe marks on, a numbered panel whose mines all carry a correct red flag and
/// with no wrong red flag around it marks its other closed neighbours safe.
pub open spec fn safe_source(b: Seq<PanelModel>, c: int, is_safe_on: bool) -> bool {
    bold_source(b, c) && is_safe_on && flag_cnt(b, c) == b[c].around_num && miss_cnt(b, c) == 0
}

/// The board after the emphasis pass.
pub open spec fn bold_result(b: Seq<PanelModel>, is_safe_on: bool) -> Seq<PanelModel> {
    Seq::new(
        b.len(),
        |i: int|
            PanelModel {
                is_bold: if bold_source(b, i) {
                    bold_cond(b, i)
                } else {
                    b[i].is_bold
                },
                auto_flg: if !b[i].is_open && b[i].userflg != UserFlg::RedFlg && exists|c: int|
                    safe_source(b, c, is_safe_on) && #[trigger] b[c].around.contains(i) {
                    AutoSts::Safety
                } else {
                    AutoSts::Unmarked
                },
                ..b[i]
            },
    )
}

/// The emphasis pass emphasises an open numbered panel exactly when its closed
/// neighbours are as many as its number and not all of its mines carry a red flag: a
/// panel whose mines are all correctly flagged is never emphasised, whatever its
/// closed neighbours.
pub proof fn lemma_bold_needs_missing_flag(b: Seq<PanelModel>, is_safe_on: bool, c: int)
    requires
        0 <= c < b.len(),
        b[c].is_open,
        b[c].around_num > 0,
    ensures
        flag_cnt(b, c) == b[c].around_num ==> !bold_result(b, is_safe_on)[c].is_bold,
        count_where(b[c].around, |j: int| is_closed(b, j)) == b[c].around_num && flag_cnt(b, c)
            < b[c].around_num ==> bold_result(b, is_safe_on)[c].is_bold,
        count_where(b[c].around, |j: int| is_closed(b, j)) != b[c].around_num ==> !bold_result(
            b,
            is_safe_on,
        )[c].is_bold,
{
    assert(bold_source(b, c));
}

/// `a` and `b` agree on everything the assist rules read: openness, flags, mines,
/// neighbourhoods and numbers.
pub open spec fn same_reads(a: Seq<PanelModel>, b: Seq<PanelModel>) -> bool {
    &&& a.len() == b.len()
    &&& forall|i: int|
        0 <= i < a.len() ==> (#[trigger] b[i]).is_open == a[i].is_open && b[i].userflg
            == a[i].userflg && b[i].is_bom == a[i].is_bom && b[i].around == a[i].around
            && b[i].around_num == a[i].around_num
}

/// The counts of the emphasis rule only read what `same_reads` keeps.
pub proof fn lemma_same_reads_counts(a: Seq<PanelModel>, b: Seq<PanelModel>, c: int)
    requires
        same_reads(a, b),
        valid_idx(a, c),
    ensures
        close_cnt(a, c) == close_cnt(b, c),
        flag_cnt(a, c) == flag_cnt(b, c),
        miss_cnt(a, c) == miss_cnt(b, c),
        bold_source(a, c) == bold_source(b, c),
        bold_cond(a, c) == bold_cond(b, c),
        forall|s: bool| safe_source(a, c, s) == #[trigger] safe_source(b, c, s),
{
    let r = a[c].around;
    assert(b[c].around == r);
    assert forall|k: int| 0 <= k < r.len() implies is_closed(a, #[trigger] r[k]) == is_closed(b, r[k]) by {
        if valid_idx(a, r[k]) {
            assert(b[r[k]].is_open == a[r[k]].is_open);
        }
    }
    crate::board::lemma_count_where_ext(r, |j: int| is_closed(a, j), |j: int| is_closed(b, j));
    assert forall|k: int| 0 <= k < r.len() implies (is_closed(a, #[trigger] r[k]) && a[r[k]].userflg
        == UserFlg::RedFlg && a[r[k]].is_bom) == (is_closed(b, r[k]) && b[r[k]].userflg == UserFlg::RedFlg
        && b[r[k]].is_bom) by {
        if valid_idx(a, r[k]) {
            assert(b[r[k]].is_open == a[r[k]].is_open);
        }
    }
    crate::board::lemma_count_where_ext(
        r,
        |j: int| is_closed(a, j) && a[j].userflg == UserFlg::RedFlg && a[j].is_bom,
        |j: int| is_closed(b, j) && b[j].userflg == UserFlg::RedFlg && b[j].is_bom,
    );
    assert forall|k: int| 0 <= k < r.len() implies (is_closed(a, #[trigger] r[k]) && a[r[k]].userflg
        == UserFlg::RedFlg && !a[r[k]].is_bom) == (is_closed(b, r[k]) && b[r[k]].userflg == UserFlg::RedFlg
        && !b[r[k]].is_bom) by {
        if valid_idx(a, r[k]) {
            assert(b[r[k]].is_open == a[r[k]].is_open);
        }
    }
    crate::board::lemma_count_where_ext(
        r,
        |j: int| is_closed(a, j) && a[j].userflg == UserFlg::RedFlg && !a[j].is_bom,
        |j: int| is_closed(b, j) && b[j].userflg == UserFlg::RedFlg && !b[j].is_bom,
    );
}

/// No open panel hides a mine (the state of a game that is not lost).
pub open spec fn no_open_mine(b: Seq<PanelModel>) -> bool {
    forall|i: int| 0 <= i < b.len() && (#[trigger] b[i]).is_open ==> !b[i].is_bom
}

/// The safe marks of the emphasis pass are right: on a board whose numbers agree with
/// its mines and where no mine is open, no panel marked safe is a mine.
pub proof fn lemma_bold_safety_sound(b: Seq<PanelModel>, is_safe_on: bool)
    requires
        crate::board::consistent(b),
        no_open_mine(b),
    ensures
        forall|i: int|
            0 <= i < b.len() && (#[trigger] bold_result(b, is_safe_on)[i]).auto_flg == AutoSts::Safety
                ==> !b[i].is_bom,
{
    assert forall|i: int|
        0 <= i < b.len() && (#[trigger] bold_result(b, is_safe_on)[i]).auto_flg
            == AutoSts::Safety implies !b[i].is_bom by {
        let c = choose|c: int| safe_source(b, c, is_safe_on) && #[trigger] b[c].around.contains(i);
        let r = b[c].around;
        assert(b[c].is_open);
        assert(!b[c].is_bom);
        let fb = |j: int| valid_idx(b, j) && b[j].is_bom;
        let fr = |j: int| is_closed(b, j) && b[j].userflg == UserFlg::RedFlg && b[j].is_bom;
        assert(b[c].around_num == crate::board::bombs_around(b, c) as int);
        assert(count_where(r, fr) == count_where(r, fb));
        crate::board::lemma_count_where_sub_eq(r, fr, fb);
        let k = choose|k: int| 0 <= k < r.len() && r[k] == i;
        if b[i].is_bom {
            assert(fb(r[k]));
            assert(fr(r[k]));
        }
    }
}

/// The board after the emphasis rule ran for panel `c` alone.
pub open spec fn update_bold_result(t: Seq<PanelModel>, c: int, is_safe_on: bool) -> Seq<PanelModel> {
    Seq::new(
        t.len(),
        |i: int|
            PanelModel {
                is_bold: if i == c && bold_cond(t, c) {
                    true
                } else {
                    t[i].is_bold
                },
                auto_flg: if is_safe_on && flag_cnt(t, c) == t[c].around_num && miss_cnt(t, c) == 0
                    && t[c].around.contains(i) && is_closed(t, i) && t[i].userflg != UserFlg::RedFlg {
                    AutoSts::Safety
                } else {
                    t[i].auto_flg
                },
                ..t[i]
            },
    )
}

/// The emphasis pass after the first `k` panels.
pub open spec fn bold_partial(b: Seq<PanelModel>, is_safe_on: bool, k: int) -> Seq<PanelModel> {
    Seq::new(
        b.len(),
        |i: int|
            PanelModel {
                is_bold: if bold_source(b, i) && i < k {
                    bold_cond(b, i)
                } else {
                    b[i].is_bold
                },
                auto_flg: if !b[i].is_open && b[i].userflg != UserFlg::RedFlg && exists|c: int|
                    0 <= c < k && safe_source(b, c, is_safe_on) && #[trigger] b[c].around.contains(i) {
                    AutoSts::Safety
                } else {
                    AutoSts::Unmarked
                },
                ..b[i]
            },
    )
}

/// The values of a list of indices.
pub open spec fn ints(v: Seq<i32>) -> Seq<int> {
    v.map_values(|x: i32| x as int)
}

/// Selecting over a prefix one entry longer.
pub proof fn lemma_select_take(a: Seq<int>, p: spec_fn(int) -> bool, k: int)
    requires
        0 <= k < a.len(),
    ensures
        select(a.take(k + 1), p) == if p(a[k]) {
            select(a.take(k), p).push(a[k])
        } else {
            select(a.take(k), p)
        },
{
    assert(a.take(k + 1).drop_last() =~= a.take(k));
}

/// Selected entries come from the sequence and satisfy the predicate.
pub proof fn lemma_select_sound(a: Seq<int>, p: spec_fn(int) -> bool)
    ensures
        forall|m: int| 0 <= m < select(a, p).len() ==> p(#[trigger] select(a, p)[m]) && a.contains(select(a, p)[m]),
        forall|k: int| 0 <= k < a.len() && p(#[trigger] a[k]) ==> select(a, p).contains(a[k]),
        select(a, p).len() <= a.len(),
    decreases a.len(),
{
    if a.len() > 0 {
        let d = a.drop_last();
        lemma_select_sound(d, p);
        let s = select(d, p);
        assert forall|m: int| 0 <= m < select(a, p).len() implies p(#[trigger] select(a, p)[m]) && a.contains(
            select(a, p)[m],
        ) by {
            if m < s.len() {
                assert(select(a, p)[m] == s[m]);
                let k = choose|k: int| 0 <= k < d.len() && d[k] == s[m];
                assert(a[k] == d[k]);
            } else {
                assert(a[a.len() - 1] == a.last());
            }
        }
        assert forall|k: int| 0 <= k < a.len() && p(#[trigger] a[k]) implies select(a, p).contains(a[k]) by {
            if k < a.len() - 1 {
                assert(d[k] == a[k]);
                let m = choose|m: int| 0 <= m < s.len() && s[m] == d[k];
                assert(select(a, p)[m] == s[m]);
            } else {
                assert(select(a, p)[select(a, p).len() - 1] == a.last());
            }
        }
    }
}

/// Closed neighbours of `c` that are not marked safe.
pub open spec fn danger_targets(b: Seq<PanelModel>, c: int) -> Seq<int> {
    select(b[c].around, |j: int| is_closed(b, j) && b[j].auto_flg != AutoSts::Safety)
}

/// The danger rule for panel `c`: when an open panel has as many closed neighbours
/// not marked safe as its number, they are all mines. Returns the board and whether
/// a mark changed.
pub open spec fn danger_one(b: Seq<PanelModel>, c: int) -> (Seq<PanelModel>, bool) {
    let t = danger_targets(b, c);
    if b[c].is_open && b[c].around_num == t.len() {
        (
            mark_all(b, t, AutoSts::Danger),
            exists|m: int| 0 <= m < t.len() && b[#[trigger] t[m]].auto_flg != AutoSts::Danger,
        )
    } else {
        (b, false)
    }
}

/// Number of closed neighbours of `c` marked dangerous.
pub open spec fn danger_count(b: Seq<PanelModel>, c: int) -> int {
    count_where(b[c].around, |j: int| is_closed(b, j) && b[j].auto_flg == AutoSts::Danger) as int
}

/// Closed neighbours of `c` marked neither dangerous nor safe.
pub open spec fn safety_targets(b: Seq<PanelModel>, c: int) -> Seq<int> {
    select(
        b[c].around,
        |j: int|
            is_closed(b, j) && b[j].auto_flg != AutoSts::Danger && b[j].auto_flg != AutoSts::Safety,
    )
}

/// The safety rule for panel `c`: when an open panel with a number has as many
/// neighbours marked dangerous as its number, its other closed neighbours are safe.
pub open spec fn safety_one(b: Seq<PanelModel>, c: int) -> (Seq<PanelModel>, bool) {
    let t = safety_targets(b, c);
    if b[c].around_num != 0 && b[c].is_open && b[c].around_num == danger_count(b, c) {
        (
            mark_all(b, t, AutoSts::Safety),
            exists|m: int| 0 <= m < t.len() && b[#[trigger] t[m]].auto_flg != AutoSts::Safety,
        )
    } else {
        (b, false)
    }
}

/// `b` with every red-flagged panel marked dangerous.
pub open spec fn believe_marks(b: Seq<PanelModel>) -> Seq<PanelModel> {
    Seq::new(
        b.len(),
        |i: int|
            if b[i].userflg == UserFlg::RedFlg {
                PanelModel { auto_flg: AutoSts::Danger, ..b[i] }
            } else {
                b[i]
            },
    )
}

/// The danger rule applied to panels `0..k` in turn.
pub open spec fn danger_pass(b: Seq<PanelModel>, k: nat) -> (Seq<PanelModel>, bool)
    decreases k,
{
    if k == 0 {
        (b, false)
    } else {
        let (b1, u1) = danger_pass(b, (k - 1) as nat);
        let (b2, u2) = danger_one(b1, k - 1);
        (b2, u1 || u2)
    }
}

/// The safety rule applied to panels `0..k` in turn.
pub open spec fn safety_pass(b: Seq<PanelModel>, k: nat) -> (Seq<PanelModel>, bool)
    decreases k,
{
    if k == 0 {
        (b, false)
    } else {
        let (b1, u1) = safety_pass(b, (k - 1) as nat);
        let (b2, u2) = safety_one(b1, k - 1);
        (b2, u1 || u2)
    }
}

/// One simple inference step: (trusting red flags when `believe`) the danger rule
/// over every panel, then the safety rule over every panel.
pub open spec fn simple_step(b: Seq<PanelModel>, believe: bool) -> (Seq<PanelModel>, bool) {
    let b0 = if believe {
        believe_marks(b)
    } else {
        b
    };
    let (b1, u1) = danger_pass(b0, b0.len());
    let (b2, u2) = safety_pass(b1, b1.len());
    (b2, u1 || u2)
}

/// Marking only changes marks.
pub proof fn lemma_mark_all_shape(b: Seq<PanelModel>, s: Seq<int>, m: AutoSts)
    ensures
        same_reads(b, mark_all(b, s, m)),
        same_shape(b, mark_all(b, s, m)),
{
}

/// Every number on the board is between 0 and 9.
pub open spec fn nums_bounded(b: Seq<PanelModel>) -> bool {
    forall|i: int| 0 <= i < b.len() ==> 0 <= (#[trigger] b[i]).around_num <= 9
}

/// Changing marks, flags or openness keeps a board laid out and its numbers bounded.
pub proof fn lemma_inv_same_shape(a: Seq<PanelModel>, b: Seq<PanelModel>, width: int, height: int)
    requires
        wf_board(a, width, height),
        nums_bounded(a),
        same_shape(a, b),
    ensures
        wf_board(b, width, height),
        nums_bounded(b),
{
    crate::board::lemma_same_shape_wf(a, b, width, height);
    assert forall|i: int| 0 <= i < b.len() implies 0 <= (#[trigger] b[i]).around_num <= 9 by {
        assert(0 <= a[i].around_num <= 9);
    }
}

/// "The panels `index` hold `bomnum` mines", learnt from the open panel `myindex`.
pub struct InfEntry {
    pub myindex: int,
    pub index: Seq<int>,
    pub bomnum: int,
}

/// Closed neighbours of `c` without any mark.
pub open spec fn unmarked_closed(b: Seq<PanelModel>, c: int) -> Seq<int> {
    select(b[c].around, |j: int| is_closed(b, j) && b[j].auto_flg == AutoSts::Unmarked)
}

/// What panel `c` tells: its unmarked closed neighbours hold its number minus the
/// neighbours already marked dangerous.
pub open spec fn infe_entry(b: Seq<PanelModel>, c: int) -> InfEntry {
    InfEntry {
        myindex: c,
        index: unmarked_closed(b, c),
        bomnum: b[c].around_num - danger_count(b, c),
    }
}

/// The facts learnt from the open panels `0..k` that still miss mines.
pub open spec fn infe_upto(b: Seq<PanelModel>, k: nat) -> Seq<InfEntry>
    decreases k,
{
    if k == 0 {
        Seq::empty()
    } else {
        let s = infe_upto(b, (k - 1) as nat);
        let c = k - 1;
        if b[c].is_open && infe_entry(b, c).bomnum > 0 {
            s.push(infe_entry(b, c))
        } else {
            s
        }
    }
}

/// Entries of `myclose` outside `index`.
pub open spec fn remain_of(myclose: Seq<int>, index: Seq<int>) -> Seq<int> {
    select(myclose, |x: int| !index.contains(x))
}

/// Fact `i` can be compared with panel `c`: it comes from another panel, its
/// panels are all among `myclose`, and some panel of `myclose` is not in it.
pub open spec fn candidate(infe: Seq<InfEntry>, i: int, c: int, myclose: Seq<int>) -> bool {
    &&& infe[i].myindex != c
    &&& forall|x: int| #[trigger] infe[i].index.contains(x) ==> myclose.contains(x)
    &&& remain_of(myclose, infe[i].index).len() > 0
}

/// The first fact from position `k` on that can be compared with panel `c`.
pub open spec fn first_candidate(infe: Seq<InfEntry>, c: int, myclose: Seq<int>, k: int) -> Option<int>
    decreases infe.len() - k,
{
    if k < 0 || k >= infe.len() {
        None
    } else if candidate(infe, k, c, myclose) {
        Some(k)
    } else {
        first_candidate(infe, c, myclose, k + 1)
    }
}

/// The deep rule for panel `c`: compared with the first fact whose panels all lie
/// among its unmarked closed neighbours, the rest of those neighbours are safe when
/// the fact accounts for all the mines still missing, and all mines when the
/// missing mines beyond the fact fill them.
pub open spec fn inference_one_spec(b: Seq<PanelModel>, infe: Seq<InfEntry>, c: int) -> (
    Seq<PanelModel>,
    bool,
) {
    let n = b[c].around_num - danger_count(b, c);
    let myclose = unmarked_closed(b, c);
    if myclose.len() == 0 || n == 0 {
        (b, false)
    } else {
        match first_candidate(infe, c, myclose, 0) {
            None => (b, false),
            Some(i) => {
                let rem = remain_of(myclose, infe[i].index);
                if n == infe[i].bomnum {
                    (mark_all(b, rem, AutoSts::Safety), true)
                } else if n - infe[i].bomnum == rem.len() {
                    (mark_all(b, rem, AutoSts::Danger), true)
                } else {
                    (b, false)
                }
            },
        }
    }
}

/// The deep rule applied to the open panels `0..k` in turn, against `infe`.
pub open spec fn check_pass(b: Seq<PanelModel>, infe: Seq<InfEntry>, k: nat) -> (
    Seq<PanelModel>,
    bool,
)
    decreases k,
{
    if k == 0 {
        (b, false)
    } else {
        let (b1, u1) = check_pass(b, infe, (k - 1) as nat);
        if b1[k - 1].is_open {
            let (b2, u2) = inference_one_spec(b1, infe, k - 1);
            (b2, u1 || u2)
        } else {
            (b1, u1)
        }
    }
}

/// One deep inference step: learn the facts of every open panel, then apply the
/// deep rule to every open panel.
pub open spec fn deep_step(b: Seq<PanelModel>) -> (Seq<PanelModel>, bool) {
    check_pass(b, infe_upto(b, b.len()), b.len())
}

/// Simple steps until one changes nothing, at most `n` of them.
pub open spec fn repeat_simple(b: Seq<PanelModel>, believe: bool, n: nat) -> Seq<PanelModel>
    decreases n,
{
    if n == 0 {
        b
    } else {
        let (b1, u) = simple_step(b, believe);
        if !u {
            b1
        } else {
            repeat_simple(b1, believe, (n - 1) as nat)
        }
    }
}

/// Deep steps until one changes nothing, at most `n` of them.
pub open spec fn repeat_deep(b: Seq<PanelModel>, n: nat) -> Seq<PanelModel>
    decreases n,
{
    if n == 0 {
        b
    } else {
        let (b1, u) = deep_step(b);
        if !u {
            b1
        } else {
            repeat_deep(b1, (n - 1) as nat)
        }
    }
}

/// One round: up to ten simple steps, then up to ten deep steps.
pub open spec fn inference_round(b: Seq<PanelModel>, believe: bool) -> Seq<PanelModel> {
    repeat_deep(repeat_simple(b, believe, 10), 10)
}

/// `m` rounds in a row.
pub open spec fn inference_rounds(b: Seq<PanelModel>, believe: bool, m: nat) -> Seq<PanelModel>
    decreases m,
{
    if m == 0 {
        b
    } else {
        inference_round(inference_rounds(b, believe, (m - 1) as nat), believe)
    }
}

/// The whole inference: clear every emphasis and mark, ten rounds trusting red flags
/// as the table did before, then ten rounds trusting them as asked.
pub open spec fn inference_result(b: Seq<PanelModel>, believe_before: bool, believe: bool) -> Seq<
    PanelModel,
> {
    inference_rounds(inference_rounds(assist_cleared(b), believe_before, 10), believe, 10)
}

/// What an inference table holds, as plain values (the scratch list of the deep
/// inference is not part of it: every deep step rebuilds it first).
pub struct InfModel {
    pub table: Seq<PanelModel>,
    pub width: int,
    pub height: int,
    pub believe_flg: bool,
}

impl InfModel {
    /// The table is a laid out board of the given size.
    pub open spec fn inv(self) -> bool {
        wf_board(self.table, self.width, self.height) && nums_bounded(self.table)
    }
}

/// "These panels hold `bomnum` mines", learnt from the open panel `myindex`.
struct Inference {
    myindex: i32,
    index: Vec<i32>,
    bomnum: i32,
}

/// A copy of a board on which the assist engine marks panels.
pub struct InfTable {
    table: Vec<Panel>,
    width: i32,
    height: i32,
    infe: Vec<Inference>,
    believe_flg: bool,
}

impl View for Inference {
    type V = InfEntry;

    closed spec fn view(&self) -> InfEntry {
        InfEntry { myindex: self.myindex as int, index: ints(self.index@), bomnum: self.bomnum as int }
    }
}

/// The facts of a list, as plain values.
spec fn infe_view(v: Seq<Inference>) -> Seq<InfEntry> {
    v.map_values(|e: Inference| e@)
}

/// Whether `x` is in `v`.
fn contains_i32(v: &Vec<i32>, x: i32) -> (r: bool)
    ensures
        r == ints(v@).contains(x as int),
{
    let mut i: usize = 0;
    while i < v.len()
        invariant
            i <= v.len(),
            forall|k: int| 0 <= k < i ==> v@[k] != x,
        decreases v.len() - i,
    {
        if v[i] == x {
            proof {
                assert(ints(v@)[i as int] == x);
            }
            return true;
        }
        i += 1;
    }
    proof {
        if ints(v@).contains(x as int) {
            let k = choose|k: int| 0 <= k < ints(v@).len() && ints(v@)[k] == x;
            assert(v@[k] == x);
        }
    }
    false
}

/// Whether every entry of `a` is in `b`.
fn all_in(a: &Vec<i32>, b: &Vec<i32>) -> (r: bool)
    ensures
        r == forall|x: int| #[trigger] ints(a@).contains(x) ==> ints(b@).contains(x),
{
    let mut i: usize = 0;
    while i < a.len()
        invariant
            i <= a.len(),
            forall|k: int| 0 <= k < i ==> ints(b@).contains(#[trigger] a@[k] as int),
        decreases a.len() - i,
    {
        if !contains_i32(b, a[i]) {
            proof {
                assert(ints(a@)[i as int] == a@[i as int]);
                assert(ints(a@).contains(a@[i as int] as int));
            }
            return false;
        }
        i += 1;
    }
    proof {
        assert forall|x: int| #[trigger] ints(a@).contains(x) implies ints(b@).contains(x) by {
            let k = choose|k: int| 0 <= k < ints(a@).len() && ints(a@)[k] == x;
            assert(a@[k] as int == x);
        }
    }
    true
}

/// The entries of `myclose` outside `index`.
fn remain_list(myclose: &Vec<i32>, index: &Vec<i32>) -> (r: Vec<i32>)
    ensures
        ints(r@) == remain_of(ints(myclose@), ints(index@)),
        r@.len() <= myclose@.len(),
{
    let ghost p = |x: int| !ints(index@).contains(x);
    let mut r: Vec<i32> = Vec::new();
    let mut m: usize = 0;
    while m < myclose.len()
        invariant
            m <= myclose.len(),
            p == (|x: int| !ints(index@).contains(x)),
            ints(r@) == select(ints(myclose@).take(m as int), p),
            r@.len() <= m,
        decreases myclose.len() - m,
    {
        proof {
            lemma_select_take(ints(myclose@), p, m as int);
            assert(ints(myclose@)[m as int] == myclose@[m as int]);
        }
        if !contains_i32(index, myclose[m]) {
            r.push(myclose[m]);
            proof {
                assert(ints(r@) =~= select(ints(myclose@).take(m as int), p).push(myclose@[m as int] as int));
            }
        }
        m += 1;
    }
    proof {
        assert(ints(myclose@).take(myclose@.len() as int) =~= ints(myclose@));
    }
    r
}

/// The facts of a board with bounded numbers claim between 1 and 9 mines.
pub proof fn lemma_infe_upto_ok(b: Seq<PanelModel>, k: nat)
    requires
        nums_bounded(b),
        k <= b.len(),
    ensures
        infe_ok(infe_upto(b, k)),
    decreases k,
{
    if k > 0 {
        lemma_infe_upto_ok(b, (k - 1) as nat);
        let c = k - 1;
        crate::board::lemma_count_where_le(
            b[c].around,
            |j: int| is_closed(b, j) && b[j].auto_flg == AutoSts::Danger,
        );
        assert(0 <= b[c].around_num <= 9);
    }
}

/// Every fact claims between 1 and 9 mines.
pub open spec fn infe_ok(infe: Seq<InfEntry>) -> bool {
    forall|i: int| 0 <= i < infe.len() ==> 0 < (#[trigger] infe[i]).bomnum <= 9
}

impl View for InfTable {
    type V = InfModel;

    closed spec fn view(&self) -> InfModel {
        InfModel {
            table: board_view(self.table@),
            width: self.width as int,
            height: self.height as int,
            believe_flg: self.believe_flg,
        }
    }
}

impl InfTable {
    /// An inference table over `table`, a `width` x `height` board.
    pub fn new(table: Vec<Panel>, width: i32, height: i32) -> (r: InfTable)
        ensures
            r@ == (InfModel {
                table: board_view(table@),
                width: width as int,
                height: height as int,
                believe_flg: false,
            }),
    {
        InfTable { table, width, height, infe: Vec::new(), believe_flg: false }
    }

    /// A copy of the marked board.
    pub fn get_table(&mut self) -> (r: Vec<Panel>)
        ensures
            board_view(r@) == old(self)@.table,
            final(self)@ == old(self)@,
    {
        let mut r: Vec<Panel> = Vec::new();
        let mut i: usize = 0;
        while i < self.table.len()
            invariant
                i <= self.table.len(),
                r@ == self.table@.subrange(0, i as int),
            decreases self.table.len() - i,
        {
            r.push(self.table[i]);
            i += 1;
        }
        proof {
            assert(r@ =~= self.table@);
        }
        r
    }

    /// Emphasis pass: clears every assist mark, then for every open panel with a
    /// number decides its emphasis and, with `is_safe_on`, marks safe panels.
    pub fn set_bold(&mut self, is_safe_on: bool)
        requires
            old(self)@.inv(),
        ensures
            final(self)@ == (InfModel { table: bold_result(old(self)@.table, is_safe_on), ..old(self)@ }),
            final(self)@.inv(),
    {
        let ghost pre = self@;
        let ghost b = self@.table;
        let mut i: usize = 0;
        while i < self.table.len()
            invariant
                i <= self.table.len(),
                self@ == (InfModel { table: self@.table, ..pre }),
                self@.table.len() == b.len(),
                forall|k: int|
                    0 <= k < b.len() ==> #[trigger] self@.table[k] == (PanelModel {
                        auto_flg: if k < i {
                            AutoSts::Unmarked
                        } else {
                            b[k].auto_flg
                        },
                        ..b[k]
                    }),
            decreases self.table.len() - i,
        {
            let ghost t0 = self@.table;
            let ghost v0 = self.table@;
            self.table[i].set_autoflag(AutoSts::Unmarked);
            proof {
                assert(self.table@.len() == v0.len());
                assert(forall|k: int| 0 <= k < v0.len() && k != i ==> self.table@[k] == v0[k]);
                assert forall|k: int| 0 <= k < b.len() implies #[trigger] self@.table[k] == (PanelModel {
                    auto_flg: if k < i + 1 {
                        AutoSts::Unmarked
                    } else {
                        b[k].auto_flg
                    },
                    ..b[k]
                }) by {
                    assert(self@.table[k] == self.table@[k]@);
                    assert(t0[k] == v0[k]@);
                    if k != i {
                        assert(self.table@[k] == v0[k]);
                    } else {
                        assert(t0[k] == b[k]);
                    }
                }
            }
            i += 1;
        }
        let ghost b1 = self@.table;
        proof {
            assert(same_reads(b, b1));
            assert(self@.table =~= bold_partial(b, is_safe_on, 0));
        }
        let mut c: usize = 0;
        while c < self.table.len()
            invariant
                c <= self.table.len(),
                pre.inv(),
                b == pre.table,
                self@ == (InfModel { table: self@.table, ..pre }),
                self@.table == bold_partial(b, is_safe_on, c as int),
            decreases self.table.len() - c,
        {
            if self.table[c].is_open() && self.table[c].get_around_num() > 0 {
                let ghost t0 = self@.table;
                let ghost v0 = self.table@;
                self.table[c].bold_off();
                let ghost t1 = self@.table;
                proof {
                    assert(t0.len() == b.len());
                    assert(v0.len() == t0.len());
                    assert(self.table@.len() == v0.len());
                    assert(forall|j: int| 0 <= j < v0.len() && j != c ==> self.table@[j] == v0[j]);
                    assert forall|j: int| 0 <= j < b.len() implies (#[trigger] t1[j]).is_open == b[j].is_open
                        && t1[j].userflg == b[j].userflg && t1[j].is_bom == b[j].is_bom && t1[j].around
                        == b[j].around && t1[j].around_num == b[j].around_num && t1[j].index == b[j].index
                        && t1[j].pos_x == b[j].pos_x && t1[j].pos_y == b[j].pos_y by {
                        assert(t1[j] == self.table@[j]@);
                        assert(t0[j] == v0[j]@);
                        assert(t0[j] == bold_partial(b, is_safe_on, c as int)[j]);
                    }
                    assert(same_reads(b, t1));
                    assert(wf_board(t1, pre.width, pre.height)) by {
                        lemma_inv_same_shape(b, t1, pre.width, pre.height);
                    }
                }
                self.update_bold(is_safe_on, c as i32);
                proof {
                    let t2 = self@.table;
                    lemma_same_reads_counts(b, t1, c as int);
                    assert forall|i: int| 0 <= i < b.len() implies #[trigger] t2[i] == bold_partial(
                        b,
                        is_safe_on,
                        c + 1,
                    )[i] by {
                        assert(t1[i] == t0[i] || i == c);
                        if t1[c as int].around.contains(i) && safe_source(b, c as int, is_safe_on) && !b[i].is_open
                            && b[i].userflg != UserFlg::RedFlg {
                            assert(b[c as int].around.contains(i));
                        }
                        if exists|c2: int|
                            0 <= c2 < c + 1 && safe_source(b, c2, is_safe_on) && #[trigger] b[c2].around.contains(
                                i,
                            ) {
                            let c2 = choose|c2: int|
                                0 <= c2 < c + 1 && safe_source(b, c2, is_safe_on) && #[trigger] b[c2].around.contains(
                                    i,
                                );
                            if c2 < c {
                                assert(exists|c3: int|
                                    0 <= c3 < c && safe_source(b, c3, is_safe_on)
                                        && #[trigger] b[c3].around.contains(i));
                            }
                        }
                    }
                    assert(t2 =~= bold_partial(b, is_safe_on, c + 1));
                }
            } else {
                proof {
                    assert(self@.table.len() == b.len());
                    assert(self@.table[c as int] == self.table@[c as int]@);
                    assert(!bold_source(b, c as int));
                    assert forall|i: int| 0 <= i < b.len() implies #[trigger] self@.table[i] == bold_partial(
                        b,
                        is_safe_on,
                        c + 1,
                    )[i] by {
                        assert(!safe_source(b, c as int, is_safe_on));
                        if exists|c2: int|
                            0 <= c2 < c + 1 && safe_source(b, c2, is_safe_on) && #[trigger] b[c2].around.contains(
                                i,
                            ) {
                            let c2 = choose|c2: int|
                                0 <= c2 < c + 1 && safe_source(b, c2, is_safe_on) && #[trigger] b[c2].around.contains(
                                    i,
                                );
                            assert(c2 != c);
                            assert(exists|c3: int|
                                0 <= c3 < c && safe_source(b, c3, is_safe_on) && #[trigger] b[c3].around.contains(
                                    i,
                                ));
                        }
                    }
                    assert(self@.table =~= bold_partial(b, is_safe_on, c + 1));
                }
            }
            c += 1;
        }
        proof {
            assert forall|i: int| 0 <= i < b.len() implies #[trigger] self@.table[i] == bold_result(
                b,
                is_safe_on,
            )[i] by {
                if exists|c2: int| safe_source(b, c2, is_safe_on) && #[trigger] b[c2].around.contains(i) {
                    let c2 = choose|c2: int| safe_source(b, c2, is_safe_on) && #[trigger] b[c2].around.contains(i);
                    assert(0 <= c2 < b.len());
                }
            }
            assert(self@.table =~= bold_result(b, is_safe_on));
            lemma_inv_same_shape(b, self@.table, pre.width, pre.height);
        }
    }

    /// The emphasis rule for panel `c`: emphasise it when its closed neighbours are
    /// exactly its mines and not all carry a correct red flag; with `is_safe_on`, when
    /// all its mines carry a correct red flag and no flag around it is wrong, mark
    /// its other closed neighbours safe.
    fn update_bold(&mut self, is_safe_on: bool, cursol_index: i32)
        requires
            old(self)@.inv(),
            valid_idx(old(self)@.table, cursol_index as int),
        ensures
            final(self)@ == (InfModel {
                table: update_bold_result(old(self)@.table, cursol_index as int, is_safe_on),
                ..old(self)@
            }),
    {
        let ghost pre = self@;
        let ghost t = self@.table;
        let ghost ci = cursol_index as int;
        let c = cursol_index as usize;
        let around = self.table[c].get_around_tbl();
        let ghost fc = |j: int| is_closed(t, j);
        let ghost ff = |j: int| is_closed(t, j) && t[j].userflg == UserFlg::RedFlg && t[j].is_bom;
        let ghost fm = |j: int| is_closed(t, j) && t[j].userflg == UserFlg::RedFlg && !t[j].is_bom;
        let mut close_cnt_v: i32 = 0;
        let mut flag_cnt_v: i32 = 0;
        let mut miss_cnt_v: i32 = 0;
        let mut k: usize = 0;
        while k < 9
            invariant
                0 <= k <= 9,
                pre.inv(),
                t == pre.table,
                self@ == pre,
                valid_idx(t, ci),
                c == ci,
                fc == (|j: int| is_closed(t, j)),
                ff == (|j: int| is_closed(t, j) && t[j].userflg == UserFlg::RedFlg && t[j].is_bom),
                fm == (|j: int| is_closed(t, j) && t[j].userflg == UserFlg::RedFlg && !t[j].is_bom),
                forall|k2: int| 0 <= k2 < 9 ==> around@[k2 / 3]@[k2 % 3] as int == #[trigger] t[ci].around[k2],
                close_cnt_v == count_where(t[ci].around.take(k as int), fc),
                flag_cnt_v == count_where(t[ci].around.take(k as int), ff),
                miss_cnt_v == count_where(t[ci].around.take(k as int), fm),
                close_cnt_v <= k,
                flag_cnt_v <= k,
                miss_cnt_v <= k,
            decreases 9 - k,
        {
            let idx = around[k / 3][k % 3];
            proof {
                lemma_around_entry(t, pre.width, pre.height, ci, k as int);
                lemma_count_where_take(t[ci].around, fc, k as int);
                lemma_count_where_take(t[ci].around, ff, k as int);
                lemma_count_where_take(t[ci].around, fm, k as int);
                assert(idx == t[ci].around[k as int]);
            }
            if idx != -1 && !self.table[idx as usize].is_open() {
                close_cnt_v += 1;
                if self.table[idx as usize].get_userflg() == UserFlg::RedFlg {
                    if !self.table[idx as usize].is_bom() {
                        miss_cnt_v += 1;
                    } else {
                        flag_cnt_v += 1;
                    }
                }
            }
            k += 1;
        }
        proof {
            lemma_around_entry(t, pre.width, pre.height, ci, 0);
            assert(t[ci].around.take(9) =~= t[ci].around);
        }
        let around_num = self.table[c].get_around_num();
        if close_cnt_v == around_num && flag_cnt_v != around_num {
            self.table[c].bold_on();
        }
        let ghost t1 = self@.table;
        if !is_safe_on || flag_cnt_v != around_num || miss_cnt_v > 0 {
            proof {
                assert(self@.table =~= update_bold_result(t, ci, is_safe_on));
            }
            return;
        }
        let mut k: usize = 0;
        while k < 9
            invariant
                0 <= k <= 9,
                pre.inv(),
                t == pre.table,
                valid_idx(t, ci),
                c == ci,
                is_safe_on,
                flag_cnt(t, ci) == t[ci].around_num,
                miss_cnt(t, ci) == 0,
                forall|k2: int| 0 <= k2 < 9 ==> around@[k2 / 3]@[k2 % 3] as int == #[trigger] t[ci].around[k2],
                self@ == (InfModel { table: self@.table, ..pre }),
                self@.table.len() == t.len(),
                forall|i: int|
                    0 <= i < t.len() ==> #[trigger] self@.table[i] == (PanelModel {
                        auto_flg: if (exists|k2: int| 0 <= k2 < k && #[trigger] t[ci].around[k2] == i)
                            && is_closed(t, i) && t[i].userflg != UserFlg::RedFlg {
                            AutoSts::Safety
                        } else {
                            t1[i].auto_flg
                        },
                        ..t1[i]
                    }),
                forall|i: int| 0 <= i < t.len() ==> (#[trigger] t1[i]) == (PanelModel {
                    is_bold: t1[i].is_bold,
                    ..t[i]
                }),
            decreases 9 - k,
        {
            let idx = around[k / 3][k % 3];
            proof {
                lemma_around_entry(t, pre.width, pre.height, ci, k as int);
                assert(idx == t[ci].around[k as int]);
            }
            if idx != -1 && !self.table[idx as usize].is_open()
                && self.table[idx as usize].get_userflg() != UserFlg::RedFlg {
                self.table[idx as usize].set_autoflag(AutoSts::Safety);
            }
            proof {
                assert forall|i: int| 0 <= i < t.len() implies #[trigger] self@.table[i] == (PanelModel {
                    auto_flg: if (exists|k2: int| 0 <= k2 < k + 1 && #[trigger] t[ci].around[k2] == i)
                        && is_closed(t, i) && t[i].userflg != UserFlg::RedFlg {
                        AutoSts::Safety
                    } else {
                        t1[i].auto_flg
                    },
                    ..t1[i]
                }) by {
                    if exists|k2: int| 0 <= k2 < k + 1 && #[trigger] t[ci].around[k2] == i {
                        let k2 = choose|k2: int| 0 <= k2 < k + 1 && #[trigger] t[ci].around[k2] == i;
                        if k2 < k {
                            assert(exists|k3: int| 0 <= k3 < k && #[trigger] t[ci].around[k3] == i);
                        }
                    }
                    if i == idx {
                        assert(t[ci].around[k as int] == i);
                    }
                }
            }
            k += 1;
        }
        proof {
            lemma_around_entry(t, pre.width, pre.height, ci, 0);
            assert forall|i: int| 0 <= i < t.len() implies #[trigger] self@.table[i] == update_bold_result(
                t,
                ci,
                is_safe_on,
            )[i] by {
                if t[ci].around.contains(i) {
                    let k2 = choose|k2: int| 0 <= k2 < t[ci].around.len() && t[ci].around[k2] == i;
                    assert(t[ci].around[k2] == i);
                }
            }
            assert(self@.table =~= update_bold_result(t, ci, is_safe_on));
        }
    }

    /// The danger rule for panel `cursol_index` (see `danger_one`).
    fn flag_dangar_one(&mut self, cursol_index: i32) -> (r: bool)
        requires
            old(self)@.inv(),
            valid_idx(old(self)@.table, cursol_index as int),
        ensures
            final(self)@ == (InfModel {
                table: danger_one(old(self)@.table, cursol_index as int).0,
                ..old(self)@
            }),
            r == danger_one(old(self)@.table, cursol_index as int).1,
            final(self)@.inv(),
    {
        let ghost pre = self@;
        let ghost t = self@.table;
        let ghost ci = cursol_index as int;
        let c = cursol_index as usize;
        proof {
            lemma_mark_all_shape(t, danger_targets(t, ci), AutoSts::Danger);
            lemma_inv_same_shape(t, danger_one(t, ci).0, pre.width, pre.height);
        }
        if !self.table[c].is_open() {
            return false;
        }
        let around = self.table[c].get_around_tbl();
        let ghost pd = |j: int| is_closed(t, j) && t[j].auto_flg != AutoSts::Safety;
        let mut close_list: Vec<i32> = Vec::new();
        let mut k: usize = 0;
        while k < 9
            invariant
                0 <= k <= 9,
                pre.inv(),
                t == pre.table,
                self@ == pre,
                valid_idx(t, ci),
                c == ci,
                pd == (|j: int| is_closed(t, j) && t[j].auto_flg != AutoSts::Safety),
                forall|k2: int| 0 <= k2 < 9 ==> around@[k2 / 3]@[k2 % 3] as int == #[trigger] t[ci].around[k2],
                ints(close_list@) == select(t[ci].around.take(k as int), pd),
                close_list@.len() <= k,
            decreases 9 - k,
        {
            let idx = around[k / 3][k % 3];
            proof {
                lemma_around_entry(t, pre.width, pre.height, ci, k as int);
                lemma_select_take(t[ci].around, pd, k as int);
                assert(idx == t[ci].around[k as int]);
            }
            if idx != -1 && !self.table[idx as usize].is_open() {
                if self.table[idx as usize].get_autoflag() != AutoSts::Safety {
                    close_list.push(idx);
                    proof {
                        assert(ints(close_list@) =~= select(t[ci].around.take(k as int), pd).push(idx as int));
                    }
                }
            }
            k += 1;
        }
        proof {
            lemma_around_entry(t, pre.width, pre.height, ci, 0);
            assert(t[ci].around.take(9) =~= t[ci].around);
        }
        let ghost targets = danger_targets(t, ci);
        if self.table[c].get_around_num() != close_list.len() as i32 {
            return false;
        }
        proof {
            lemma_select_sound(t[ci].around, pd);
        }
        let mut upd = false;
        let mut m: usize = 0;
        while m < close_list.len()
            invariant
                0 <= m <= close_list.len(),
                pre.inv(),
                t == pre.table,
                valid_idx(t, ci),
                targets == danger_targets(t, ci),
                ints(close_list@) == targets,
                forall|m2: int| 0 <= m2 < targets.len() ==> valid_idx(t, #[trigger] targets[m2]),
                self@ == (InfModel { table: self@.table, ..pre }),
                self@.table == mark_all(t, targets.take(m as int), AutoSts::Danger),
                upd == exists|m2: int| 0 <= m2 < m && t[#[trigger] targets[m2]].auto_flg != AutoSts::Danger,
            decreases close_list.len() - m,
        {
            let idx = close_list[m];
            proof {
                assert(targets[m as int] == idx);
                lemma_mark_all_shape(t, targets.take(m as int), AutoSts::Danger);
                assert(self@.table.len() == t.len());
            }
            let ghost before = self@.table;
            let ghost v0 = self.table@;
            proof {
                assert(self@.table[idx as int] == v0[idx as int]@);
            }
            if self.table[idx as usize].get_autoflag() != AutoSts::Danger {
                proof {
                    assert(!targets.take(m as int).contains(idx as int));
                }
                self.table[idx as usize].set_autoflag(AutoSts::Danger);
                upd = true;
                proof {
                    assert(forall|j: int| 0 <= j < v0.len() && j != idx ==> self.table@[j] == v0[j]);
                }
            } else {
                proof {
                    if t[idx as int].auto_flg != AutoSts::Danger {
                        assert(targets.take(m as int).contains(idx as int));
                        let m2 = choose|m2: int| 0 <= m2 < m && #[trigger] targets.take(m as int)[m2] == idx;
                        assert(targets[m2] == idx);
                    }
                }
            }
            proof {
                assert forall|i: int| 0 <= i < t.len() implies #[trigger] self@.table[i] == mark_all(
                    t,
                    targets.take(m + 1),
                    AutoSts::Danger,
                )[i] by {
                    assert(self@.table[i] == self.table@[i]@);
                    assert(before[i] == v0[i]@);
                    if targets.take(m + 1).contains(i) {
                        let m2 = choose|m2: int| 0 <= m2 < m + 1 && #[trigger] targets.take(m + 1)[m2] == i;
                        if m2 < m {
                            assert(targets.take(m as int)[m2] == i);
                        }
                    }
                    if targets.take(m as int).contains(i) {
                        let m2 = choose|m2: int| 0 <= m2 < m && #[trigger] targets.take(m as int)[m2] == i;
                        assert(targets.take(m + 1)[m2] == i);
                    }
                    if i == idx {
                        assert(targets.take(m + 1)[m as int] == i);
                    }
                }
                assert(self@.table =~= mark_all(t, targets.take(m + 1), AutoSts::Danger));
                if upd {
                    if t[idx as int].auto_flg != AutoSts::Danger {
                        assert(t[targets[m as int]].auto_flg != AutoSts::Danger);
                    }
                }
            }
            m += 1;
        }
        proof {
            assert(targets.take(targets.len() as int) =~= targets);
        }
        upd
    }

    /// The safety rule for panel `cursol_index` (see `safety_one`).
    fn flag_safety_one(&mut self, cursol_index: i32) -> (r: bool)
        requires
            old(self)@.inv(),
            valid_idx(old(self)@.table, cursol_index as int),
        ensures
            final(self)@ == (InfModel {
                table: safety_one(old(self)@.table, cursol_index as int).0,
                ..old(self)@
            }),
            r == safety_one(old(self)@.table, cursol_index as int).1,
            final(self)@.inv(),
    {
        let ghost pre = self@;
        let ghost t = self@.table;
        let ghost ci = cursol_index as int;
        let c = cursol_index as usize;
        proof {
            lemma_mark_all_shape(t, safety_targets(t, ci), AutoSts::Safety);
            lemma_inv_same_shape(t, safety_one(t, ci).0, pre.width, pre.height);
        }
        if self.table[c].get_around_num() == 0 || !self.table[c].is_open() {
            return false;
        }
        let around = self.table[c].get_around_tbl();
        let ghost pd = |j: int|
            is_closed(t, j) && t[j].auto_flg != AutoSts::Danger && t[j].auto_flg != AutoSts::Safety;
        let ghost fd = |j: int| is_closed(t, j) && t[j].auto_flg == AutoSts::Danger;
        let mut close_list: Vec<i32> = Vec::new();
        let mut bomnum: i32 = 0;
        let mut k: usize = 0;
        while k < 9
            invariant
                0 <= k <= 9,
                pre.inv(),
                t == pre.table,
                self@ == pre,
                valid_idx(t, ci),
                c == ci,
                pd == (|j: int|
                    is_closed(t, j) && t[j].auto_flg != AutoSts::Danger && t[j].auto_flg != AutoSts::Safety),
                fd == (|j: int| is_closed(t, j) && t[j].auto_flg == AutoSts::Danger),
                forall|k2: int| 0 <= k2 < 9 ==> around@[k2 / 3]@[k2 % 3] as int == #[trigger] t[ci].around[k2],
                ints(close_list@) == select(t[ci].around.take(k as int), pd),
                close_list@.len() <= k,
                bomnum == count_where(t[ci].around.take(k as int), fd),
                bomnum <= k,
            decreases 9 - k,
        {
            let idx = around[k / 3][k % 3];
            proof {
                lemma_around_entry(t, pre.width, pre.height, ci, k as int);
                lemma_select_take(t[ci].around, pd, k as int);
                lemma_count_where_take(t[ci].around, fd, k as int);
                assert(idx == t[ci].around[k as int]);
            }
            if idx != -1 && !self.table[idx as usize].is_open() {
                if self.table[idx as usize].get_autoflag() == AutoSts::Danger {
                    bomnum += 1;
                } else if !self.table[idx as usize].is_open()
                    && self.table[idx as usize].get_autoflag() != AutoSts::Safety {
                    close_list.push(idx);
                    proof {
                        assert(ints(close_list@) =~= select(t[ci].around.take(k as int), pd).push(idx as int));
                    }
                }
            }
            k += 1;
        }
        proof {
            lemma_around_entry(t, pre.width, pre.height, ci, 0);
            assert(t[ci].around.take(9) =~= t[ci].around);
        }
        let ghost targets = safety_targets(t, ci);
        if self.table[c].get_around_num() != bomnum {
            return false;
        }
        proof {
            lemma_select_sound(t[ci].around, pd);
        }
        let mut upd = false;
        let mut m: usize = 0;
        while m < close_list.len()
            invariant
                0 <= m <= close_list.len(),
                pre.inv(),
                t == pre.table,
                valid_idx(t, ci),
                targets == safety_targets(t, ci),
                ints(close_list@) == targets,
                forall|m2: int| 0 <= m2 < targets.len() ==> valid_idx(t, #[trigger] targets[m2]),
                self@ == (InfModel { table: self@.table, ..pre }),
                self@.table == mark_all(t, targets.take(m as int), AutoSts::Safety),
                upd == exists|m2: int| 0 <= m2 < m && t[#[trigger] targets[m2]].auto_flg != AutoSts::Safety,
            decreases close_list.len() - m,
        {
            let idx = close_list[m];
            proof {
                assert(targets[m as int] == idx);
                lemma_mark_all_shape(t, targets.take(m as int), AutoSts::Safety);
                assert(self@.table.len() == t.len());
            }
            let ghost before = self@.table;
            let ghost v0 = self.table@;
            proof {
                assert(self@.table[idx as int] == v0[idx as int]@);
            }
            if self.table[idx as usize].get_autoflag() != AutoSts::Safety {
                proof {
                    assert(!targets.take(m as int).contains(idx as int));
                }
                self.table[idx as usize].set_autoflag(AutoSts::Safety);
                upd = true;
                proof {
                    assert(forall|j: int| 0 <= j < v0.len() && j != idx ==> self.table@[j] == v0[j]);
                }
            } else {
                proof {
                    if t[idx as int].auto_flg != AutoSts::Safety {
                        assert(targets.take(m as int).contains(idx as int));
                        let m2 = choose|m2: int| 0 <= m2 < m && #[trigger] targets.take(m as int)[m2] == idx;
                        assert(targets[m2] == idx);
                    }
                }
            }
            proof {
                assert forall|i: int| 0 <= i < t.len() implies #[trigger] self@.table[i] == mark_all(
                    t,
                    targets.take(m + 1),
                    AutoSts::Safety,
                )[i] by {
                    assert(self@.table[i] == self.table@[i]@);
                    assert(before[i] == v0[i]@);
                    if targets.take(m + 1).contains(i) {
                        let m2 = choose|m2: int| 0 <= m2 < m + 1 && #[trigger] targets.take(m + 1)[m2] == i;
                        if m2 < m {
                            assert(targets.take(m as int)[m2] == i);
                        }
                    }
                    if targets.take(m as int).contains(i) {
                        let m2 = choose|m2: int| 0 <= m2 < m && #[trigger] targets.take(m as int)[m2] == i;
                        assert(targets.take(m + 1)[m2] == i);
                    }
                    if i == idx {
                        assert(targets.take(m + 1)[m as int] == i);
                    }
                }
                assert(self@.table =~= mark_all(t, targets.take(m + 1), AutoSts::Safety));
                if upd {
                    if t[idx as int].auto_flg != AutoSts::Safety {
                        assert(t[targets[m as int]].auto_flg != AutoSts::Safety);
                    }
                }
            }
            m += 1;
        }
        proof {
            assert(targets.take(targets.len() as int) =~= targets);
        }
        upd
    }

    /// One simple inference step (see `simple_step`), trusting red flags when the
    /// table's `believe_flg` is set. Returns whether a mark changed.
    pub fn inf_simple(&mut self) -> (r: bool)
        requires
            old(self)@.inv(),
        ensures
            final(self)@ == (InfModel {
                table: simple_step(old(self)@.table, old(self)@.believe_flg).0,
                ..old(self)@
            }),
            r == simple_step(old(self)@.table, old(self)@.believe_flg).1,
            final(self)@.inv(),
    {
        let ghost pre = self@;
        let ghost b = self@.table;
        let mut is_update = false;
        if self.believe_flg {
            let mut i: usize = 0;
            while i < self.table.len()
                invariant
                    i <= self.table.len(),
                    pre.inv(),
                    b == pre.table,
                    self@ == (InfModel { table: self@.table, ..pre }),
                    self@.table.len() == b.len(),
                    forall|k: int|
                        0 <= k < b.len() ==> #[trigger] self@.table[k] == (if k < i {
                            believe_marks(b)[k]
                        } else {
                            b[k]
                        }),
                decreases self.table.len() - i,
            {
                let ghost v0 = self.table@;
                let ghost t0 = self@.table;
                proof {
                    assert(self@.table[i as int] == v0[i as int]@);
                }
                if self.table[i].get_userflg() == UserFlg::RedFlg {
                    self.table[i].set_autoflag(AutoSts::Danger);
                    proof {
                        assert(self.table@[i as int]@ == PanelModel {
                            auto_flg: AutoSts::Danger,
                            ..v0[i as int]@
                        });
                        assert(forall|j: int| 0 <= j < v0.len() && j != i ==> self.table@[j] == v0[j]);
                    }
                } else {
                    proof {
                        assert(self.table@ == v0);
                    }
                }
                proof {
                    assert(v0[i as int]@ == b[i as int]);
                    assert forall|k: int| 0 <= k < b.len() implies #[trigger] self@.table[k] == (if k < i + 1 {
                        believe_marks(b)[k]
                    } else {
                        b[k]
                    }) by {
                        assert(self@.table[k] == self.table@[k]@);
                        assert(t0[k] == v0[k]@);
                        if k != i {
                            assert(self.table@[k] == v0[k]);
                        }
                    }
                }
                i += 1;
            }
            proof {
                assert(self@.table =~= believe_marks(b));
            }
        }
        let ghost b0 = self@.table;
        proof {
            assert(b0 == (if pre.believe_flg {
                believe_marks(b)
            } else {
                b
            }));
            lemma_inv_same_shape(b, b0, pre.width, pre.height);
        }
        let mut i: usize = 0;
        while i < self.table.len()
            invariant
                i <= self.table.len(),
                self.table.len() == b0.len(),
                self@ == (InfModel { table: self@.table, ..pre }),
                self@.inv(),
                (self@.table, is_update) == danger_pass(b0, i as nat),
            decreases self.table.len() - i,
        {
            let u = self.flag_dangar_one(i as i32);
            is_update = is_update || u;
            i += 1;
        }
        let ghost b1 = self@.table;
        let ghost u1 = is_update;
        let mut j: usize = 0;
        while j < self.table.len()
            invariant
                j <= self.table.len(),
                self.table.len() == b1.len(),
                b1.len() == b0.len(),
                self@ == (InfModel { table: self@.table, ..pre }),
                self@.inv(),
                self@.table == safety_pass(b1, j as nat).0,
                is_update == (u1 || safety_pass(b1, j as nat).1),
            decreases self.table.len() - j,
        {
            let u = self.flag_safety_one(j as i32);
            is_update = is_update || u;
            j += 1;
        }
        is_update
    }

    /// Puts the mark `m` on every panel of `list`.
    fn mark_list(&mut self, list: &Vec<i32>, m: AutoSts)
        requires
            old(self)@.inv(),
            forall|k: int| 0 <= k < list@.len() ==> valid_idx(old(self)@.table, #[trigger] list@[k] as int),
        ensures
            final(self)@ == (InfModel { table: mark_all(old(self)@.table, ints(list@), m), ..old(self)@ }),
            final(self)@.inv(),
            final(self).infe@ == old(self).infe@,
    {
        let ghost pre = self@;
        let ghost t = self@.table;
        let ghost l = ints(list@);
        proof {
            assert(self@.table =~= mark_all(t, l.take(0), m));
        }
        let mut k: usize = 0;
        while k < list.len()
            invariant
                k <= list.len(),
                pre.inv(),
                t == pre.table,
                l == ints(list@),
                forall|k2: int| 0 <= k2 < list@.len() ==> valid_idx(t, #[trigger] list@[k2] as int),
                self@ == (InfModel { table: self@.table, ..pre }),
                self@.table == mark_all(t, l.take(k as int), m),
                self@.inv(),
                self.infe@ == old(self).infe@,
            decreases list.len() - k,
        {
            let idx = list[k];
            let ghost v0 = self.table@;
            let ghost t0 = self@.table;
            proof {
                assert(l[k as int] == idx);
                assert(t0.len() == t.len());
            }
            self.table[idx as usize].set_autoflag(m);
            proof {
                assert(forall|j: int| 0 <= j < v0.len() && j != idx ==> self.table@[j] == v0[j]);
                assert forall|i: int| 0 <= i < t.len() implies #[trigger] self@.table[i] == mark_all(
                    t,
                    l.take(k + 1),
                    m,
                )[i] by {
                    assert(self@.table[i] == self.table@[i]@);
                    assert(t0[i] == v0[i]@);
                    if l.take(k + 1).contains(i) {
                        let m2 = choose|m2: int| 0 <= m2 < k + 1 && #[trigger] l.take(k + 1)[m2] == i;
                        if m2 < k {
                            assert(l.take(k as int)[m2] == i);
                        }
                    }
                    if l.take(k as int).contains(i) {
                        let m2 = choose|m2: int| 0 <= m2 < k && #[trigger] l.take(k as int)[m2] == i;
                        assert(l.take(k + 1)[m2] == i);
                    }
                    if i == idx {
                        assert(l.take(k + 1)[k as int] == i);
                    }
                }
                assert(self@.table =~= mark_all(t, l.take(k + 1), m));
                lemma_mark_all_shape(t, l.take(k + 1), m);
                lemma_inv_same_shape(t, self@.table, pre.width, pre.height);
            }
            k += 1;
        }
        proof {
            assert(l.take(list@.len() as int) =~= l);
        }
    }

    /// The deep rule for panel `cursol_index` (see `inference_one_spec`).
    fn inference_one(&mut self, cursol_index: i32) -> (r: bool)
        requires
            old(self)@.inv(),
            valid_idx(old(self)@.table, cursol_index as int),
            infe_ok(infe_view(old(self).infe@)),
        ensures
            final(self)@ == (InfModel {
                table: inference_one_spec(old(self)@.table, infe_view(old(self).infe@), cursol_index as int).0,
                ..old(self)@
            }),
            r == inference_one_spec(old(self)@.table, infe_view(old(self).infe@), cursol_index as int).1,
            final(self)@.inv(),
            final(self).infe@ == old(self).infe@,
    {
        let ghost pre = self@;
        let ghost t = self@.table;
        let ghost ci = cursol_index as int;
        let ghost infe = infe_view(self.infe@);
        let c = cursol_index as usize;
        let around = self.table[c].get_around_tbl();
        let mut around_num = self.table[c].get_around_num();
        let ghost pu = |j: int| is_closed(t, j) && t[j].auto_flg == AutoSts::Unmarked;
        let ghost fd = |j: int| is_closed(t, j) && t[j].auto_flg == AutoSts::Danger;
        let mut myclose: Vec<i32> = Vec::new();
        let mut k: usize = 0;
        while k < 9
            invariant
                0 <= k <= 9,
                pre.inv(),
                t == pre.table,
                self@ == pre,
                self.infe@ == old(self).infe@,
                valid_idx(t, ci),
                c == ci,
                pu == (|j: int| is_closed(t, j) && t[j].auto_flg == AutoSts::Unmarked),
                fd == (|j: int| is_closed(t, j) && t[j].auto_flg == AutoSts::Danger),
                forall|k2: int| 0 <= k2 < 9 ==> around@[k2 / 3]@[k2 % 3] as int == #[trigger] t[ci].around[k2],
                ints(myclose@) == select(t[ci].around.take(k as int), pu),
                myclose@.len() <= k,
                around_num == t[ci].around_num - count_where(t[ci].around.take(k as int), fd),
                0 <= t[ci].around_num <= 9,
                count_where(t[ci].around.take(k as int), fd) <= k,
            decreases 9 - k,
        {
            let idx = around[k / 3][k % 3];
            proof {
                lemma_around_entry(t, pre.width, pre.height, ci, k as int);
                lemma_select_take(t[ci].around, pu, k as int);
                lemma_count_where_take(t[ci].around, fd, k as int);
                assert(idx == t[ci].around[k as int]);
            }
            if idx != -1 && !self.table[idx as usize].is_open() {
                match self.table[idx as usize].get_autoflag() {
                    AutoSts::Danger => {
                        around_num -= 1;
                    },
                    AutoSts::Unmarked => {
                        myclose.push(idx);
                        proof {
                            assert(ints(myclose@) =~= select(t[ci].around.take(k as int), pu).push(idx as int));
                        }
                    },
                    _ => {},
                }
            }
            k += 1;
        }
        proof {
            lemma_around_entry(t, pre.width, pre.height, ci, 0);
            assert(t[ci].around.take(9) =~= t[ci].around);
            assert(ints(myclose@) == unmarked_closed(t, ci));
            assert(around_num == t[ci].around_num - danger_count(t, ci));
        }
        if myclose.len() == 0 || around_num == 0 {
            return false;
        }
        let ghost mc = ints(myclose@);
        let mut done = false;
        let mut found: usize = 0;
        let mut remain: Vec<i32> = Vec::new();
        let mut k: usize = 0;
        while k < self.infe.len() && !done
            invariant
                k <= self.infe.len(),
                self@ == pre,
                self.infe@ == old(self).infe@,
                infe == infe_view(self.infe@),
                ci == cursol_index as int,
                mc == ints(myclose@),
                !done ==> first_candidate(infe, ci, mc, 0) == first_candidate(infe, ci, mc, k as int),
                done ==> found < self.infe.len() && first_candidate(infe, ci, mc, 0) == Some(found as int)
                    && ints(remain@) == remain_of(mc, infe[found as int].index),
            decreases self.infe.len() - k,
        {
            let e = &self.infe[k];
            proof {
                assert(infe[k as int] == e@);
            }
            if e.myindex != cursol_index && all_in(&e.index, &myclose) {
                let rem = remain_list(&myclose, &e.index);
                if rem.len() > 0 {
                    proof {
                        assert(e.myindex != cursol_index);
                        assert(e@.myindex == e.myindex as int);
                        assert(infe[k as int].myindex != ci);
                        assert(infe[k as int].index == ints(e.index@));
                        assert(forall|x: int| #[trigger] infe[k as int].index.contains(x) ==> mc.contains(x));
                        assert(remain_of(mc, infe[k as int].index).len() > 0);
                        assert(candidate(infe, k as int, ci, mc));
                    }
                    found = k;
                    remain = rem;
                    done = true;
                } else {
                    proof {
                        assert(!candidate(infe, k as int, ci, mc));
                    }
                }
            } else {
                proof {
                    if e.myindex != cursol_index {
                        assert(!(forall|x: int| #[trigger] ints(e.index@).contains(x) ==> mc.contains(x)));
                    }
                    assert(!candidate(infe, k as int, ci, mc));
                }
            }
            k += 1;
        }
        if !done {
            proof {
                assert(first_candidate(infe, ci, mc, k as int) == None::<int>);
            }
            return false;
        }
        proof {
            lemma_select_sound(t[ci].around, pu);
            lemma_select_sound(mc, |x: int| !infe[found as int].index.contains(x));
            assert forall|m: int| 0 <= m < remain@.len() implies valid_idx(t, #[trigger] remain@[m] as int) by {
                assert(ints(remain@)[m] == remain@[m]);
                assert(mc.contains(ints(remain@)[m]));
                let m2 = choose|m2: int| 0 <= m2 < mc.len() && mc[m2] == ints(remain@)[m];
                assert(pu(mc[m2]));
            }
            assert(0 < infe[found as int].bomnum <= 9);
        }
        let bomnum = self.infe[found].bomnum;
        proof {
            assert(bomnum == infe[found as int].bomnum);
        }
        if around_num == bomnum {
            self.mark_list(&remain, AutoSts::Safety);
            true
        } else if around_num - bomnum == remain.len() as i32 {
            self.mark_list(&remain, AutoSts::Danger);
            true
        } else {
            false
        }
    }

    /// Learns the fact of panel `cursol_index` when it still misses mines.
    fn make_inference_one(&mut self, cursol_index: i32)
        requires
            old(self)@.inv(),
            valid_idx(old(self)@.table, cursol_index as int),
        ensures
            final(self)@ == old(self)@,
            infe_view(final(self).infe@) == if infe_entry(old(self)@.table, cursol_index as int).bomnum
                > 0 {
                infe_view(old(self).infe@).push(infe_entry(old(self)@.table, cursol_index as int))
            } else {
                infe_view(old(self).infe@)
            },
    {
        let ghost pre = self@;
        let ghost t = self@.table;
        let ghost ci = cursol_index as int;
        let c = cursol_index as usize;
        let around = self.table[c].get_around_tbl();
        let ghost pu = |j: int| is_closed(t, j) && t[j].auto_flg == AutoSts::Unmarked;
        let ghost fd = |j: int| is_closed(t, j) && t[j].auto_flg == AutoSts::Danger;
        let mut close_list: Vec<i32> = Vec::new();
        let mut dang_cnt: i32 = 0;
        let mut k: usize = 0;
        while k < 9
            invariant
                0 <= k <= 9,
                pre.inv(),
                t == pre.table,
                self@ == pre,
                self.infe@ == old(self).infe@,
                valid_idx(t, ci),
                c == ci,
                pu == (|j: int| is_closed(t, j) && t[j].auto_flg == AutoSts::Unmarked),
                fd == (|j: int| is_closed(t, j) && t[j].auto_flg == AutoSts::Danger),
                forall|k2: int| 0 <= k2 < 9 ==> around@[k2 / 3]@[k2 % 3] as int == #[trigger] t[ci].around[k2],
                ints(close_list@) == select(t[ci].around.take(k as int), pu),
                close_list@.len() <= k,
                dang_cnt == count_where(t[ci].around.take(k as int), fd),
                dang_cnt <= k,
            decreases 9 - k,
        {
            let idx = around[k / 3][k % 3];
            proof {
                lemma_around_entry(t, pre.width, pre.height, ci, k as int);
                lemma_select_take(t[ci].around, pu, k as int);
                lemma_count_where_take(t[ci].around, fd, k as int);
                assert(idx == t[ci].around[k as int]);
            }
            if idx != -1 && !self.table[idx as usize].is_open() {
                let auto_flag = self.table[idx as usize].get_autoflag();
                if auto_flag == AutoSts::Danger {
                    dang_cnt += 1;
                } else if auto_flag == AutoSts::Unmarked {
                    close_list.push(idx);
                    proof {
                        assert(ints(close_list@) =~= select(t[ci].around.take(k as int), pu).push(idx as int));
                    }
                }
            }
            k += 1;
        }
        proof {
            lemma_around_entry(t, pre.width, pre.height, ci, 0);
            assert(t[ci].around.take(9) =~= t[ci].around);
            assert(0 <= t[ci].around_num <= 9);
        }
        let bomnum = self.table[c].get_around_num() - dang_cnt;
        if bomnum > 0 {
            let e = Inference { myindex: cursol_index, index: close_list, bomnum };
            proof {
                assert(e@ == infe_entry(t, ci));
            }
            self.infe.push(e);
            proof {
                assert(infe_view(self.infe@) =~= infe_view(old(self).infe@).push(infe_entry(t, ci)));
            }
        }
    }

    /// Learns the facts of every open panel, in order.
    fn make_inference(&mut self)
        requires
            old(self)@.inv(),
            old(self).infe@.len() == 0,
        ensures
            final(self)@ == old(self)@,
            infe_view(final(self).infe@) == infe_upto(old(self)@.table, old(self)@.table.len()),
    {
        let ghost pre = self@;
        let ghost t = self@.table;
        proof {
            assert(infe_view(self.infe@) =~= infe_upto(t, 0));
        }
        let mut c: usize = 0;
        while c < self.table.len()
            invariant
                c <= self.table.len(),
                self.table.len() == t.len(),
                pre.inv(),
                t == pre.table,
                self@ == pre,
                infe_view(self.infe@) == infe_upto(t, c as nat),
            decreases self.table.len() - c,
        {
            proof {
                assert(self@.table[c as int] == self.table@[c as int]@);
            }
            if self.table[c].is_open() {
                self.make_inference_one(c as i32);
            }
            c += 1;
        }
    }

    /// The deep rule over every open panel, in order, against the learnt facts.
    fn inference_check(&mut self) -> (r: bool)
        requires
            old(self)@.inv(),
            infe_ok(infe_view(old(self).infe@)),
        ensures
            final(self)@ == (InfModel {
                table: check_pass(old(self)@.table, infe_view(old(self).infe@), old(self)@.table.len()).0,
                ..old(self)@
            }),
            r == check_pass(old(self)@.table, infe_view(old(self).infe@), old(self)@.table.len()).1,
            final(self)@.inv(),
            final(self).infe@ == old(self).infe@,
    {
        let ghost pre = self@;
        let ghost t = self@.table;
        let ghost infe = infe_view(self.infe@);
        let mut is_update = false;
        let mut c: usize = 0;
        while c < self.table.len()
            invariant
                c <= self.table.len(),
                self.table.len() == t.len(),
                t == pre.table,
                infe == infe_view(self.infe@),
                infe_ok(infe),
                self.infe@ == old(self).infe@,
                self@ == (InfModel { table: self@.table, ..pre }),
                self@.inv(),
                (self@.table, is_update) == check_pass(t, infe, c as nat),
            decreases self.table.len() - c,
        {
            proof {
                assert(self@.table[c as int] == self.table@[c as int]@);
            }
            if self.table[c].is_open() {
                let u = self.inference_one(c as i32);
                is_update = is_update || u;
            }
            c += 1;
        }
        is_update
    }

    /// One deep inference step (see `deep_step`). Returns whether a mark changed.
    pub fn inf_deep(&mut self) -> (r: bool)
        requires
            old(self)@.inv(),
        ensures
            final(self)@ == (InfModel { table: deep_step(old(self)@.table).0, ..old(self)@ }),
            r == deep_step(old(self)@.table).1,
            final(self)@.inv(),
    {
        self.infe.clear();
        self.make_inference();
        proof {
            lemma_infe_upto_ok(self@.table, self@.table.len());
        }
        self.inference_check()
    }

    /// Up to ten simple steps, stopping after one that changes nothing.
    fn simple_rounds(&mut self)
        requires
            old(self)@.inv(),
        ensures
            final(self)@ == (InfModel {
                table: repeat_simple(old(self)@.table, old(self)@.believe_flg, 10),
                ..old(self)@
            }),
            final(self)@.inv(),
    {
        let ghost pre = self@;
        let ghost s0 = self@.table;
        let mut n: usize = 0;
        let mut go = true;
        while n < 10 && go
            invariant
                n <= 10,
                self@ == (InfModel { table: self@.table, ..pre }),
                self@.inv(),
                go ==> repeat_simple(s0, pre.believe_flg, 10) == repeat_simple(
                    self@.table,
                    pre.believe_flg,
                    (10 - n) as nat,
                ),
                !go ==> self@.table == repeat_simple(s0, pre.believe_flg, 10),
            decreases 10 - n,
        {
            let u = self.inf_simple();
            if !u {
                go = false;
            }
            n += 1;
        }
    }

    /// Up to ten deep steps, stopping after one that changes nothing.
    fn deep_rounds(&mut self)
        requires
            old(self)@.inv(),
        ensures
            final(self)@ == (InfModel { table: repeat_deep(old(self)@.table, 10), ..old(self)@ }),
            final(self)@.inv(),
    {
        let ghost pre = self@;
        let ghost s0 = self@.table;
        let mut n: usize = 0;
        let mut go = true;
        while n < 10 && go
            invariant
                n <= 10,
                self@ == (InfModel { table: self@.table, ..pre }),
                self@.inv(),
                go ==> repeat_deep(s0, 10) == repeat_deep(self@.table, (10 - n) as nat),
                !go ==> self@.table == repeat_deep(s0, 10),
            decreases 10 - n,
        {
            let u = self.inf_deep();
            if !u {
                go = false;
            }
            n += 1;
        }
    }

    /// Ten inference rounds.
    fn ten_rounds(&mut self)
        requires
            old(self)@.inv(),
        ensures
            final(self)@ == (InfModel {
                table: inference_rounds(old(self)@.table, old(self)@.believe_flg, 10),
                ..old(self)@
            }),
            final(self)@.inv(),
    {
        let ghost pre = self@;
        let ghost s0 = self@.table;
        let mut r: usize = 0;
        while r < 10
            invariant
                r <= 10,
                self@ == (InfModel { table: self@.table, ..pre }),
                self@.inv(),
                self@.table == inference_rounds(s0, pre.believe_flg, r as nat),
            decreases 10 - r,
        {
            self.simple_rounds();
            self.deep_rounds();
            r += 1;
        }
    }

    /// Marks dangerous and safe panels automatically (see `inference_result`); from
    /// now on the table trusts red flags when `believe_flg` is set.
    pub fn inference(&mut self, _is_dang_on: bool, _is_safe_on: bool, believe_flg: bool)
        requires
            old(self)@.inv(),
        ensures
            final(self)@ == (InfModel {
                table: inference_result(old(self)@.table, old(self)@.believe_flg, believe_flg),
                believe_flg,
                ..old(self)@
            }),
            final(self)@.inv(),
    {
        let ghost pre = self@;
        let ghost b = self@.table;
        let mut i: usize = 0;
        while i < self.table.len()
            invariant
                i <= self.table.len(),
                pre.inv(),
                b == pre.table,
                self@ == (InfModel { table: self@.table, ..pre }),
                self@.table.len() == b.len(),
                forall|k: int|
                    0 <= k < b.len() ==> #[trigger] self@.table[k] == (if k < i {
                        assist_cleared(b)[k]
                    } else {
                        b[k]
                    }),
            decreases self.table.len() - i,
        {
            let ghost v0 = self.table@;
            let ghost t0 = self@.table;
            self.table[i].bold_off();
            self.table[i].set_autoflag(AutoSts::Unmarked);
            proof {
                assert(forall|j: int| 0 <= j < v0.len() && j != i ==> self.table@[j] == v0[j]);
                assert forall|k: int| 0 <= k < b.len() implies #[trigger] self@.table[k] == (if k < i + 1 {
                    assist_cleared(b)[k]
                } else {
                    b[k]
                }) by {
                    assert(self@.table[k] == self.table@[k]@);
                    assert(t0[k] == v0[k]@);
                }
            }
            i += 1;
        }
        proof {
            assert(self@.table =~= assist_cleared(b));
            lemma_inv_same_shape(b, self@.table, pre.width, pre.height);
        }
        self.ten_rounds();
        self.believe_flg = believe_flg;
        self.ten_rounds();
    }
}

} // verus!
