use vstd::prelude::*;
use crate::myconst::{AutoSts, UserFlg};
use crate::panel::{Panel, PanelModel, around_of, spec_next_userflg, next_userflg};
use crate::utils::{get_index, spec_get_index, lemma_all_indices_fit};
use crate::board::{
    wf_board,
    wf_panel,
    consistent,
    valid_idx,
    count_open,
    count_userflg,
    count_bomopen,
    lemma_index_coords,
    lemma_fresh_consistent,
    lemma_same_shape,
    count_closed,
    count_where,
    lemma_count_where_ext,
    lemma_count_where_zero,
    lemma_count_where_take,
    lemma_around_entry,
    lemma_around_no_dup,
    lemma_around_centre,
    lemma_around_contains_symmetric,
    lemma_count_where_le,
    lemma_count_where_one_more,
    bombs_around,
    count_bombs,
    count_free,
    is_free,
    lemma_count_panels_flip,
    lemma_count_panels_none,
    lemma_count_panels_some,
    lemma_cell_coords,
};
use crate::chain::{
    chain_core,
    chain_closed,
    chain_result,
    chain_step,
    propagates,
    open_one,
    lemma_chain_base,
    lemma_chain_empty,
    lemma_chain_extend,
    lemma_chain_union,
    lemma_chain_open_first,
    lemma_count_closed_mono,
    lemma_count_closed_open_one,
    lemma_count_closed_pos,
    lemma_same_except_open_shape,
};

verus! {

/// The cell under the mouse, and its panel index (`-1` off the board).
#[derive(Debug, Copy, Clone)]
pub struct MyCursol {
    pub x: i32,
    pub y: i32,
    pub index: i32,
}

/// The panels of a board, as plain values.
pub open spec fn board_view(v: Seq<Panel>) -> Seq<PanelModel> {
    v.map_values(|p: Panel| p@)
}

/// What a game table holds, as plain values.
pub struct TableModel {
    pub width: int,
    pub height: int,
    pub num_bom: int,
    pub cursol: MyCursol,
    pub board: Seq<PanelModel>,
    pub history: Seq<Seq<PanelModel>>,
    pub useundo: int,
}

impl TableModel {
    /// The board has been laid out and its numbers agree with its mines.
    pub open spec fn ready(self) -> bool {
        wf_board(self.board, self.width, self.height) && consistent(self.board)
    }

    /// What every table keeps: sensible dimensions, a board that is either not yet
    /// laid out or ready, and a history of ready boards with the undo position inside it.
    pub open spec fn inv(self) -> bool {
        &&& 0 <= self.width
        &&& 0 <= self.height
        &&& self.width * self.height <= i32::MAX
        &&& (self.board.len() == 0 || self.ready())
        &&& 0 <= self.useundo <= self.history.len()
        &&& forall|k: int|
            0 <= k < self.history.len() ==> wf_board(#[trigger] self.history[k], self.width, self.height)
                && consistent(self.history[k])
    }

    /// The cursor is off the board or on one of its panels.
    pub open spec fn cursor_ok(self) -> bool {
        self.cursol.index == -1 || valid_idx(self.board, self.cursol.index as int)
    }
}

/// The freshly laid out board: every panel closed, empty and unmarked.
pub open spec fn fresh_board(width: int, height: int) -> Seq<PanelModel> {
    Seq::new(
        (width * height) as nat,
        |i: int|
            PanelModel {
                pos_x: i % width,
                pos_y: i / width,
                index: i,
                is_open: false,
                is_bom: false,
                is_bold: false,
                auto_flg: AutoSts::Unmarked,
                userflg: UserFlg::NoFlg,
                around: around_of(i % width, i / width, width, height),
                around_num: 0,
            },
    )
}

/// The history that `undo_push` keeps: what follows the undo position is dropped,
/// and the board is appended unless it equals the last kept entry.
pub open spec fn pushed_history(
    history: Seq<Seq<PanelModel>>,
    useundo: int,
    board: Seq<PanelModel>,
) -> Seq<Seq<PanelModel>> {
    let kept = if useundo + 1 <= history.len() {
        history.subrange(0, useundo + 1)
    } else {
        history
    };
    if kept.len() > 0 && kept.last() == board {
        kept
    } else {
        kept.push(board)
    }
}

/// The undo position after `undo_push`.
pub open spec fn pushed_useundo(
    history: Seq<Seq<PanelModel>>,
    useundo: int,
    board: Seq<PanelModel>,
) -> int {
    let kept = if useundo + 1 <= history.len() {
        history.subrange(0, useundo + 1)
    } else {
        history
    };
    if kept.len() > 0 && kept.last() == board {
        useundo
    } else {
        kept.len() + 1 as int
    }
}

/// The table after `undo_push`.
pub open spec fn pushed(t: TableModel) -> TableModel {
    TableModel {
        history: pushed_history(t.history, t.useundo, t.board),
        useundo: pushed_useundo(t.history, t.useundo, t.board),
        ..t
    }
}

/// A push after stepping back keeps the history up to and including the entry at the
/// undo position; only what follows it is replaced: by nothing when the board is that
/// entry, else by the board, the undo position then pointing past it.
pub proof fn lemma_push_keeps_prefix(t: TableModel)
    requires
        0 <= t.useundo < t.history.len(),
    ensures
        pushed(t).history.len() >= t.useundo + 1,
        pushed(t).history.subrange(0, t.useundo + 1) == t.history.subrange(0, t.useundo + 1),
        pushed(t).history.len() <= t.useundo + 2,
        t.history[t.useundo] == t.board ==> pushed(t).history == t.history.subrange(0, t.useundo + 1),
        t.history[t.useundo] != t.board ==> pushed(t).history == t.history.subrange(0, t.useundo + 1).push(
            t.board,
        ) && pushed(t).useundo == pushed(t).history.len(),
{
    let kept = t.history.subrange(0, t.useundo + 1);
    if !(kept.len() > 0 && kept.last() == t.board) {
        assert(kept.push(t.board).subrange(0, t.useundo + 1) =~= kept);
    }
}

/// The F key only adds red flags: every panel marked dangerous carries a red flag
/// afterwards, every red flag stays, and a panel not marked dangerous is unchanged.
pub proof fn lemma_redflag_all_adds_only(b: Seq<PanelModel>)
    ensures
        redflag_all(b).len() == b.len(),
        forall|i: int| 0 <= i < b.len() && b[i].userflg == UserFlg::RedFlg ==> (#[trigger] redflag_all(
            b,
        )[i]).userflg == UserFlg::RedFlg,
        forall|i: int|
            0 <= i < b.len() && b[i].auto_flg != AutoSts::Danger ==> #[trigger] redflag_all(b)[i] == b[i],
        forall|i: int|
            0 <= i < b.len() && b[i].auto_flg == AutoSts::Danger ==> (#[trigger] redflag_all(b)[i]).userflg
                == UserFlg::RedFlg && redflag_all(b)[i] == (PanelModel { userflg: UserFlg::RedFlg, ..b[i] }),
{
}

/// A chord counts only red flags: with no red flag around panel `c` its count is 0,
/// so a chord on a numbered panel does nothing, whatever blue flags stand around it;
/// and turning flags that are not red into other flags that are not red leaves the
/// count as it was.
pub proof fn lemma_chord_counts_red_flags(b: Seq<PanelModel>, b2: Seq<PanelModel>, c: int)
    requires
        0 <= c < b.len(),
        b2.len() == b.len(),
        b2[c].around == b[c].around,
        forall|j: int| 0 <= j < b.len() ==> (#[trigger] b2[j].userflg == UserFlg::RedFlg) == (b[j].userflg
            == UserFlg::RedFlg),
    ensures
        (forall|j: int| 0 <= j < b.len() && #[trigger] b[c].around.contains(j) ==> b[j].userflg
            != UserFlg::RedFlg) ==> redflags_around(b, c) == 0 && (b[c].around_num > 0
            ==> redflags_around(b, c) != b[c].around_num),
        redflags_around(b2, c) == redflags_around(b, c),
{
    let a = b[c].around;
    let f = |j: int| valid_idx(b, j) && b[j].userflg == UserFlg::RedFlg;
    let g = |j: int| valid_idx(b2, j) && b2[j].userflg == UserFlg::RedFlg;
    assert forall|k: int| 0 <= k < a.len() implies f(#[trigger] a[k]) == g(a[k]) by {
        let j = a[k];
        if valid_idx(b, j) {
            assert(b2[j].userflg == UserFlg::RedFlg <==> b[j].userflg == UserFlg::RedFlg);
        }
    }
    lemma_count_where_ext(a, f, g);
    assert(redflags_around(b, c) == count_where(a, f));
    assert(redflags_around(b2, c) == count_where(b2[c].around, g));
    if forall|j: int| 0 <= j < b.len() && #[trigger] b[c].around.contains(j) ==> b[j].userflg != UserFlg::RedFlg {
        let z = |j: int| false;
        assert forall|k: int| 0 <= k < a.len() implies f(#[trigger] a[k]) == z(a[k]) by {
            assert(a.contains(a[k]));
        }
        lemma_count_where_ext(a, f, z);
        lemma_count_where_zero(a, z);
    }
}

/// The table after `table_undo`: one step back in the history, if there is one.
pub open spec fn undone(t: TableModel) -> TableModel {
    if t.useundo > 0 {
        TableModel { useundo: t.useundo - 1, board: t.history[t.useundo - 1], ..t }
    } else {
        t
    }
}

/// The table after `table_redo`: one step forward in the history, if there is one.
pub open spec fn redone(t: TableModel) -> TableModel {
    if t.useundo < t.history.len() - 1 {
        TableModel { useundo: t.useundo + 1, board: t.history[t.useundo + 1], ..t }
    } else {
        t
    }
}

/// While stepping through the history (the board is the entry at the undo position),
/// a redo takes back an undo.
pub proof fn lemma_undo_then_redo(t: TableModel)
    requires
        t.inv(),
        0 < t.useundo < t.history.len(),
        t.board == t.history[t.useundo],
    ensures
        redone(undone(t)) == t,
{
}

/// While stepping through the history, an undo takes back a redo.
pub proof fn lemma_redo_then_undo(t: TableModel)
    requires
        t.inv(),
        t.useundo < t.history.len() - 1,
        t.board == t.history[t.useundo],
    ensures
        undone(redone(t)) == t,
{
}

/// After a push the board is the last entry of the history and the undo position is
/// at that entry or just past it; so one undo from the entry (two from past it) brings
/// back the entry before the board.
pub proof fn lemma_push_then_undo(t: TableModel)
    requires
        t.inv(),
    ensures
        pushed(t).history.len() > 0,
        pushed(t).history.last() == t.board,
        pushed(t).board == t.board,
        pushed(t).useundo == pushed(t).history.len() || pushed(t).useundo == pushed(t).history.len()
            - 1,
        pushed(t).history.len() >= 2 ==> (if pushed(t).useundo == pushed(t).history.len() {
            undone(undone(pushed(t)))
        } else {
            undone(pushed(t))
        }).board == pushed(t).history[pushed(t).history.len() - 2],
{
}

/// `b` with a red flag on every panel marked dangerous.
pub open spec fn redflag_all(b: Seq<PanelModel>) -> Seq<PanelModel> {
    Seq::new(
        b.len(),
        |i: int|
            if b[i].auto_flg == AutoSts::Danger {
                PanelModel { userflg: UserFlg::RedFlg, ..b[i] }
            } else {
                b[i]
            },
    )
}

/// `b` without any emphasis or assist mark.
pub open spec fn assist_cleared(b: Seq<PanelModel>) -> Seq<PanelModel> {
    Seq::new(
        b.len(),
        |i: int| PanelModel { is_bold: false, auto_flg: AutoSts::Unmarked, ..b[i] },
    )
}

/// `b` without blue flags.
pub open spec fn blue_cleared(b: Seq<PanelModel>) -> Seq<PanelModel> {
    Seq::new(
        b.len(),
        |i: int|
            if b[i].userflg == UserFlg::BlueFlg {
                PanelModel { userflg: UserFlg::NoFlg, ..b[i] }
            } else {
                b[i]
            },
    )
}

/// Number of red flags among the 3x3 cells centred on panel `c`.
pub open spec fn redflags_around(b: Seq<PanelModel>, c: int) -> int {
    count_where(b[c].around, |j: int| valid_idx(b, j) && b[j].userflg == UserFlg::RedFlg) as int
}

/// The panels that a chord on `c` opens: the cells around `c` without a red flag.
pub open spec fn chord_seeds(b: Seq<PanelModel>, c: int) -> Set<int> {
    Set::new(
        |j: int| b[c].around.contains(j) && valid_idx(b, j) && b[j].userflg != UserFlg::RedFlg,
    )
}

/// The first `k` of `chord_seeds`, in neighbourhood order.
pub open spec fn chord_seeds_upto(b: Seq<PanelModel>, c: int, k: int) -> Set<int> {
    Set::new(
        |j: int|
            exists|k2: int|
                0 <= k2 < k && #[trigger] b[c].around[k2] == j && valid_idx(b, j) && b[j].userflg
                    != UserFlg::RedFlg,
    )
}

/// Closed panels left once panel `i` is open.
pub open spec fn chain_measure(b: Seq<PanelModel>, i: int) -> int {
    count_closed(b) - (if b[i].is_open {
        0int
    } else {
        1int
    })
}

/// `b` with a mine put on panel `t`: `t` shows no number, and every panel around
/// `t` that is not a mine counts one more mine.
pub open spec fn place_bomb(b: Seq<PanelModel>, t: int) -> Seq<PanelModel> {
    Seq::new(
        b.len(),
        |i: int|
            if i == t {
                PanelModel { is_bom: true, around_num: 0, ..b[i] }
            } else if !b[i].is_bom && b[t].around.contains(i) {
                PanelModel { around_num: b[i].around_num + 1, ..b[i] }
            } else {
                b[i]
            },
    )
}

/// `place_bomb` with only the first `k` neighbours of `t` counted so far.
pub open spec fn place_bomb_upto(b: Seq<PanelModel>, t: int, k: int) -> Seq<PanelModel> {
    Seq::new(
        b.len(),
        |i: int|
            if i == t {
                PanelModel { is_bom: true, around_num: 0, ..b[i] }
            } else if !b[i].is_bom && exists|k2: int| 0 <= k2 < k && #[trigger] b[t].around[k2] == i {
                PanelModel { around_num: b[i].around_num + 1, ..b[i] }
            } else {
                b[i]
            },
    )
}

/// Putting a mine on a ready board keeps it ready.
pub proof fn lemma_place_bomb_ready(b: Seq<PanelModel>, width: int, height: int, t: int)
    requires
        wf_board(b, width, height),
        consistent(b),
        valid_idx(b, t),
        !b[t].is_bom,
    ensures
        wf_board(place_bomb(b, t), width, height),
        consistent(place_bomb(b, t)),
{
    let b2 = place_bomb(b, t);
    assert forall|i: int| 0 <= i < b2.len() implies #[trigger] wf_panel(b2[i], i, width, height) by {
        assert(wf_panel(b[i], i, width, height));
    }
    assert forall|i: int| 0 <= i < b2.len() implies (#[trigger] b2[i]).around_num == if b2[i].is_bom {
        0
    } else {
        bombs_around(b2, i) as int
    } by {
        assert(b[i].around_num == if b[i].is_bom {
            0
        } else {
            bombs_around(b, i) as int
        });
        if i != t && !b[i].is_bom {
            let f = |j: int| valid_idx(b, j) && b[j].is_bom;
            let g = |j: int| valid_idx(b2, j) && b2[j].is_bom;
            assert forall|j: int| j != t implies #[trigger] f(j) == g(j) by {
                if valid_idx(b, j) {
                    assert(b2[j].is_bom == b[j].is_bom);
                }
            }
            lemma_around_no_dup(b, width, height, i);
            lemma_around_entry(b, width, height, i, 0);
            lemma_count_where_one_more(b[i].around, f, g, t);
            lemma_around_contains_symmetric(b, width, height, i, t);
        }
    }
}

/// `b1` is `b0` with mines added (and the numbers that go with them), none at `(x, y)`.
pub open spec fn bombs_added(b0: Seq<PanelModel>, b1: Seq<PanelModel>, x: int, y: int) -> bool {
    &&& b0.len() == b1.len()
    &&& forall|i: int|
        0 <= i < b0.len() ==> #[trigger] b1[i] == (PanelModel {
            is_bom: b1[i].is_bom,
            around_num: b1[i].around_num,
            ..b0[i]
        })
    &&& forall|i: int| 0 <= i < b0.len() && b0[i].is_bom ==> #[trigger] b1[i].is_bom
    &&& forall|i: int|
        0 <= i < b0.len() && #[trigger] b1[i].is_bom && !b0[i].is_bom ==> !(b0[i].pos_x == x
            && b0[i].pos_y == y)
}

/// The board after a draw of cell `(x, y)` for a mine, the cursor being at `(cx, cy)`:
/// a mine goes there unless the cell is the cursor's, off the board or a mine already.
pub open spec fn draw_result(b: Seq<PanelModel>, width: int, height: int, cx: int, cy: int, x: int, y: int) -> Seq<
    PanelModel,
> {
    let t = spec_get_index(x, y, width, height);
    if (x == cx && y == cy) || t == -1 || b[t].is_bom {
        b
    } else {
        place_bomb(b, t)
    }
}

/// The board after the draws `ds`, in order.
pub open spec fn draws_result(
    b: Seq<PanelModel>,
    width: int,
    height: int,
    cx: int,
    cy: int,
    ds: Seq<(int, int)>,
) -> Seq<PanelModel>
    decreases ds.len(),
{
    if ds.len() == 0 {
        b
    } else {
        draw_result(
            draws_result(b, width, height, cx, cy, ds.drop_last()),
            width,
            height,
            cx,
            cy,
            ds.last().0,
            ds.last().1,
        )
    }
}

/// Every draw is a cell of a `width` x `height` board.
pub open spec fn draws_on_board(ds: Seq<(int, int)>, width: int, height: int) -> bool {
    forall|k: int| 0 <= k < ds.len() ==> 0 <= (#[trigger] ds[k]).0 < width && 0 <= ds[k].1 < height
}

/// `b1` is `b0` with exactly one more mine, on a free cell.
pub open spec fn placed_one(b0: Seq<PanelModel>, b1: Seq<PanelModel>, x: int, y: int) -> bool {
    &&& bombs_added(b0, b1, x, y)
    &&& count_bombs(b1) == count_bombs(b0) + 1
    &&& count_free(b1, x, y) == count_free(b0, x, y) - 1
}

/// No mine added.
pub proof fn lemma_bombs_added_refl(b: Seq<PanelModel>, x: int, y: int)
    ensures
        bombs_added(b, b, x, y),
{
    assert forall|i: int| 0 <= i < b.len() implies #[trigger] b[i] == (PanelModel {
        is_bom: b[i].is_bom,
        around_num: b[i].around_num,
        ..b[i]
    }) by {}
}

/// Mines added twice are mines added.
pub proof fn lemma_bombs_added_trans(
    b0: Seq<PanelModel>,
    b1: Seq<PanelModel>,
    b2: Seq<PanelModel>,
    x: int,
    y: int,
)
    requires
        bombs_added(b0, b1, x, y),
        bombs_added(b1, b2, x, y),
    ensures
        bombs_added(b0, b2, x, y),
{
    assert forall|i: int| 0 <= i < b0.len() implies #[trigger] b2[i] == (PanelModel {
        is_bom: b2[i].is_bom,
        around_num: b2[i].around_num,
        ..b0[i]
    }) by {
        assert(b1[i] == PanelModel { is_bom: b1[i].is_bom, around_num: b1[i].around_num, ..b0[i] });
        assert(b2[i] == PanelModel { is_bom: b2[i].is_bom, around_num: b2[i].around_num, ..b1[i] });
    }
    assert forall|i: int| 0 <= i < b0.len() && b0[i].is_bom implies #[trigger] b2[i].is_bom by {
        assert(b1[i].is_bom);
    }
    assert forall|i: int| 0 <= i < b0.len() && #[trigger] b2[i].is_bom && !b0[i].is_bom implies !(
    b0[i].pos_x == x && b0[i].pos_y == y) by {
        assert(b1[i] == PanelModel { is_bom: b1[i].is_bom, around_num: b1[i].around_num, ..b0[i] });
        if b1[i].is_bom {
        } else {
            assert(b2[i].is_bom && !b1[i].is_bom);
        }
    }
}

/// A mine put on a free panel adds one mine and takes one free panel.
pub proof fn lemma_place_bomb_one(
    b: Seq<PanelModel>,
    width: int,
    height: int,
    t: int,
    x: int,
    y: int,
)
    requires
        wf_board(b, width, height),
        consistent(b),
        valid_idx(b, t),
        is_free(b[t], x, y),
    ensures
        placed_one(b, place_bomb(b, t), x, y),
{
    let b1 = place_bomb(b, t);
    assert forall|i: int| 0 <= i < b.len() implies #[trigger] b1[i] == (PanelModel {
        is_bom: b1[i].is_bom,
        around_num: b1[i].around_num,
        ..b[i]
    }) by {}
    lemma_count_panels_flip(b, b1, |p: PanelModel| p.is_bom, t);
    lemma_count_panels_flip(b, b1, |p: PanelModel| is_free(p, x, y), t);
}

/// A board and its play state.
pub struct GameTable {
    width: i32,
    height: i32,
    num_bom: i32,
    cursol: MyCursol,
    panels: Vec<Panel>,
    panels_undo: Vec<Vec<Panel>>,
    useundo: usize,
}

impl View for GameTable {
    type V = TableModel;

    closed spec fn view(&self) -> TableModel {
        TableModel {
            width: self.width as int,
            height: self.height as int,
            num_bom: self.num_bom as int,
            cursol: self.cursol,
            board: board_view(self.panels@),
            history: self.panels_undo@.map_values(|v: Vec<Panel>| board_view(v@)),
            useundo: self.useundo as int,
        }
    }
}

/// A number drawn at random in `0..high`, by `macroquad::rand::gen_range(0, high)`.
/// For `0 < high` that function scales a 32-bit random draw into `[0, high)`; which
/// number comes out is left open.
#[verifier::external_body]
fn random_below(high: i32) -> (r: i32)
    requires
        0 < high,
    ensures
        0 <= r < high,
{
    macroquad::rand::gen_range(0, high)
}

/// A copy of a row of panels.
fn copy_panels(v: &Vec<Panel>) -> (r: Vec<Panel>)
    ensures
        r@ == v@,
{
    let mut r: Vec<Panel> = Vec::new();
    let mut i: usize = 0;
    while i < v.len()
        invariant
            i <= v.len(),
            r@ == v@.subrange(0, i as int),
        decreases v.len() - i,
    {
        r.push(v[i]);
        i += 1;
    }
    proof {
        assert(r@ =~= v@);
    }
    r
}

/// Whether two rows of panels hold the same values.
fn same_panels(a: &Vec<Panel>, b: &Vec<Panel>) -> (r: bool)
    ensures
        r == (board_view(a@) == board_view(b@)),
{
    if a.len() != b.len() {
        proof {
            assert(board_view(a@).len() != board_view(b@).len());
        }
        return false;
    }
    let mut i: usize = 0;
    while i < a.len()
        invariant
            i <= a.len(),
            a.len() == b.len(),
            forall|k: int| 0 <= k < i ==> a@[k]@ == b@[k]@,
        decreases a.len() - i,
    {
        if !a[i].same(&b[i]) {
            proof {
                assert(board_view(a@)[i as int] != board_view(b@)[i as int]);
            }
            return false;
        }
        i += 1;
    }
    proof {
        assert(board_view(a@) =~= board_view(b@));
    }
    true
}

impl GameTable {
    /// A table for a `width` x `height` board with `num_bom` mines; the board itself
    /// is laid out by `initial`.
    pub fn new(width: i32, height: i32, num_bom: i32) -> (r: GameTable)
        ensures
            r@ == (TableModel {
                width: width as int,
                height: height as int,
                num_bom: num_bom as int,
                cursol: MyCursol { x: 0, y: 0, index: 0 },
                board: Seq::empty(),
                history: Seq::empty(),
                useundo: 0,
            }),
            0 <= width && 0 <= height && width * height <= i32::MAX ==> r@.inv(),
    {
        let r = GameTable {
            width,
            height,
            num_bom,
            cursol: MyCursol { x: 0, y: 0, index: 0 },
            panels: Vec::new(),
            panels_undo: Vec::new(),
            useundo: 0,
        };
        proof {
            assert(r@.board =~= Seq::<PanelModel>::empty());
            assert(r@.history =~= Seq::<Seq<PanelModel>>::empty());
        }
        r
    }

    /// Lays out a fresh board: every panel closed, empty and unmarked.
    pub fn initial(&mut self)
        requires
            old(self)@.inv(),
        ensures
            final(self)@ == (TableModel {
                board: fresh_board(old(self)@.width, old(self)@.height),
                ..old(self)@
            }),
            final(self)@.inv(),
            final(self)@.ready(),
    {
        let ghost w = self.width as int;
        let ghost h = self.height as int;
        let ghost hist = self@.history;
        let ghost pre = self@;
        self.panels.clear();
        let mut y: i32 = 0;
        while y < self.height
            invariant
                0 <= y <= self.height,
                self.width == w,
                self.height == h,
                0 <= w,
                0 <= h,
                w * h <= i32::MAX,
                self@.history == hist,
                self@.cursol == pre.cursol,
                self@.num_bom == pre.num_bom,
                self@.useundo == pre.useundo,
                self.panels@.len() == y * w,
                forall|i: int|
                    0 <= i < self.panels@.len() ==> self.panels@[i]@ == #[trigger] fresh_board(
                        w,
                        h,
                    )[i],
            decreases self.height - y,
        {
            let mut x: i32 = 0;
            while x < self.width
                invariant
                    0 <= x <= self.width,
                    0 <= y < self.height,
                    self.width == w,
                    self.height == h,
                    0 <= w,
                    0 <= h,
                    w * h <= i32::MAX,
                    self@.history == hist,
                    self@.cursol == pre.cursol,
                    self@.num_bom == pre.num_bom,
                    self@.useundo == pre.useundo,
                    self.panels@.len() == y * w + x,
                    forall|i: int|
                        0 <= i < self.panels@.len() ==> self.panels@[i]@ == #[trigger] fresh_board(
                            w,
                            h,
                        )[i],
                decreases self.width - x,
            {
                proof {
                    lemma_index_coords(x as int, y as int, w, h);
                }
                let p = Panel::new(x, y, self.width, self.height);
                let ghost i = y * w + x;
                self.panels.push(p);
                proof {
                    assert(fresh_board(w, h)[i] == p@);
                    assert(self@.history == hist);
                }
                x += 1;
            }
            proof {
                assert((y + 1) * w == y * w + w) by (nonlinear_arith);
            }
            y += 1;
        }
        proof {
            assert(y * w == w * h) by (nonlinear_arith)
                requires
                    y == h,
            ;
            assert(self@.board =~= fresh_board(w, h));
            let b = self@.board;
            assert forall|i: int| 0 <= i < b.len() implies #[trigger] wf_panel(b[i], i, w, h) by {
                assert(b[i] == fresh_board(w, h)[i]);
            }
            lemma_fresh_consistent(b);
        }
    }

    /// Puts the cursor on the cell `(cursol_x, cursol_y)` and returns it.
    pub fn set_mousepos(&mut self, cursol_x: i32, cursol_y: i32) -> (r: MyCursol)
        requires
            old(self)@.inv(),
        ensures
            r == (MyCursol {
                x: cursol_x,
                y: cursol_y,
                index: spec_get_index(
                    cursol_x as int,
                    cursol_y as int,
                    old(self)@.width,
                    old(self)@.height,
                ) as i32,
            }),
            final(self)@ == (TableModel { cursol: r, ..old(self)@ }),
    {
        proof {
            lemma_all_indices_fit(self.width as int, self.height as int);
        }
        self.cursol = MyCursol {
            x: cursol_x,
            y: cursol_y,
            index: get_index(cursol_x, cursol_y, self.width, self.height),
        };
        self.cursol
    }

    /// Number of open panels.
    pub fn get_opennum(&self) -> (r: usize)
        ensures
            r == count_open(self@.board),
    {
        let mut n: usize = 0;
        let mut i: usize = 0;
        while i < self.panels.len()
            invariant
                i <= self.panels.len(),
                n == count_open(board_view(self.panels@.subrange(0, i as int))),
                n <= i,
            decreases self.panels.len() - i,
        {
            proof {
                assert(board_view(self.panels@.subrange(0, i + 1)).drop_last() =~= board_view(
                    self.panels@.subrange(0, i as int),
                ));
            }
            if self.panels[i].is_open() {
                n += 1;
            }
            i += 1;
        }
        proof {
            assert(self.panels@.subrange(0, i as int) =~= self.panels@);
        }
        n
    }

    /// Number of panels where a mine may still go: no mine, and not the cursor cell.
    pub fn get_freenum(&self) -> (r: usize)
        ensures
            r == count_free(self@.board, self@.cursol.x as int, self@.cursol.y as int),
            r <= self@.board.len(),
    {
        let cx = self.cursol.x;
        let cy = self.cursol.y;
        let mut n: usize = 0;
        let mut i: usize = 0;
        while i < self.panels.len()
            invariant
                i <= self.panels.len(),
                cx == self.cursol.x,
                cy == self.cursol.y,
                n == count_free(board_view(self.panels@.subrange(0, i as int)), cx as int, cy as int),
                n <= i,
            decreases self.panels.len() - i,
        {
            proof {
                assert(board_view(self.panels@.subrange(0, i + 1)).drop_last() =~= board_view(
                    self.panels@.subrange(0, i as int),
                ));
            }
            let (px, py) = self.panels[i].get_pos();
            if !self.panels[i].is_bom() && !(px == cx && py == cy) {
                n += 1;
            }
            i += 1;
        }
        proof {
            assert(self.panels@.subrange(0, i as int) =~= self.panels@);
        }
        n
    }

    /// Number of panels with a red flag.
    pub fn get_num_redflag(&self) -> (r: usize)
        ensures
            r == count_userflg(self@.board, UserFlg::RedFlg),
    {
        let mut n: usize = 0;
        let mut i: usize = 0;
        while i < self.panels.len()
            invariant
                i <= self.panels.len(),
                n == count_userflg(board_view(self.panels@.subrange(0, i as int)), UserFlg::RedFlg),
                n <= i,
            decreases self.panels.len() - i,
        {
            proof {
                assert(board_view(self.panels@.subrange(0, i + 1)).drop_last() =~= board_view(
                    self.panels@.subrange(0, i as int),
                ));
            }
            if self.panels[i].get_userflg() == UserFlg::RedFlg {
                n += 1;
            }
            i += 1;
        }
        proof {
            assert(self.panels@.subrange(0, i as int) =~= self.panels@);
        }
        n
    }

    /// Number of open mines.
    pub fn open_bomnum(&mut self) -> (r: usize)
        ensures
            r == count_bomopen(old(self)@.board),
            final(self)@ == old(self)@,
    {
        let mut n: usize = 0;
        let mut i: usize = 0;
        while i < self.panels.len()
            invariant
                i <= self.panels.len(),
                n == count_bomopen(board_view(self.panels@.subrange(0, i as int))),
                n <= i,
            decreases self.panels.len() - i,
        {
            proof {
                assert(board_view(self.panels@.subrange(0, i + 1)).drop_last() =~= board_view(
                    self.panels@.subrange(0, i as int),
                ));
            }
            if self.panels[i].is_bomopen() {
                n += 1;
            }
            i += 1;
        }
        proof {
            assert(self.panels@.subrange(0, i as int) =~= self.panels@);
        }
        n
    }

    /// Puts a red flag on every panel that the assist marked dangerous.
    pub fn set_all_redflag(&mut self)
        requires
            old(self)@.inv(),
            old(self)@.ready(),
        ensures
            final(self)@ == (TableModel { board: redflag_all(old(self)@.board), ..old(self)@ }),
            final(self)@.inv(),
            final(self)@.ready(),
    {
        let ghost pre = self@;
        let ghost a = self@.board;
        let mut i: usize = 0;
        while i < self.panels.len()
            invariant
                i <= self.panels.len(),
                self@ == (TableModel { board: self@.board, ..pre }),
                self@.board.len() == a.len(),
                forall|k: int| 0 <= k < i ==> self@.board[k] == #[trigger] redflag_all(a)[k],
                forall|k: int| i <= k < a.len() ==> self@.board[k] == a[k],
            decreases self.panels.len() - i,
        {
            if self.panels[i].get_autoflag() == AutoSts::Danger {
                self.panels[i].set_userflg(UserFlg::RedFlg);
            }
            proof {
                assert(self@.board[i as int] == redflag_all(a)[i as int]);
            }
            i += 1;
        }
        proof {
            assert(self@.board =~= redflag_all(a));
            lemma_same_shape(a, self@.board, pre.width, pre.height);
        }
    }

    /// Removes every assist emphasis and mark.
    pub fn assist_clear(&mut self)
        requires
            old(self)@.inv(),
            old(self)@.ready(),
        ensures
            final(self)@ == (TableModel { board: assist_cleared(old(self)@.board), ..old(self)@ }),
            final(self)@.inv(),
            final(self)@.ready(),
    {
        let ghost pre = self@;
        let ghost a = self@.board;
        let mut i: usize = 0;
        while i < self.panels.len()
            invariant
                i <= self.panels.len(),
                self@ == (TableModel { board: self@.board, ..pre }),
                self@.board.len() == a.len(),
                forall|k: int| 0 <= k < i ==> self@.board[k] == #[trigger] assist_cleared(a)[k],
                forall|k: int| i <= k < a.len() ==> self@.board[k] == a[k],
            decreases self.panels.len() - i,
        {
            self.panels[i].bold_off();
            self.panels[i].set_autoflag(AutoSts::Unmarked);
            proof {
                assert(self@.board[i as int] == assist_cleared(a)[i as int]);
            }
            i += 1;
        }
        proof {
            assert(self@.board =~= assist_cleared(a));
            lemma_same_shape(a, self@.board, pre.width, pre.height);
        }
    }

    /// Removes every blue flag.
    pub fn clear_blue_flag(&mut self)
        requires
            old(self)@.inv(),
            old(self)@.ready(),
        ensures
            final(self)@ == (TableModel { board: blue_cleared(old(self)@.board), ..old(self)@ }),
            final(self)@.inv(),
            final(self)@.ready(),
    {
        let ghost pre = self@;
        let ghost a = self@.board;
        let mut i: usize = 0;
        while i < self.panels.len()
            invariant
                i <= self.panels.len(),
                self@ == (TableModel { board: self@.board, ..pre }),
                self@.board.len() == a.len(),
                forall|k: int| 0 <= k < i ==> self@.board[k] == #[trigger] blue_cleared(a)[k],
                forall|k: int| i <= k < a.len() ==> self@.board[k] == a[k],
            decreases self.panels.len() - i,
        {
            if self.panels[i].get_userflg() == UserFlg::BlueFlg {
                self.panels[i].set_userflg(UserFlg::NoFlg);
            }
            proof {
                assert(self@.board[i as int] == blue_cleared(a)[i as int]);
            }
            i += 1;
        }
        proof {
            assert(self@.board =~= blue_cleared(a));
            lemma_same_shape(a, self@.board, pre.width, pre.height);
        }
    }

    /// A copy of the board.
    pub fn tbl_backup(&self) -> (r: Vec<Panel>)
        ensures
            board_view(r@) == self@.board,
    {
        copy_panels(&self.panels)
    }

    /// Replaces the board by `table`, which must be a ready board of the same size.
    pub fn tbl_restore(&mut self, table: Vec<Panel>)
        requires
            old(self)@.inv(),
            wf_board(board_view(table@), old(self)@.width, old(self)@.height),
            consistent(board_view(table@)),
        ensures
            final(self)@ == (TableModel { board: board_view(table@), ..old(self)@ }),
            final(self)@.inv(),
            final(self)@.ready(),
    {
        self.panels = copy_panels(&table);
    }

    /// Records the board in the undo history: entries after the undo position are
    /// dropped, and the board is appended unless it equals the last kept entry.
    pub fn undo_push(&mut self)
        requires
            old(self)@.inv(),
            old(self)@.ready(),
        ensures
            final(self)@ == pushed(old(self)@),
            final(self)@.inv(),
            final(self)@.ready(),
    {
        let ghost pre = self@;
        if self.useundo < self.panels_undo.len() {
            self.panels_undo.truncate(self.useundo + 1);
        }
        proof {
            let kept = if pre.useundo + 1 <= pre.history.len() {
                pre.history.subrange(0, pre.useundo + 1)
            } else {
                pre.history
            };
            assert(self@.history =~= kept);
        }
        let n = self.panels_undo.len();
        if n > 0 {
            if same_panels(&self.panels_undo[n - 1], &self.panels) {
                return;
            }
        }
        let snapshot = copy_panels(&self.panels);
        self.panels_undo.push(snapshot);
        self.useundo = self.panels_undo.len();
        proof {
            let kept = if pre.useundo + 1 <= pre.history.len() {
                pre.history.subrange(0, pre.useundo + 1)
            } else {
                pre.history
            };
            assert(self@.history =~= kept.push(pre.board));
        }
    }

    /// Goes back one step in the undo history.
    pub fn table_undo(&mut self)
        requires
            old(self)@.inv(),
        ensures
            final(self)@ == undone(old(self)@),
            final(self)@.inv(),
    {
        if self.useundo > 0 {
            self.useundo -= 1;
            self.panels = copy_panels(&self.panels_undo[self.useundo]);
        }
    }

    /// Goes forward one step in the undo history.
    pub fn table_redo(&mut self)
        requires
            old(self)@.inv(),
            old(self)@.history.len() > 0,
        ensures
            final(self)@ == redone(old(self)@),
            final(self)@.inv(),
    {
        if self.useundo < self.panels_undo.len() - 1 {
            self.useundo += 1;
            self.panels = copy_panels(&self.panels_undo[self.useundo]);
            proof {
                let k = self.useundo as int;
                assert(wf_board(old(self)@.history[k], self@.width, self@.height));
                assert(self@.board == old(self)@.history[k]);
            }
        }
    }

    /// Number of boards in the undo history.
    pub fn history_len(&self) -> (r: usize)
        ensures
            r == self@.history.len(),
    {
        self.panels_undo.len()
    }

    /// Whether the undo position is inside the history (an undo is in progress).
    pub fn is_useundo(&self) -> (r: bool)
        ensures
            r == (self@.useundo < self@.history.len()),
    {
        self.useundo < self.panels_undo.len()
    }

    /// Right click on the cursor cell: a closed panel on the board moves to its next
    /// flag. Returns whether the board changed.
    pub fn click_right(&mut self, use_blueflg: bool, blueflg_first: bool) -> (r: bool)
        requires
            old(self)@.inv(),
            old(self)@.ready(),
            old(self)@.cursor_ok(),
        ensures
            r == (old(self)@.cursol.index != -1 && !old(self)@.board[old(
                self,
            )@.cursol.index as int].is_open),
            !r ==> final(self)@ == old(self)@,
            r ==> final(self)@ == (TableModel {
                board: old(self)@.board.update(
                    old(self)@.cursol.index as int,
                    PanelModel {
                        userflg: spec_next_userflg(
                            old(self)@.board[old(self)@.cursol.index as int].userflg,
                            use_blueflg,
                            blueflg_first,
                        ),
                        ..old(self)@.board[old(self)@.cursol.index as int]
                    },
                ),
                ..old(self)@
            }),
            final(self)@.inv(),
            final(self)@.ready(),
    {
        let ghost pre = self@;
        if self.cursol.index == -1 || self.panels[self.cursol.index as usize].is_open() {
            return false;
        }
        let c = self.cursol.index as usize;
        let flg = next_userflg(self.panels[c].get_userflg(), use_blueflg, blueflg_first);
        self.panels[c].set_userflg(flg);
        proof {
            assert(self@.board =~= pre.board.update(
                c as int,
                PanelModel {
                    userflg: spec_next_userflg(pre.board[c as int].userflg, use_blueflg, blueflg_first),
                    ..pre.board[c as int]
                },
            ));
            lemma_same_shape(pre.board, self@.board, pre.width, pre.height);
        }
        true
    }

    /// Opens panel `cursol_index` and, while the opened panels show no number,
    /// their closed neighbours without a mine, recursively.
    #[verifier::spinoff_prover]
    #[verifier::rlimit(30)]
    fn openchain(&mut self, cursol_index: i32, Ghost(fuel): Ghost<int>) -> (ord: Ghost<Seq<int>>)
        requires
            fuel == chain_measure(old(self)@.board, cursol_index as int),
            old(self)@.inv(),
            old(self)@.ready(),
            valid_idx(old(self)@.board, cursol_index as int),
        ensures
            final(self)@ == (TableModel { board: final(self)@.board, ..old(self)@ }),
            chain_core(old(self)@.board, final(self)@.board, set![cursol_index as int], ord@),
            chain_closed(old(self)@.board, final(self)@.board, set![cursol_index as int], Set::empty()),
            ord@.len() > 0,
            ord@[0] == cursol_index,
            final(self)@.inv(),
            final(self)@.ready(),
        decreases fuel,
    {
        let ghost pre = self@;
        let ghost a = self@.board;
        let ghost ci = cursol_index as int;
        let i = cursol_index as usize;
        self.panels[i].open();
        let ghost s1 = self@.board;
        proof {
            assert(s1 =~= open_one(a, ci));
            lemma_chain_base(a, ci);
            lemma_count_closed_open_one(a, ci);
            lemma_same_except_open_shape(a, s1);
            lemma_same_shape(a, s1, pre.width, pre.height);
        }
        let ghost mut ord: Seq<int> = seq![ci];
        if self.panels[i].get_around_num() != 0 {
            return Ghost(ord);
        }
        let around = self.panels[i].get_around_tbl();
        proof {
            assert(self.panels@[i as int]@ == s1[ci]);
            assert(s1[ci].around == a[ci].around);
        }
        let mut k: usize = 0;
        while k < 9
            invariant
                0 <= k <= 9,
                0 <= ci < a.len(),
                i == ci,
                fuel == chain_measure(a, ci),
                pre.inv(),
                pre.ready(),
                a == pre.board,
                a[ci].around_num == 0,
                self@ == (TableModel { board: self@.board, ..pre }),
                self@.inv(),
                self@.ready(),
                forall|k2: int| 0 <= k2 < 9 ==> around@[k2 / 3]@[k2 % 3] as int == #[trigger] a[ci].around[k2],
                chain_core(a, self@.board, set![ci], ord),
                chain_closed(a, self@.board, set![ci], set![ci]),
                ord.len() > 0,
                ord[0] == ci,
                count_closed(self@.board) <= count_closed(s1),
                count_closed(s1) == count_closed(a) - (if a[ci].is_open {
                    0int
                } else {
                    1int
                }),
                forall|k2: int|
                    0 <= k2 < k ==> #[trigger] a[ci].around[k2] == -1 || (valid_idx(a, a[ci].around[k2]) && (
                    a[a[ci].around[k2]].is_bom || self@.board[a[ci].around[k2]].is_open)),
            decreases 9 - k,
        {
            let idx = around[k / 3][k % 3];
            proof {
                assert(idx == a[ci].around[k as int]);
                lemma_around_entry(a, pre.width, pre.height, ci, k as int);
                assert(self@.board.len() == a.len());
            }
            if idx != -1 && !self.panels[idx as usize].is_bom() && !self.panels[idx as usize].is_open() {
                let ghost s = self@.board;
                proof {
                    assert(s[idx as int] == PanelModel { is_open: s[idx as int].is_open, ..a[idx as int] });
                    lemma_count_closed_pos(s, idx as int);
                    assert(a[ci].around[k as int] == idx);
                    assert(a[ci].around.contains(idx as int));
                    assert(set![ci].contains(ci));
                    assert(!a[idx as int].is_open);
                    assert(chain_step(a, set![ci], ord[0], idx as int));
                    assert(!s[idx as int].is_open);
                    assert(chain_measure(s, idx as int) < chain_measure(a, ci));
                    assert(chain_measure(s, idx as int) >= 0);
                }
                let Ghost(ord2) = self.openchain(idx, Ghost(chain_measure(s, idx as int)));
                proof {
                    lemma_chain_extend(a, s, self@.board, set![ci], set![ci], idx as int, ord, ord2);
                    ord = ord + ord2;
                    assert(ord[0] == ci);
                    lemma_count_closed_mono(s, self@.board);
                }
            }
            k += 1;
        }
        proof {
            let t = self@.board;
            lemma_around_entry(a, pre.width, pre.height, ci, 0);
            assert forall|c: int, x: int|
                #![trigger a[c].around.contains(x)]
                valid_idx(a, c) && !Set::<int>::empty().contains(c) && t[c].is_open && propagates(
                    a,
                    set![ci],
                    c,
                ) && a[c].around.contains(x) && valid_idx(a, x) && !a[x].is_bom implies t[x].is_open by {
                if c == ci {
                    let k2 = choose|k2: int| 0 <= k2 < a[ci].around.len() && a[ci].around[k2] == x;
                    assert(a[ci].around[k2] == x);
                } else {
                    assert(!set![ci].contains(c));
                }
            }
        }
        Ghost(ord)
    }

    /// Left click on the cursor cell: a closed panel on the board without a red flag
    /// is opened; if it is not a mine, the opening spreads from it. Returns whether
    /// the board changed.
    pub fn click_left(&mut self) -> (r: bool)
        requires
            old(self)@.inv(),
            old(self)@.ready(),
            old(self)@.cursor_ok(),
        ensures
            r == (old(self)@.cursol.index != -1 && !old(self)@.board[old(
                self,
            )@.cursol.index as int].is_open && old(self)@.board[old(
                self,
            )@.cursol.index as int].userflg != UserFlg::RedFlg),
            final(self)@ == (TableModel { board: final(self)@.board, ..old(self)@ }),
            !r ==> final(self)@.board == old(self)@.board,
            r && old(self)@.board[old(self)@.cursol.index as int].is_bom ==> final(self)@.board
                == open_one(old(self)@.board, old(self)@.cursol.index as int),
            r && !old(self)@.board[old(self)@.cursol.index as int].is_bom ==> chain_result(
                old(self)@.board,
                final(self)@.board,
                set![old(self)@.cursol.index as int],
            ),
            final(self)@.inv(),
            final(self)@.ready(),
    {
        let ghost pre = self@;
        let ghost a = self@.board;
        if self.cursol.index == -1 || self.panels[self.cursol.index as usize].is_open()
            || self.panels[self.cursol.index as usize].get_userflg() == UserFlg::RedFlg {
            return false;
        }
        let c = self.cursol.index;
        let ghost ci = c as int;
        self.panels[c as usize].open();
        proof {
            assert(self@.board =~= open_one(a, ci));
            lemma_same_except_open_shape(a, self@.board);
            lemma_same_shape(a, self@.board, pre.width, pre.height);
        }
        if self.panels[c as usize].is_bom() {
            return true;
        }
        let Ghost(ord) = self.openchain(c, Ghost(chain_measure(self@.board, c as int)));
        proof {
            lemma_chain_open_first(a, self@.board, set![ci], ci, ord);
        }
        true
    }

    /// Release of the left button on the cursor cell (chord): when the cursor panel is
    /// open, not a mine, and as many red flags surround it as its number, every
    /// neighbour without a red flag is opened and the opening spreads from it.
    /// Returns whether that happened.
    pub fn clickoff_left(&mut self) -> (r: bool)
        requires
            old(self)@.inv(),
            old(self)@.ready(),
            old(self)@.cursor_ok(),
        ensures
            r == (old(self)@.cursol.index != -1 && old(self)@.board[old(
                self,
            )@.cursol.index as int].is_open && !old(self)@.board[old(
                self,
            )@.cursol.index as int].is_bom && redflags_around(old(self)@.board, old(self)@.cursol.index as int)
                == old(self)@.board[old(self)@.cursol.index as int].around_num),
            final(self)@ == (TableModel { board: final(self)@.board, ..old(self)@ }),
            !r ==> final(self)@.board == old(self)@.board,
            r ==> chain_result(
                old(self)@.board,
                final(self)@.board,
                chord_seeds(old(self)@.board, old(self)@.cursol.index as int),
            ),
            final(self)@.inv(),
            final(self)@.ready(),
    {
        let ghost pre = self@;
        let ghost a = self@.board;
        if self.cursol.index == -1 || !self.panels[self.cursol.index as usize].is_open()
            || self.panels[self.cursol.index as usize].is_bom() {
            return false;
        }
        let c = self.cursol.index as usize;
        let ghost ci = c as int;
        let around_num = self.panels[c].get_around_num();
        let around = self.panels[c].get_around_tbl();
        let ghost f = |j: int| valid_idx(a, j) && a[j].userflg == UserFlg::RedFlg;
        let mut flg_num: i32 = 0;
        let mut k: usize = 0;
        while k < 9
            invariant
                0 <= k <= 9,
                0 <= ci < a.len(),
                c == ci,
                pre.ready(),
                a == pre.board,
                self@ == pre,
                f == (|j: int| valid_idx(a, j) && a[j].userflg == UserFlg::RedFlg),
                forall|k2: int| 0 <= k2 < 9 ==> around@[k2 / 3]@[k2 % 3] as int == #[trigger] a[ci].around[k2],
                flg_num == count_where(a[ci].around.take(k as int), f),
                flg_num <= k,
            decreases 9 - k,
        {
            let idx = around[k / 3][k % 3];
            proof {
                lemma_around_entry(a, pre.width, pre.height, ci, k as int);
                lemma_count_where_take(a[ci].around, f, k as int);
                assert(idx == a[ci].around[k as int]);
            }
            if idx != -1 {
                if self.panels[idx as usize].get_userflg() == UserFlg::RedFlg {
                    flg_num += 1;
                }
            }
            k += 1;
        }
        proof {
            lemma_around_entry(a, pre.width, pre.height, ci, 0);
            assert(a[ci].around.take(9) =~= a[ci].around);
        }
        if flg_num != around_num {
            return false;
        }
        let ghost mut ord: Seq<int> = Seq::empty();
        let ghost mut seeds: Set<int> = Set::empty();
        proof {
            lemma_chain_empty(a);
        }
        let mut k: usize = 0;
        while k < 9
            invariant
                0 <= k <= 9,
                0 <= ci < a.len(),
                c == ci,
                pre.inv(),
                pre.ready(),
                a == pre.board,
                self@ == (TableModel { board: self@.board, ..pre }),
                self@.inv(),
                self@.ready(),
                forall|k2: int| 0 <= k2 < 9 ==> around@[k2 / 3]@[k2 % 3] as int == #[trigger] a[ci].around[k2],
                chain_core(a, self@.board, seeds, ord),
                chain_closed(a, self@.board, seeds, Set::empty()),
                seeds == chord_seeds_upto(a, ci, k as int),
            decreases 9 - k,
        {
            let idx = around[k / 3][k % 3];
            proof {
                lemma_around_entry(a, pre.width, pre.height, ci, k as int);
                assert(idx == a[ci].around[k as int]);
                assert(self@.board.len() == a.len());
            }
            if idx != -1 && self.panels[idx as usize].get_userflg() != UserFlg::RedFlg {
                let ghost s = self@.board;
                let ghost j = idx as int;
                self.panels[idx as usize].open();
                let ghost s1 = self@.board;
                proof {
                    assert(s1 =~= open_one(s, j));
                    assert(s[j] == PanelModel { is_open: s[j].is_open, ..a[j] });
                    lemma_same_except_open_shape(s, s1);
                    lemma_same_shape(s, s1, pre.width, pre.height);
                }
                let Ghost(ord2) = self.openchain(idx, Ghost(chain_measure(self@.board, idx as int)));
                proof {
                    lemma_chain_open_first(s, self@.board, set![j], j, ord2);
                    lemma_chain_union(a, s, self@.board, seeds, Set::empty(), j, ord, seq![j] + ord2);
                    ord = ord + (seq![j] + ord2);
                    seeds = seeds.insert(j);
                    assert(seeds =~= chord_seeds_upto(a, ci, k + 1));
                }
            } else {
                proof {
                    assert(seeds =~= chord_seeds_upto(a, ci, k + 1));
                }
            }
            k += 1;
        }
        proof {
            assert(seeds =~= chord_seeds(a, ci)) by {
                assert forall|j: int| seeds.contains(j) == chord_seeds(a, ci).contains(j) by {
                    if chord_seeds(a, ci).contains(j) {
                        let k2 = choose|k2: int| 0 <= k2 < a[ci].around.len() && a[ci].around[k2] == j;
                        assert(a[ci].around[k2] == j);
                    }
                }
            }
        }
        true
    }

    /// Puts a mine on the cell `(pos_x, pos_y)` and counts it on the panels around
    /// it. Returns false, changing nothing, when the cell is off the board or
    /// already a mine.
    fn bomon(&mut self, pos_x: i32, pos_y: i32) -> (r: bool)
        requires
            old(self)@.inv(),
            old(self)@.ready(),
        ensures
            r == (spec_get_index(pos_x as int, pos_y as int, old(self)@.width, old(self)@.height) != -1
                && !old(self)@.board[spec_get_index(
                pos_x as int,
                pos_y as int,
                old(self)@.width,
                old(self)@.height,
            )].is_bom),
            !r ==> final(self)@ == old(self)@,
            r ==> final(self)@ == (TableModel {
                board: place_bomb(
                    old(self)@.board,
                    spec_get_index(pos_x as int, pos_y as int, old(self)@.width, old(self)@.height),
                ),
                ..old(self)@
            }),
            final(self)@.inv(),
            final(self)@.ready(),
    {
        let ghost pre = self@;
        let ghost b = self@.board;
        let ghost w = pre.width;
        let ghost h = pre.height;
        proof {
            lemma_all_indices_fit(w, h);
        }
        let tblpos = get_index(pos_x, pos_y, self.width, self.height);
        if tblpos == -1 {
            return false;
        }
        proof {
            lemma_index_coords(pos_x as int, pos_y as int, w, h);
        }
        if self.panels[tblpos as usize].is_bom() {
            return false;
        }
        let ghost t = tblpos as int;
        let t_u = tblpos as usize;
        self.panels[t_u].bomon();
        proof {
            assert(self@.board =~= place_bomb_upto(b, t, 0)) by {
                assert forall|i: int| 0 <= i < b.len() implies self@.board[i] == #[trigger] place_bomb_upto(
                    b,
                    t,
                    0,
                )[i] by {}
            }
            lemma_around_entry(b, w, h, t, 0);
            lemma_around_no_dup(b, w, h, t);
            lemma_around_centre(b, w, h, t);
        }
        let around = self.panels[t_u].get_around_tbl();
        proof {
            assert(self.panels@[t]@.around == b[t].around);
        }
        let mut k: usize = 0;
        while k < 9
            invariant
                0 <= k <= 9,
                0 <= t < b.len(),
                t_u == t,
                pre.inv(),
                pre.ready(),
                b == pre.board,
                !b[t].is_bom,
                b[t].around[4] == t,
                b[t].around.len() == 9,
                w == pre.width,
                h == pre.height,
                forall|k1: int, k2: int|
                    0 <= k1 < 9 && 0 <= k2 < 9 && k1 != k2 && #[trigger] b[t].around[k1] != -1 ==> b[t].around[k1]
                        != #[trigger] b[t].around[k2],
                self@ == (TableModel { board: self@.board, ..pre }),
                self@.board == place_bomb_upto(b, t, k as int),
                forall|k2: int| 0 <= k2 < 9 ==> around@[k2 / 3]@[k2 % 3] as int == #[trigger] b[t].around[k2],
            decreases 9 - k,
        {
            let idx = around[k / 3][k % 3];
            proof {
                assert(idx == b[t].around[k as int]);
                lemma_around_entry(b, w, h, t, k as int);
            }
            if idx != -1 {
                proof {
                    let j = idx as int;
                    assert(b[j].around_num <= 9) by {
                        assert(b[j].around_num == if b[j].is_bom {
                            0
                        } else {
                            bombs_around(b, j) as int
                        });
                        lemma_count_where_le(
                            b[j].around,
                            |x: int| valid_idx(b, x) && b[x].is_bom,
                        );
                        lemma_around_entry(b, w, h, j, 0);
                    }
                    assert(self@.board.len() == b.len());
                    assert(self.panels@[j]@ == self@.board[j]);
                    if j != t {
                        assert(!exists|k2: int| 0 <= k2 < k && #[trigger] b[t].around[k2] == j) by {
                            if exists|k2: int| 0 <= k2 < k && #[trigger] b[t].around[k2] == j {
                                let k2 = choose|k2: int| 0 <= k2 < k && #[trigger] b[t].around[k2] == j;
                                assert(b[t].around[k as int] == j);
                            }
                        }
                        assert(self@.board[j] == b[j]);
                    } else {
                        assert(self@.board[j].is_bom);
                    }
                }
                let ghost before = self@.board;
                self.panels[idx as usize].num_up();
                proof {
                    let j = idx as int;
                    assert forall|i: int| 0 <= i < b.len() implies self@.board[i] == #[trigger] place_bomb_upto(
                        b,
                        t,
                        k + 1,
                    )[i] by {
                        assert(b[t].around[k as int] == j);
                        if i != j {
                            assert(self@.board[i] == before[i]);
                            if exists|k2: int| 0 <= k2 < k + 1 && #[trigger] b[t].around[k2] == i {
                                let k2 = choose|k2: int| 0 <= k2 < k + 1 && #[trigger] b[t].around[k2] == i;
                                assert(k2 != k);
                                assert(exists|k3: int| 0 <= k3 < k && #[trigger] b[t].around[k3] == i);
                            }
                        } else if i != t {
                            assert(exists|k3: int| 0 <= k3 < k + 1 && #[trigger] b[t].around[k3] == i);
                        }
                    }
                    assert(self@.board =~= place_bomb_upto(b, t, k + 1));
                }
            } else {
                proof {
                    assert(self@.board =~= place_bomb_upto(b, t, k + 1));
                }
            }
            k += 1;
        }
        proof {
            assert(self@.board =~= place_bomb(b, t)) by {
                assert forall|i: int| 0 <= i < b.len() implies place_bomb_upto(b, t, 9)[i] == #[trigger] place_bomb(
                    b,
                    t,
                )[i] by {
                    if b[t].around.contains(i) {
                        let k2 = choose|k2: int| 0 <= k2 < b[t].around.len() && b[t].around[k2] == i;
                        assert(b[t].around[k2] == i);
                    }
                }
            }
            lemma_place_bomb_ready(b, w, h, t);
        }
        true
    }

    /// Tries a mine on the drawn cell `(land_x, land_y)`: placed, with the panels around
    /// counting it, unless the cell is the cursor's, off the board or a mine already.
    /// Returns whether it was placed.
    pub fn place_draw(&mut self, land_x: i32, land_y: i32) -> (r: bool)
        requires
            old(self)@.inv(),
            old(self)@.ready(),
        ensures
            final(self)@ == (TableModel {
                board: draw_result(
                    old(self)@.board,
                    old(self)@.width,
                    old(self)@.height,
                    old(self)@.cursol.x as int,
                    old(self)@.cursol.y as int,
                    land_x as int,
                    land_y as int,
                ),
                ..old(self)@
            }),
            r == (!(land_x == old(self)@.cursol.x && land_y == old(self)@.cursol.y) && spec_get_index(
                land_x as int,
                land_y as int,
                old(self)@.width,
                old(self)@.height,
            ) != -1 && !old(self)@.board[spec_get_index(
                land_x as int,
                land_y as int,
                old(self)@.width,
                old(self)@.height,
            )].is_bom),
            final(self)@.inv(),
            final(self)@.ready(),
    {
        if land_x == self.cursol.x && land_y == self.cursol.y {
            return false;
        }
        self.bomon(land_x, land_y)
    }

    /// Puts `num_bom` mines on free cells chosen at random, never on the cursor cell,
    /// and clears the undo history. A cell is drawn again while it is the cursor
    /// cell or already a mine.
    pub fn setting_bom(&mut self, num_bom: i32) -> (draws: Ghost<Seq<(int, int)>>)
        requires
            old(self)@.inv(),
            old(self)@.ready(),
            num_bom <= count_free(old(self)@.board, old(self)@.cursol.x as int, old(self)@.cursol.y as int),
        ensures
            final(self)@ == (TableModel {
                board: final(self)@.board,
                num_bom: num_bom as int,
                history: Seq::empty(),
                useundo: 0,
                ..old(self)@
            }),
            final(self)@.inv(),
            final(self)@.ready(),
            bombs_added(
                old(self)@.board,
                final(self)@.board,
                old(self)@.cursol.x as int,
                old(self)@.cursol.y as int,
            ),
            count_bombs(final(self)@.board) == count_bombs(old(self)@.board) + (if num_bom > 0 {
                num_bom as int
            } else {
                0int
            }),
            draws_on_board(draws@, old(self)@.width, old(self)@.height),
            final(self)@.board == draws_result(
                old(self)@.board,
                old(self)@.width,
                old(self)@.height,
                old(self)@.cursol.x as int,
                old(self)@.cursol.y as int,
                draws@,
            ),
    {
        let ghost pre = self@;
        let ghost b0 = self@.board;
        let ghost cx = pre.cursol.x as int;
        let ghost cy = pre.cursol.y as int;
        self.num_bom = num_bom;
        let ghost pre2 = self@;
        proof {
            lemma_bombs_added_refl(b0, cx, cy);
        }
        let mut placed: i32 = 0;
        let ghost mut ds: Seq<(int, int)> = Seq::empty();
        while placed < self.num_bom
            invariant
                draws_on_board(ds, pre.width, pre.height),
                self@.board == draws_result(b0, pre.width, pre.height, cx, cy, ds),
                pre.inv(),
                pre.ready(),
                b0 == pre.board,
                cx == pre.cursol.x,
                cy == pre.cursol.y,
                pre2 == (TableModel { num_bom: num_bom as int, ..pre }),
                self.num_bom == num_bom,
                0 <= placed,
                placed <= (if num_bom > 0 {
                    num_bom
                } else {
                    0
                }),
                num_bom <= count_free(b0, cx, cy),
                self@ == (TableModel { board: self@.board, ..pre2 }),
                self@.inv(),
                self@.ready(),
                bombs_added(b0, self@.board, cx, cy),
                count_bombs(self@.board) == count_bombs(b0) + placed,
                count_free(self@.board, cx, cy) == count_free(b0, cx, cy) - placed,
            decreases num_bom - placed,
        {
            let ghost bs = self@.board;
            proof {
                assert(count_free(bs, cx, cy) >= 1);
                lemma_count_panels_some(bs, |p: PanelModel| is_free(p, cx, cy));
                assert(pre.width * pre.height >= 1);
                assert(pre.width >= 1 && pre.height >= 1) by (nonlinear_arith)
                    requires
                        pre.width * pre.height >= 1,
                        pre.width >= 0,
                        pre.height >= 0,
                ;
            }
            let mut done = false;
            let mut tries: u64 = 0;
            while !done && tries < u64::MAX
                invariant
                    b0 == pre.board,
                    draws_on_board(ds, pre.width, pre.height),
                    self@.board == draws_result(b0, pre.width, pre.height, cx, cy, ds),
                    pre.inv(),
                    pre.ready(),
                    self.width == pre.width,
                    self.height == pre.height,
                    self.cursol == pre.cursol,
                    pre.width >= 1,
                    pre.height >= 1,
                    cx == pre.cursol.x,
                    cy == pre.cursol.y,
                    !done ==> self@ == (TableModel { board: bs, ..pre2 }),
                    done ==> placed_one(bs, self@.board, cx, cy),
                    self@ == (TableModel { board: self@.board, ..pre2 }),
                    self@.inv(),
                    self@.ready(),
                    bs.len() == pre.board.len(),
                decreases u64::MAX - tries,
            {
                let land_x = random_below(self.width);
                let land_y = random_below(self.height);
                let ghost ds0 = ds;
                proof {
                    ds = ds.push((land_x as int, land_y as int));
                    assert(ds.drop_last() =~= ds0);
                }
                if self.place_draw(land_x, land_y) {
                    proof {
                        let t = spec_get_index(land_x as int, land_y as int, pre.width, pre.height);
                        lemma_index_coords(land_x as int, land_y as int, pre.width, pre.height);
                        assert(wf_panel(bs[t], t, pre.width, pre.height));
                        lemma_place_bomb_one(bs, pre.width, pre.height, t, cx, cy);
                    }
                    done = true;
                }
                tries += 1;
            }
            if !done {
                let mut i: usize = 0;
                while i < self.panels.len() && !done
                    invariant
                        b0 == pre.board,
                        draws_on_board(ds, pre.width, pre.height),
                        self@.board == draws_result(b0, pre.width, pre.height, cx, cy, ds),
                        pre.inv(),
                        pre.ready(),
                        self.width == pre.width,
                        self.height == pre.height,
                        self.cursol == pre.cursol,
                        cx == pre.cursol.x,
                        cy == pre.cursol.y,
                        count_free(bs, cx, cy) >= 1,
                        !done ==> self@ == (TableModel { board: bs, ..pre2 }),
                        done ==> placed_one(bs, self@.board, cx, cy),
                        self@ == (TableModel { board: self@.board, ..pre2 }),
                        self@.inv(),
                        self@.ready(),
                        bs.len() == pre.board.len(),
                        i <= bs.len(),
                        !done ==> forall|k: int| 0 <= k < i ==> !is_free(#[trigger] bs[k], cx, cy),
                    decreases bs.len() - i,
                {
                    if !self.panels[i].is_bom() {
                        let (px, py) = self.panels[i].get_pos();
                        if !(px == self.cursol.x && py == self.cursol.y) {
                            proof {
                                assert(wf_panel(bs[i as int], i as int, pre.width, pre.height));
                                lemma_cell_coords(i as int, pre.width, pre.height);
                                lemma_index_coords(px as int, py as int, pre.width, pre.height);
                            }
                            let ghost ds0 = ds;
                            proof {
                                ds = ds.push((px as int, py as int));
                                assert(ds.drop_last() =~= ds0);
                            }
                            let ok = self.place_draw(px, py);
                            proof {
                                assert(ok);
                                lemma_place_bomb_one(bs, pre.width, pre.height, i as int, cx, cy);
                            }
                            done = true;
                        }
                    }
                    i += 1;
                }
                proof {
                    if !done {
                        lemma_count_panels_none(bs, |p: PanelModel| is_free(p, cx, cy));
                    }
                }
            }
            proof {
                lemma_bombs_added_trans(b0, bs, self@.board, cx, cy);
            }
            placed += 1;
        }
        self.panels_undo.clear();
        self.useundo = 0;
        proof {
            assert(self@.history =~= Seq::<Seq<PanelModel>>::empty());
        }
        Ghost(ds)
    }
}

} // verus!
