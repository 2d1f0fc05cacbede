use vstd::prelude::*;
use crate::myconst::{CBGame, CBSetting, GameMode, GameStat};
use crate::chkbox::ChkModel;
use crate::chkboxmng::{ChkBoxMng, MngModel, kind_flg, set_flg_all, any_clickable, first_click_index, clicked};
use crate::board::{
    wf_board,
    wf_panel,
    consistent,
    count_open,
    count_bomopen,
    bombs_around,
    same_shape,
    lemma_same_shape,
    lemma_count_where_le,
};
use crate::gametable::{
    GameTable,
    TableModel,
    MyCursol,
    assist_cleared,
    pushed,
    undone,
    redone,
    redflag_all,
    blue_cleared,
    fresh_board,
    bombs_added,
    chord_seeds,
};
use crate::chain::chain_result;
use crate::panel::{PanelModel, spec_next_userflg};
use crate::chkboxmng::lock_set;
use crate::inference::{InfTable, nums_bounded, bold_result, inference_result};
use crate::setting::GameSettings;
use crate::soundness::lemma_inference_shape;
use crate::utils::{spec_get_index, lemma_index_fits};

verus! {

/// Box `i` of the game screen's four buttons (reset, settings, title, how to play):
/// enabled, unchecked, drawn without a frame, each in a colour of its own.
pub open spec fn game_box(i: int) -> ChkModel<CBGame> {
    let k = if i == 0 {
        CBGame::Reset
    } else if i == 1 {
        CBGame::Settings
    } else if i == 2 {
        CBGame::Title
    } else {
        CBGame::HowTo
    };
    ChkModel {
        is_active: true,
        is_lock: false,
        mytype: k,
        parent: None,
        text: if i == 0 {
            "[RESET]"@
        } else if i == 1 {
            "[SETTINGS]"@
        } else if i == 2 {
            "[TITLE]"@
        } else {
            "[HOW TO]"@
        },
        flg: false,
        fgcol: if i == 0 {
            "FFFF77FF"@
        } else if i == 1 {
            "77FFFFFF"@
        } else if i == 2 {
            "FF7777FF"@
        } else {
            "FFFFFFFF"@
        },
        bgcol: "000077FF"@,
        is_absolute: false,
        viewbox: false,
        hitbox: false,
        help_txt: Seq::empty(),
    }
}

/// One mouse button as the game follows it: held down, pressed in this frame,
/// released in this frame.
#[derive(Clone, Copy, PartialEq, Eq, Structural)]
pub struct ButtonState {
    pub on: bool,
    pub on_now: bool,
    pub off_now: bool,
}

/// The button after a frame in which it was `pressed` or `released` (a press wins):
/// a press of a button that was up, or a release of one that was down, shows for
/// this frame only.
pub fn button_step(prev_on: bool, pressed: bool, released: bool) -> (r: ButtonState)
    ensures
        r == (if pressed {
            ButtonState { on: true, on_now: !prev_on, off_now: false }
        } else if released {
            ButtonState { on: false, on_now: false, off_now: prev_on }
        } else {
            ButtonState { on: prev_on, on_now: false, off_now: false }
        }),
{
    let mut r = ButtonState { on: prev_on, on_now: false, off_now: false };
    if pressed {
        if !prev_on {
            r.on_now = true;
        }
        r.on = true;
    } else if released {
        if prev_on {
            r.off_now = true;
        }
        r.on = false;
    }
    r
}

/// What the player did in one frame on the game screen.
pub struct PlayEvent {
    /// The left button went down in this frame.
    pub left_pressed: bool,
    /// The left button is held.
    pub left_on: bool,
    /// The left button went down in this frame, seen by the game.
    pub left_on_now: bool,
    /// The left button went up in this frame.
    pub left_off_now: bool,
    /// The right button is held.
    pub right_on: bool,
    /// The right button went down in this frame.
    pub right_on_now: bool,
    /// The board cell under the mouse.
    pub x: i32,
    pub y: i32,
    /// The left arrow key was pressed.
    pub key_left: bool,
    /// The right arrow key was pressed.
    pub key_right: bool,
    /// A zoom key changed the zoom.
    pub zoomed: bool,
    /// The F key was pressed.
    pub key_f: bool,
}

/// What a frame of the game screen asks of the program around it.
pub struct PlayOutcome {
    /// The screen to show next.
    pub mode: GameMode,
    /// Forget the mouse buttons.
    pub clear_mouse: bool,
    /// The board was reset: wait before taking clicks.
    pub reset: bool,
    /// The frame reached the board: the cursor followed the mouse and the board took
    /// the keys and clicks.
    pub board: bool,
    /// The zoom keys act in this frame (the board took the keys, not for undo or redo).
    pub zoom: bool,
}

/// What a game screen holds, as plain values.
pub struct GameModel {
    pub stat: GameStat,
    pub death_cnt: int,
    pub width: int,
    pub height: int,
    pub bom_num: int,
    pub table: TableModel,
    pub cursol: MyCursol,
    pub boxes: Seq<ChkModel<CBGame>>,
}

impl GameModel {
    /// What every game keeps, and, before the first click, a fresh board without history.
    pub open spec fn inv(self) -> bool {
        &&& self.base_inv()
        &&& self.stat == GameStat::Ready ==> self.table.board == fresh_board(self.width, self.height)
            && self.table.history.len() == 0 && self.table.useundo == 0 && self.death_cnt == 0
    }

    /// The table is laid out at the game's size, and the cursor is the table's.
    pub open spec fn base_inv(self) -> bool {
        &&& self.table.inv()
        &&& self.table.ready()
        &&& self.table.width == self.width
        &&& self.table.height == self.height
        &&& self.table.cursol == self.cursol
        &&& self.cursol.index == spec_get_index(
            self.cursol.x as int,
            self.cursol.y as int,
            self.width,
            self.height,
        )
        &&& self.table.cursor_ok()
        &&& 0 <= self.death_cnt
    }
}

/// The board after the assist pass: without emphasis nor inference every mark is
/// cleared; with emphasis the emphasis pass runs (with its safe marks when asked);
/// otherwise the inference runs (trusting red flags when asked).
pub open spec fn assisted(b: Seq<crate::panel::PanelModel>, m: MngModel<CBSetting>) -> Seq<
    crate::panel::PanelModel,
> {
    let bold = kind_flg(m.boxes, CBSetting::BoldFlg);
    let inf = kind_flg(m.boxes, CBSetting::Inference);
    if !bold && !inf {
        assist_cleared(b)
    } else if bold {
        bold_result(b, kind_flg(m.boxes, CBSetting::BoldSafeOn))
    } else {
        inference_result(b, false, kind_flg(m.boxes, CBSetting::BelieveFlag))
    }
}

/// The game after a frame that changed the board while playing: the board is recorded
/// for undo; with every mine-free panel open the game is won; with a mine open it is
/// lost (one more death), otherwise the assist pass runs. The flag says whether the
/// mouse buttons are to be forgotten.
pub open spec fn after_update_model(g: GameModel, is_update: bool, m: MngModel<CBSetting>) -> (
    GameModel,
    bool,
) {
    if !is_update || g.stat != GameStat::Playing {
        (g, false)
    } else {
        let t1 = pushed(g.table);
        let won = g.width * g.height - g.bom_num - count_open(t1.board) == 0;
        let lost = count_bomopen(t1.board) > 0;
        let stat = if lost {
            GameStat::Failed
        } else if won {
            GameStat::Success
        } else {
            g.stat
        };
        let table = if lost {
            t1
        } else {
            TableModel { board: assisted(t1.board, m), ..t1 }
        };
        (
            GameModel {
                stat,
                death_cnt: if lost {
                    g.death_cnt + 1
                } else {
                    g.death_cnt
                },
                table,
                ..g
            },
            won || lost,
        )
    }
}

/// A chord on `c` (the button released on an open number whose red flags around it
/// match the number) opens the panels around it: `b` is `a` after it.
pub open spec fn chord_step(a: Seq<PanelModel>, b: Seq<PanelModel>, c: int) -> bool {
    if chord_ok(a, c) {
        chain_result(a, b, chord_seeds(a, c))
    } else {
        b == a
    }
}

/// A chord on `c` opens something.
pub open spec fn chord_ok(a: Seq<PanelModel>, c: int) -> bool {
    c != -1 && a[c].is_open && !a[c].is_bom && crate::gametable::redflags_around(a, c) == a[c].around_num
}

/// A click on `c` opens it (it is closed and has no red flag).
pub open spec fn can_open(a: Seq<PanelModel>, c: int) -> bool {
    c != -1 && !a[c].is_open && a[c].userflg != crate::myconst::UserFlg::RedFlg
}

/// `b` is `a` after a click on `c`: a mine opens alone, a safe panel opens with the
/// panels that spread from it.
pub open spec fn open_step(a: Seq<PanelModel>, b: Seq<PanelModel>, c: int) -> bool {
    if can_open(a, c) {
        if a[c].is_bom {
            b == crate::chain::open_one(a, c)
        } else {
            chain_result(a, b, set![c])
        }
    } else {
        b == a
    }
}

/// `b` is one try at a first board for a game started from cell `(x, y)` (panel `c`)
/// of a fresh board: `bom_num` mines placed at random off the cursor cell, then the
/// click opens the cursor cell and what spreads from it.
pub open spec fn first_try(
    b: Seq<PanelModel>,
    width: int,
    height: int,
    bom_num: int,
    x: int,
    y: int,
    c: int,
) -> bool {
    exists|bb: Seq<PanelModel>|
        #[trigger] bombs_added(fresh_board(width, height), bb, x, y) && crate::board::count_bombs(bb) == (
        if bom_num > 0 {
            bom_num
        } else {
            0
        }) && chain_result(bb, b, set![c])
}

/// How many panels the first click should open: 5% of the board.
pub open spec fn open_target(width: int, height: int) -> int {
    width * height * 5 / 100
}

/// The tries made on the first click: between one and a hundred, each a `first_try`;
/// every try but the last opens fewer panels than `open_target`, and the last reaches
/// it unless there are a hundred tries.
pub open spec fn first_tries(
    tries: Seq<Seq<PanelModel>>,
    width: int,
    height: int,
    bom_num: int,
    x: int,
    y: int,
    c: int,
) -> bool {
    &&& 1 <= tries.len() <= 100
    &&& forall|k: int| 0 <= k < tries.len() ==> first_try(#[trigger] tries[k], width, height, bom_num, x, y, c)
    &&& forall|k: int| 0 <= k < tries.len() - 1 ==> count_open(#[trigger] tries[k]) < open_target(width, height)
    &&& tries.len() == 100 || count_open(tries.last()) >= open_target(width, height)
}

/// `b` is the first of `tries` that opened the most panels.
pub open spec fn best_try(tries: Seq<Seq<PanelModel>>, b: Seq<PanelModel>) -> bool {
    exists|k: int|
        0 <= k < tries.len() && b == #[trigger] tries[k] && (forall|j: int|
            0 <= j < k ==> count_open(#[trigger] tries[j]) < count_open(tries[k])) && (forall|j: int|
            0 <= j < tries.len() ==> count_open(#[trigger] tries[j]) <= count_open(tries[k]))
}

/// `b` is the board that a game started from cell `(x, y)` (panel `c`) begins with: mines
/// are placed and the click made up to a hundred times, stopping once a try opens
/// `open_target` panels, and the first try that opened the most is kept.
pub open spec fn first_board(
    b: Seq<PanelModel>,
    width: int,
    height: int,
    bom_num: int,
    x: int,
    y: int,
    c: int,
) -> bool {
    exists|tries: Seq<Seq<PanelModel>>|
        #[trigger] first_tries(tries, width, height, bom_num, x, y, c) && best_try(tries, b)
}

/// The game after the board's keys (see `keycontrol`).
pub open spec fn keys_model(
    g: GameModel,
    key_left: bool,
    key_right: bool,
    key_f: bool,
    m: MngModel<CBSetting>,
) -> GameModel {
    let undo = kind_flg(m.boxes, CBSetting::UndoFlg);
    if undo && key_left {
        let t1 = if g.table.useundo < g.table.history.len() {
            undone(g.table)
        } else {
            undone(undone(g.table))
        };
        GameModel {
            stat: GameStat::Playing,
            table: TableModel { board: assisted(t1.board, m), ..t1 },
            ..g
        }
    } else if undo && key_right {
        let t1 = redone(g.table);
        GameModel { table: TableModel { board: assisted(t1.board, m), ..t1 }, ..g }
    } else if key_f {
        GameModel { table: TableModel { board: redflag_all(g.table.board), ..g.table }, ..g }
    } else {
        g
    }
}

/// What a left button on the board does (see `click_tbl_left`): from game `g0` and
/// settings `m0` to `g1` and `m1`, with result `r`.
pub open spec fn left_click(
    g0: GameModel,
    m0: MngModel<CBSetting>,
    left_on: bool,
    left_off_now: bool,
    g1: GameModel,
    m1: MngModel<CBSetting>,
    r: bool,
) -> bool {
    &&& g0.cursol.index == -1 || (g0.stat != GameStat::Playing && !(left_on && g0.stat
        == GameStat::Ready)) ==> !r && g1 == g0 && m1 == m0
    &&& g0.cursol.index != -1 && left_on && g0.stat == GameStat::Ready ==> {
        &&& r == (g0.bom_num <= crate::board::count_free(
            fresh_board(g0.width, g0.height),
            g0.cursol.x as int,
            g0.cursol.y as int,
        ))
        &&& !r ==> g1 == g0 && m1 == m0
        &&& r ==> g1 == (GameModel {
            stat: GameStat::Playing,
            death_cnt: 0,
            table: TableModel {
                board: g1.table.board,
                num_bom: g0.bom_num,
                history: seq![g1.table.board],
                useundo: 1,
                ..g0.table
            },
            ..g0
        })
        &&& r ==> first_board(
            g1.table.board,
            g0.width,
            g0.height,
            g0.bom_num,
            g0.cursol.x as int,
            g0.cursol.y as int,
            g0.cursol.index as int,
        )
        &&& r ==> m1 == (MngModel {
            boxes: lock_set(lock_set(m0.boxes, CBSetting::HideOn, true), CBSetting::HideNumOn, true),
            ..m0
        })
    }
    &&& g0.cursol.index != -1 && g0.stat == GameStat::Playing ==> {
        let a = g0.table.board;
        let b = g1.table.board;
        let c = g0.cursol.index as int;
        &&& m1 == m0
        &&& g1 == (GameModel { table: TableModel { board: b, ..g0.table }, ..g0 })
        &&& if left_off_now {
            exists|m: Seq<PanelModel>|
                #[trigger] chord_step(a, m, c) && open_step(m, b, c) && r == (chord_ok(a, c)
                    || can_open(m, c))
        } else if left_on && kind_flg(m0.boxes, CBSetting::DragOpen) {
            exists|m: Seq<PanelModel>|
                #[trigger] open_step(a, m, c) && chord_step(m, b, c) && r == (can_open(a, c)
                    || chord_ok(m, c))
        } else {
            !r && b == a
        }
    }
}

/// The cursor on cell `(x, y)` of a `width` x `height` board.
pub open spec fn cursor_at(x: i32, y: i32, width: int, height: int) -> MyCursol {
    MyCursol { x, y, index: spec_get_index(x as int, y as int, width, height) as i32 }
}

/// The game with the cursor on cell `(x, y)`.
pub open spec fn mousepos_model(g: GameModel, x: i32, y: i32) -> GameModel {
    let c = cursor_at(x, y, g.width, g.height);
    GameModel { cursol: c, table: TableModel { cursol: c, ..g.table }, ..g }
}

/// The game after a new board is laid out with the cursor on `(x, y)`.
pub open spec fn initial_model(g: GameModel, x: i32, y: i32) -> GameModel {
    let c = cursor_at(x, y, g.width, g.height);
    GameModel {
        stat: GameStat::Ready,
        death_cnt: 0,
        cursol: c,
        table: TableModel {
            width: g.width,
            height: g.height,
            num_bom: g.bom_num,
            cursol: c,
            board: fresh_board(g.width, g.height),
            history: Seq::empty(),
            useundo: 0,
        },
        ..g
    }
}

/// The settings with the hiding modes unlocked.
pub open spec fn unlocked(m: MngModel<CBSetting>) -> MngModel<CBSetting> {
    MngModel {
        boxes: lock_set(lock_set(m.boxes, CBSetting::HideOn, false), CBSetting::HideNumOn, false),
        ..m
    }
}

/// The game after the settings screen closed: without blue flags every blue flag goes.
pub open spec fn settings_closed_model(g: GameModel, m: MngModel<CBSetting>) -> GameModel {
    if kind_flg(m.boxes, CBSetting::UseBlueFlg) {
        g
    } else {
        GameModel { table: TableModel { board: blue_cleared(g.table.board), ..g.table }, ..g }
    }
}

/// The game after a right button on the board, and whether the board changed.
pub open spec fn right_click_model(
    g: GameModel,
    m: MngModel<CBSetting>,
    right_on: bool,
    right_on_now: bool,
) -> (GameModel, bool) {
    let c = g.cursol.index as int;
    if right_on && right_on_now && c != -1 && g.stat == GameStat::Playing && !g.table.board[c].is_open {
        (
            GameModel {
                table: TableModel {
                    board: g.table.board.update(
                        c,
                        PanelModel {
                            userflg: spec_next_userflg(
                                g.table.board[c].userflg,
                                kind_flg(m.boxes, CBSetting::UseBlueFlg),
                                kind_flg(m.boxes, CBSetting::BlueFlgFirst),
                            ),
                            ..g.table.board[c]
                        },
                    ),
                    ..g.table
                },
                ..g
            },
            true,
        )
    } else {
        (g, false)
    }
}

/// Whether the board's keys count as a change (see `keycontrol`).
pub open spec fn keys_changed(undo: bool, key_left: bool, key_right: bool, zoomed: bool, key_f: bool) -> bool {
    (!undo || (!key_left && !key_right)) && (zoomed || key_f)
}

/// The game after the cursor followed the mouse and the keys acted (a redo with an
/// empty history is left out).
pub open spec fn keys_phase(g2: GameModel, m2: MngModel<CBSetting>, ev: PlayEvent) -> GameModel {
    let g3 = mousepos_model(g2, ev.x, ev.y);
    if keys_redo_empty(g3, m2, ev) {
        g3
    } else {
        keys_model(g3, ev.key_left, ev.key_right, ev.key_f, m2)
    }
}

/// A redo with an empty history: the keys are left out.
pub open spec fn keys_redo_empty(g3: GameModel, m2: MngModel<CBSetting>, ev: PlayEvent) -> bool {
    kind_flg(m2.boxes, CBSetting::UndoFlg) && !ev.key_left && ev.key_right && g3.table.history.len() == 0
}

/// The board part of a frame of the game screen, from game `g` and settings `m`:
/// the cursor follows the mouse, the keys act, then the left and right buttons, then
/// a change by the buttons while playing records, wins, loses or reruns the assist
/// pass (what the keys change takes none of these steps). `open` says
/// whether the settings screen closed in this frame (which counts as a change and
/// forgets the mouse buttons).
pub open spec fn board_frame(
    g2: GameModel,
    m2: MngModel<CBSetting>,
    ev: PlayEvent,
    left_on: bool,
    left_off_now: bool,
    right_on: bool,
    right_on_now: bool,
    open: bool,
    g_out: GameModel,
    m_out: MngModel<CBSetting>,
    r: PlayOutcome,
) -> bool {
    let undo = kind_flg(m2.boxes, CBSetting::UndoFlg);
    exists|g5: GameModel, m5: MngModel<CBSetting>, rl: bool|
        #[trigger] left_click(keys_phase(g2, m2, ev), m2, left_on, left_off_now, g5, m5, rl) && board_tail(
            g5,
            m5,
            rl,
            right_on,
            right_on_now,
            open,
            open,
            !(undo && (ev.key_left || ev.key_right)),
            g_out,
            m_out,
            r,
        )
}

/// The end of the board part of a frame, after the left button gave game `g5`,
/// settings `m5` and change `rl`: the right button, then what a change does.
pub open spec fn board_tail(
    g5: GameModel,
    m5: MngModel<CBSetting>,
    rl: bool,
    right_on: bool,
    right_on_now: bool,
    changed: bool,
    open: bool,
    zoom: bool,
    g_out: GameModel,
    m_out: MngModel<CBSetting>,
    r: PlayOutcome,
) -> bool {
    let g6 = right_click_model(g5, m5, right_on, right_on_now).0;
    let rr = right_click_model(g5, m5, right_on, right_on_now).1;
    let g7 = after_update_model(g6, changed || rl || rr, m5).0;
    let c7 = after_update_model(g6, changed || rl || rr, m5).1;
    &&& g_out == g7
    &&& m_out == m5
    &&& r == (PlayOutcome {
        mode: GameMode::Game,
        clear_mouse: open || c7,
        reset: false,
        board: true,
        zoom,
    })
}

/// One frame of the game screen (see `playcontrol`): from game `g` and settings `m` to
/// `g_out` and `m_out`, with outcome `r`.
pub open spec fn play_frame(
    g: GameModel,
    m: MngModel<CBSetting>,
    ev: PlayEvent,
    over_game: Seq<bool>,
    over_setting: Seq<bool>,
    g_out: GameModel,
    m_out: MngModel<CBSetting>,
    r: PlayOutcome,
) -> bool {
    let open = !kind_flg(m.boxes, CBSetting::Close);
    let m1 = if open && ev.left_pressed {
        crate::setting::setting_clicked(m, over_setting)
    } else {
        m
    };
    if open && !kind_flg(m1.boxes, CBSetting::Close) {
        g_out == g && m_out == m1 && r == (PlayOutcome {
            mode: GameMode::Game,
            clear_mouse: false,
            reset: false,
            board: false,
            zoom: false,
        })
    } else {
        let g1 = if open {
            settings_closed_model(g, m1)
        } else {
            g
        };
        let left_on = !open && ev.left_on;
        let left_on_now = !open && ev.left_on_now;
        let left_off_now = !open && ev.left_off_now;
        let right_on = !open && ev.right_on;
        let right_on_now = !open && ev.right_on_now;
        if kind_flg(g1.boxes, CBGame::HowTo) {
            &&& g_out == if left_on_now {
                GameModel { boxes: set_flg_all(g1.boxes, CBGame::HowTo, false), ..g1 }
            } else {
                g1
            }
            &&& m_out == m1
            &&& r == (PlayOutcome {
                mode: GameMode::Game,
                clear_mouse: open || left_on_now,
                reset: false,
                board: false,
                zoom: false,
            })
        } else {
            let hit = left_on_now && any_clickable(g1.boxes, over_game);
            let i = first_click_index(g1.boxes, over_game);
            let boxes2 = if hit {
                clicked(g1.boxes, i)
            } else {
                g1.boxes
            };
            let m2 = if hit && g1.boxes[i].mytype == CBGame::Settings {
                MngModel { boxes: set_flg_all(m1.boxes, CBSetting::Close, false), ..m1 }
            } else {
                m1
            };
            let g2 = GameModel { boxes: boxes2, ..g1 };
            if kind_flg(boxes2, CBGame::Reset) {
                &&& g_out == initial_model(
                    GameModel { boxes: set_flg_all(boxes2, CBGame::Reset, false), ..g2 },
                    ev.x,
                    ev.y,
                )
                &&& m_out == unlocked(m2)
                &&& r == (PlayOutcome {
                    mode: GameMode::Game,
                    clear_mouse: open,
                    reset: true,
                    board: false,
                    zoom: false,
                })
            } else if kind_flg(boxes2, CBGame::Title) {
                &&& g_out == (GameModel { boxes: set_flg_all(boxes2, CBGame::Title, false), ..g2 })
                &&& m_out == unlocked(m2)
                &&& r == (PlayOutcome {
                    mode: GameMode::Title,
                    clear_mouse: open,
                    reset: false,
                    board: false,
                    zoom: false,
                })
            } else {
                board_frame(g2, m2, ev, left_on, left_off_now, right_on, right_on_now, open, g_out, m_out, r)
            }
        }
    }
}

/// A ready board's numbers are between 0 and 9.
pub proof fn lemma_ready_nums_bounded(b: Seq<crate::panel::PanelModel>, width: int, height: int)
    requires
        wf_board(b, width, height),
        consistent(b),
    ensures
        nums_bounded(b),
{
    assert forall|i: int| 0 <= i < b.len() implies 0 <= (#[trigger] b[i]).around_num <= 9 by {
        assert(wf_panel(b[i], i, width, height));
        lemma_count_where_le(b[i].around, |j: int| crate::board::valid_idx(b, j) && b[j].is_bom);
    }
}

/// No more panels are open than there are panels.
proof fn lemma_count_open_le(b: Seq<crate::panel::PanelModel>)
    ensures
        count_open(b) <= b.len(),
    decreases b.len(),
{
    if b.len() > 0 {
        lemma_count_open_le(b.drop_last());
    }
}

/// An open panel makes the count of open panels positive.
proof fn lemma_count_open_pos(b: Seq<PanelModel>, i: int)
    requires
        0 <= i < b.len(),
        b[i].is_open,
    ensures
        count_open(b) > 0,
    decreases b.len(),
{
    if i < b.len() - 1 {
        assert(b.drop_last()[i] == b[i]);
        lemma_count_open_pos(b.drop_last(), i);
    }
}

/// Unlocking the hiding modes before locking them again is the same as locking them.
proof fn lemma_locks_again(s: Seq<ChkModel<CBSetting>>)
    ensures
        lock_set(
            lock_set(
                lock_set(lock_set(s, CBSetting::HideOn, false), CBSetting::HideNumOn, false),
                CBSetting::HideOn,
                true,
            ),
            CBSetting::HideNumOn,
            true,
        ) == lock_set(lock_set(s, CBSetting::HideOn, true), CBSetting::HideNumOn, true),
{
    assert(lock_set(
        lock_set(
            lock_set(lock_set(s, CBSetting::HideOn, false), CBSetting::HideNumOn, false),
            CBSetting::HideOn,
            true,
        ),
        CBSetting::HideNumOn,
        true,
    ) =~= lock_set(lock_set(s, CBSetting::HideOn, true), CBSetting::HideNumOn, true));
}

/// The game screen: the board, its state, and the menu buttons.
pub struct GameMain {
    stat: GameStat,
    death_cnt: i32,
    width: i32,
    height: i32,
    bom_num: i32,
    table: GameTable,
    cursol: MyCursol,
    chkbox: ChkBoxMng<CBGame>,
}

impl View for GameMain {
    type V = GameModel;

    closed spec fn view(&self) -> GameModel {
        GameModel {
            stat: self.stat,
            death_cnt: self.death_cnt as int,
            width: self.width as int,
            height: self.height as int,
            bom_num: self.bom_num as int,
            table: self.table@,
            cursol: self.cursol,
            boxes: self.chkbox@.boxes,
        }
    }
}

impl GameMain {
    /// A game screen with an empty 0 x 0 board, waiting to start, and its menu buttons.
    pub fn new() -> (r: GameMain)
        ensures
            r@.inv(),
            r@.stat == GameStat::Ready,
            r@.death_cnt == 0,
            r@.width == 0 && r@.height == 0 && r@.bom_num == 0,
            r@.boxes.len() == 4,
            forall|i: int| 0 <= i < 4 ==> #[trigger] r@.boxes[i] == game_box(i),
    {
        let table = GameTable::new(0, 0, 0);
        let mut gm = GameMain {
            stat: GameStat::Ready,
            death_cnt: 0,
            width: 0,
            height: 0,
            bom_num: 0,
            cursol: MyCursol { x: 0, y: 0, index: 0 },
            table,
            chkbox: ChkBoxMng::new(),
        };
        proof {
            assert(gm@.table.board.len() == 0);
            assert(wf_board(gm@.table.board, 0, 0));
            assert(gm@.table.cursol == gm.cursol);
        }
        gm.cursol = gm.table.set_mousepos(-1, -1);
        gm.mk_chkbox();
        proof {
            assert(gm@.table.board =~= fresh_board(0, 0));
        }
        gm
    }

    fn mk_chkbox(&mut self)
        requires
            old(self)@.boxes.len() == 0,
        ensures
            final(self)@ == (GameModel { boxes: final(self)@.boxes, ..old(self)@ }),
            final(self)@.boxes.len() == 4,
            forall|i: int| 0 <= i < 4 ==> #[trigger] final(self)@.boxes[i] == game_box(i),
    {
        proof {
            reveal_strlit("FFFF77FF");
            reveal_strlit("77FFFFFF");
            reveal_strlit("FF7777FF");
            reveal_strlit("FFFFFFFF");
            reveal_strlit("");
        }
        self.chkbox.set_base("000000FF", "000077FF");
        self.chkbox.add(CBGame::Reset, "[RESET]".to_owned(), false, false);
        self.chkbox.set_col(CBGame::Reset, "FFFF77FF", "");
        self.chkbox.view_box(CBGame::Reset, false);
        self.chkbox.add(CBGame::Settings, "[SETTINGS]".to_owned(), false, false);
        self.chkbox.set_col(CBGame::Settings, "77FFFFFF", "");
        self.chkbox.view_box(CBGame::Settings, false);
        self.chkbox.add(CBGame::Title, "[TITLE]".to_owned(), false, false);
        self.chkbox.set_col(CBGame::Title, "FF7777FF", "");
        self.chkbox.view_box(CBGame::Title, false);
        self.chkbox.add(CBGame::HowTo, "[HOW TO]".to_owned(), false, false);
        self.chkbox.set_col(CBGame::HowTo, "FFFFFFFF", "");
        self.chkbox.view_box(CBGame::HowTo, false);
        self.chkbox.view_hitbox(false);
        proof {
            assert forall|i: int| 0 <= i < 4 implies #[trigger] self@.boxes[i] == game_box(i) by {}
        }
    }

    /// Sets the size of the board and the number of mines of the next game.
    pub fn set_gameinfo(&mut self, width: i32, height: i32, bom_num: i32)
        ensures
            final(self)@ == (GameModel {
                width: width as int,
                height: height as int,
                bom_num: bom_num as int,
                ..old(self)@
            }),
    {
        self.width = width;
        self.height = height;
        self.bom_num = bom_num;
    }

    /// Puts the cursor on cell `(x, y)` of the board (off the board is fine).
    pub fn set_mousepos(&mut self, x: i32, y: i32)
        requires
            old(self)@.inv(),
        ensures
            final(self)@.inv(),
            final(self)@ == mousepos_model(old(self)@, x, y),
    {
        self.cursol = self.table.set_mousepos(x, y);
        proof {
            if 0 <= x < self.width && 0 <= y < self.height {
                lemma_index_fits(x as int, y as int, self.width as int, self.height as int);
            }
        }
    }

    /// Lays out a new board of the game's size with the cursor on `(x, y)`, forgets the
    /// deaths, waits for the first click, and unlocks the hiding modes.
    pub fn initial_game(&mut self, setting: &mut GameSettings, x: i32, y: i32)
        requires
            0 <= old(self)@.width,
            0 <= old(self)@.height,
            old(self)@.width * old(self)@.height <= i32::MAX,
        ensures
            final(self)@.inv(),
            final(self)@ == initial_model(old(self)@, x, y),
            final(setting)@ == unlocked(old(setting)@),
    {
        self.table = GameTable::new(self.width, self.height, self.bom_num);
        self.table.initial();
        self.cursol = self.table.set_mousepos(x, y);
        proof {
            if 0 <= x < self.width && 0 <= y < self.height {
                lemma_index_fits(x as int, y as int, self.width as int, self.height as int);
            }
        }
        self.death_cnt = 0;
        self.stat = GameStat::Ready;
        setting.set_playing_flg(false);
    }

    /// The assist pass on the board (see `assisted`), with the settings' flags.
    pub fn assist(&mut self, setting: &GameSettings)
        requires
            old(self)@.base_inv(),
        ensures
            final(self)@.base_inv(),
            final(self)@ == (GameModel {
                table: TableModel { board: assisted(old(self)@.table.board, setting@), ..old(self)@.table },
                ..old(self)@
            }),
    {
        let bold_flg = setting.get_flg(CBSetting::BoldFlg);
        let inference_flg = setting.get_flg(CBSetting::Inference);
        if !bold_flg && !inference_flg {
            self.table.assist_clear();
            return;
        }
        let ghost b = self@.table.board;
        proof {
            lemma_ready_nums_bounded(b, self.width as int, self.height as int);
        }
        let edit_table = self.table.tbl_backup();
        let mut inftbl = InfTable::new(edit_table, self.width, self.height);
        if bold_flg {
            let safe_on = setting.get_flg(CBSetting::BoldSafeOn);
            inftbl.set_bold(safe_on);
            proof {
                assert(same_shape(b, bold_result(b, safe_on)));
                lemma_same_shape(b, bold_result(b, safe_on), self.width as int, self.height as int);
            }
        } else {
            let safe_on = setting.get_flg(CBSetting::SafeOn);
            let dang_on = setting.get_flg(CBSetting::DangOn);
            let believe_flg = setting.get_flg(CBSetting::BelieveFlag);
            inftbl.inference(safe_on, dang_on, believe_flg);
            proof {
                lemma_inference_shape(b, false, believe_flg);
                lemma_same_shape(b, inference_result(b, false, believe_flg), self.width as int, self.height as int);
            }
        }
        let edit_table = inftbl.get_table();
        self.table.tbl_restore(edit_table);
    }

    /// What a frame that changed the board does after it (see `after_update_model`).
    /// Returns whether the mouse buttons are to be forgotten.
    pub fn after_update(&mut self, is_update: bool, setting: &GameSettings) -> (r: bool)
        requires
            old(self)@.inv(),
            old(self)@.death_cnt < i32::MAX,
        ensures
            final(self)@.inv(),
            (final(self)@, r) == after_update_model(old(self)@, is_update, setting@),
    {
        if !is_update || self.stat != GameStat::Playing {
            return false;
        }
        self.table.undo_push();
        let mut clear = false;
        let opennum = self.table.get_opennum();
        proof {
            lemma_count_open_le(self@.table.board);
        }
        let close_num: i64 = self.width as i64 * self.height as i64 - self.bom_num as i64 - opennum as i64;
        if close_num == 0 {
            self.stat = GameStat::Success;
            clear = true;
        }
        if self.table.open_bomnum() > 0 {
            self.stat = GameStat::Failed;
            clear = true;
            self.death_cnt += 1;
        } else {
            self.assist(setting);
        }
        clear
    }

    /// Right click on the board while playing, when the button has just gone down: the
    /// closed panel under the cursor moves to its next flag (blue flags and their order
    /// as the settings say). Returns whether the board changed.
    pub fn click_tbl_right(&mut self, right_on: bool, right_on_now: bool, setting: &GameSettings) -> (r: bool)
        requires
            old(self)@.inv(),
        ensures
            final(self)@.inv(),
            (final(self)@, r) == right_click_model(old(self)@, setting@, right_on, right_on_now),
    {
        if !right_on || self.cursol.index == -1 || self.stat != GameStat::Playing {
            return false;
        }
        if right_on_now {
            let use_blue = setting.get_flg(CBSetting::UseBlueFlg);
            let blue_first = setting.get_flg(CBSetting::BlueFlgFirst);
            self.table.click_right(use_blue, blue_first)
        } else {
            false
        }
    }

    /// Left button on the board while playing: a release chords then opens the panel
    /// under the cursor; with drag opening, a held button opens then chords. Returns
    /// whether the board changed.
    fn click_play_left(&mut self, left_on: bool, left_off_now: bool, drag_open: bool) -> (r: bool)
        requires
            old(self)@.inv(),
            old(self)@.stat == GameStat::Playing,
        ensures
            final(self)@.inv(),
            final(self)@ == (GameModel {
                table: TableModel { board: final(self)@.table.board, ..old(self)@.table },
                ..old(self)@
            }),
            ({
                let a = old(self)@.table.board;
                let b = final(self)@.table.board;
                let c = old(self)@.cursol.index as int;
                if left_off_now {
                    exists|m: Seq<PanelModel>|
                        #[trigger] chord_step(a, m, c) && open_step(m, b, c) && r == (chord_ok(a, c)
                            || can_open(m, c))
                } else if left_on && drag_open {
                    exists|m: Seq<PanelModel>|
                        #[trigger] open_step(a, m, c) && chord_step(m, b, c) && r == (can_open(a, c)
                            || chord_ok(m, c))
                } else {
                    !r && b == a
                }
            }),
    {
        let ghost a = self@.table.board;
        let ghost c = self.cursol.index as int;
        if left_off_now {
            let r1 = self.table.clickoff_left();
            let ghost m = self@.table.board;
            let r2 = self.table.click_left();
            proof {
                assert(chord_step(a, m, c));
            }
            r1 || r2
        } else if left_on && drag_open {
            let r1 = self.table.click_left();
            let ghost m = self@.table.board;
            let r2 = self.table.clickoff_left();
            proof {
                assert(open_step(a, m, c));
            }
            r1 || r2
        } else {
            false
        }
    }

    /// Starts the game from the cursor cell of the fresh board, when it has room for
    /// the mines: up to a hundred times, the mines go at random off the cursor cell and
    /// the cursor cell opens; the first board that opens at least a twentieth of the
    /// panels is kept, else the one that opened most. The game then plays and the
    /// hiding modes lock.
    fn start_game(&mut self, setting: &mut GameSettings) -> (r: bool)
        requires
            old(self)@.inv(),
            old(self)@.stat == GameStat::Ready,
            old(self)@.cursol.index != -1,
        ensures
            final(self)@.inv(),
            r == (old(self)@.bom_num <= crate::board::count_free(
                fresh_board(old(self)@.width, old(self)@.height),
                old(self)@.cursol.x as int,
                old(self)@.cursol.y as int,
            )),
            !r ==> final(self)@ == old(self)@ && final(setting)@ == old(setting)@,
            r ==> final(self)@ == (GameModel {
                stat: GameStat::Playing,
                death_cnt: 0,
                table: TableModel {
                    board: final(self)@.table.board,
                    num_bom: old(self)@.bom_num,
                    history: seq![final(self)@.table.board],
                    useundo: 1,
                    ..old(self)@.table
                },
                ..old(self)@
            }),
            r ==> first_board(
                final(self)@.table.board,
                old(self)@.width,
                old(self)@.height,
                old(self)@.bom_num,
                old(self)@.cursol.x as int,
                old(self)@.cursol.y as int,
                old(self)@.cursol.index as int,
            ),
            r ==> final(setting)@ == (MngModel {
                boxes: lock_set(lock_set(old(setting)@.boxes, CBSetting::HideOn, true), CBSetting::HideNumOn, true),
                ..old(setting)@
            }),
    {
        let ghost g0 = self@;
        let ghost m0 = setting@;
        let ghost w = g0.width;
        let ghost h = g0.height;
        let ghost fresh = fresh_board(w, h);
        let ghost c = g0.cursol.index as int;
        let ghost x = g0.cursol.x as int;
        let ghost y = g0.cursol.y as int;
        let free = self.table.get_freenum();
        proof {
            lemma_count_open_le(fresh);
        }
        if self.bom_num as i64 > free as i64 {
            return false;
        }
        let target: i64 = self.width as i64 * self.height as i64 * 5 / 100;
        let mut max: usize = 0;
        let mut backup: Option<Vec<crate::panel::Panel>> = None;
        let mut n: usize = 0;
        let ghost mut tries: Seq<Seq<PanelModel>> = Seq::empty();
        let ghost mut kb: int = 0;
        proof {
            crate::board::lemma_count_panels_none(fresh, |p: PanelModel| p.is_bom);
            assert(0 <= x < w && 0 <= y < h);
            crate::board::lemma_index_coords(x, y, w, h);
        }
        while n < 100
            invariant_except_break
                self@ == (GameModel { table: self@.table, ..g0 }),
                n > 0 ==> self@.table.num_bom == g0.bom_num,
                self@.table.board == fresh,
                self@.table.history.len() == 0,
                self@.table.useundo == 0,
                self@.table.inv(),
                self@.table.ready(),
                self@.table.cursor_ok(),
                n > 0 ==> count_open(tries[n - 1]) < target,
            invariant
                0 <= n <= 100,
                target == open_target(w, h),
                tries.len() == n,
                forall|k: int| 0 <= k < n ==> first_try(#[trigger] tries[k], w, h, g0.bom_num, x, y, c),
                forall|k: int| 0 <= k < n - 1 ==> count_open(#[trigger] tries[k]) < target,
                w == g0.width && h == g0.height,
                self@.table.width == w && self@.table.height == h,
                self@.table.cursol == g0.cursol,
                g0.inv(),
                g0.stat == GameStat::Ready,
                fresh == fresh_board(w, h),
                c == g0.cursol.index,
                x == g0.cursol.x && y == g0.cursol.y,
                0 <= x < w && 0 <= y < h,
                c == y * w + x,
                c % w == x && c / w == y,
                0 <= c < w * h,
                crate::board::count_bombs(fresh) == 0,
                g0.bom_num <= crate::board::count_free(fresh, x, y),
                setting@ == m0 || setting@ == (MngModel {
                    boxes: lock_set(lock_set(m0.boxes, CBSetting::HideOn, false), CBSetting::HideNumOn, false),
                    ..m0
                }),
                n > 0 ==> backup is Some,
                backup is None ==> max == 0,
                backup matches Some(v) ==> wf_board(crate::gametable::board_view(v@), w, h) && consistent(
                    crate::gametable::board_view(v@),
                ) && 0 <= kb < n && crate::gametable::board_view(v@) == tries[kb] && max == count_open(
                    tries[kb],
                ) && (forall|j: int| 0 <= j < kb ==> count_open(#[trigger] tries[j]) < max) && (forall|j: int|
                    0 <= j < n ==> count_open(#[trigger] tries[j]) <= max),
            ensures
                n > 0,
                n == 100 || count_open(tries[n - 1]) >= target,
                backup is Some,
                self@ == (GameModel { table: self@.table, ..g0 }),
                self@.table.inv(),
                self@.table.history.len() == 0,
                self@.table.useundo == 0,
                self@.table.num_bom == g0.bom_num,
            decreases 100 - n,
        {
            self.table.setting_bom(self.bom_num);
            let ghost bb = self@.table.board;
            proof {
                assert(!bb[c].is_bom) by {
                    assert(crate::board::wf_panel(fresh[c], c, w, h));
                }
                assert(bb[c].is_open == fresh[c].is_open);
                assert(bb[c].userflg == fresh[c].userflg);
            }
            self.table.click_left();
            let opennum = self.table.get_opennum();
            proof {
                let b = self@.table.board;
                assert(set![c].contains(c));
                let ord = choose|ord: Seq<int>| crate::chain::chain_core(bb, b, set![c], ord);
                assert(b[c].is_open);
                lemma_count_open_pos(b, c);
                lemma_count_open_le(b);
                assert(first_try(b, w, h, g0.bom_num, x, y, c));
                tries = tries.push(b);
            }
            if max < opennum {
                max = opennum;
                backup = Some(self.table.tbl_backup());
                proof {
                    kb = n as int;
                }
            }
            n += 1;
            if target <= opennum as i64 {
                break;
            }
            self.initial_game(setting, self.cursol.x, self.cursol.y);
            proof {
                let l = lock_set(lock_set(m0.boxes, CBSetting::HideOn, false), CBSetting::HideNumOn, false);
                assert(lock_set(lock_set(l, CBSetting::HideOn, false), CBSetting::HideNumOn, false) =~= l);
            }
        }
        match backup {
            Some(v) => {
                self.table.tbl_restore(v);
            },
            None => {},
        }
        proof {
            assert(first_tries(tries, w, h, g0.bom_num, x, y, c));
            assert(best_try(tries, self@.table.board));
        }
        self.table.undo_push();
        self.stat = GameStat::Playing;
        setting.set_playing_flg(true);
        proof {
            lemma_locks_again(m0.boxes);
            assert(self@.table.history =~= seq![self@.table.board]);
        }
        true
    }

    /// Left button on the board: before the first click, a held button on the board
    /// starts the game (see `start_game`); while playing, see `click_play_left` (drag
    /// opening as the settings say). Returns whether the board changed.
    pub fn click_tbl_left(&mut self, left_on: bool, left_off_now: bool, setting: &mut GameSettings) -> (r: bool)
        requires
            old(self)@.inv(),
        ensures
            final(self)@.inv(),
            left_click(old(self)@, old(setting)@, left_on, left_off_now, final(self)@, final(setting)@, r),
    {
        if self.cursol.index == -1 {
            return false;
        }
        if left_on && self.stat == GameStat::Ready {
            return self.start_game(setting);
        }
        if self.stat != GameStat::Playing {
            return false;
        }
        let drag_open = setting.get_flg(CBSetting::DragOpen);
        self.click_play_left(left_on, left_off_now, drag_open)
    }

    /// The keys of the board: with undo on, left undoes (one more step when the board
    /// is the newest entry of the history), reruns the assist pass and plays again;
    /// right redoes and reruns the assist pass. Otherwise a zoom counts as a change and
    /// F flags every panel marked dangerous. Returns whether the board is to be
    /// treated as changed.
    pub fn keycontrol(
        &mut self,
        key_left: bool,
        key_right: bool,
        zoomed: bool,
        key_f: bool,
        setting: &GameSettings,
    ) -> (r: bool)
        requires
            old(self)@.inv(),
            kind_flg(setting@.boxes, CBSetting::UndoFlg) && !key_left && key_right
                ==> old(self)@.table.history.len() > 0,
        ensures
            final(self)@.inv(),
            final(self)@ == keys_model(old(self)@, key_left, key_right, key_f, setting@),
            r == keys_changed(kind_flg(setting@.boxes, CBSetting::UndoFlg), key_left, key_right, zoomed, key_f),
    {
        if setting.get_flg(CBSetting::UndoFlg) {
            if key_left {
                if !self.table.is_useundo() {
                    self.table.table_undo();
                }
                self.table.table_undo();
                self.assist(setting);
                self.stat = GameStat::Playing;
                return false;
            }
            if key_right {
                self.table.table_redo();
                self.assist(setting);
                return false;
            }
        }
        let mut is_update = zoomed;
        if key_f {
            proof {
                if self.stat == GameStat::Ready {
                    assert(redflag_all(self@.table.board) =~= self@.table.board);
                }
            }
            self.table.set_all_redflag();
            is_update = true;
        }
        is_update
    }

    /// After the settings screen closed: without blue flags, every blue flag goes.
    pub fn settings_closed(&mut self, setting: &GameSettings)
        requires
            old(self)@.inv(),
        ensures
            final(self)@.inv(),
            final(self)@ == settings_closed_model(old(self)@, setting@),
    {
        if !setting.get_flg(CBSetting::UseBlueFlg) {
            proof {
                if self.stat == GameStat::Ready {
                    assert(blue_cleared(self@.table.board) =~= self@.table.board);
                }
            }
            self.table.clear_blue_flag();
        }
    }

    /// One frame of the game screen: while the settings screen is open only it takes
    /// the click (when it closes, blue flags go if unused and the click is forgotten);
    /// the help screen closes on a click; the menu buttons act (settings opens its
    /// screen, reset lays out a new board, title goes back); then the cursor moves,
    /// the keys and the clicks act on the board, and a change while playing records,
    /// wins, loses or reruns the assist pass.
    #[verifier::spinoff_prover]
    #[verifier::rlimit(60)]
    pub fn playcontrol(
        &mut self,
        setting: &mut GameSettings,
        ev: &PlayEvent,
        over_game: &Vec<bool>,
        over_setting: &Vec<bool>,
    ) -> (r: PlayOutcome)
        requires
            old(self)@.inv(),
            old(self)@.death_cnt < i32::MAX,
            over_game@.len() == old(self)@.boxes.len(),
            over_setting@.len() == old(setting)@.boxes.len(),
        ensures
            final(self)@.inv(),
            play_frame(
                old(self)@,
                old(setting)@,
                *ev,
                over_game@,
                over_setting@,
                final(self)@,
                final(setting)@,
                r,
            ),
            r.mode == GameMode::Game || r.mode == GameMode::Title,
            r.zoom ==> r.board,
            r.board ==> r.mode == GameMode::Game && !r.reset,
            r.reset ==> r.mode == GameMode::Game && final(self)@.stat == GameStat::Ready
                && final(self)@.table.board == fresh_board(old(self)@.width, old(self)@.height),
            r.mode == GameMode::Title ==> final(self)@.stat == old(self)@.stat && (final(self)@.table
                == old(self)@.table || final(self)@.table == (TableModel {
                board: blue_cleared(old(self)@.table.board),
                ..old(self)@.table
            })),
            !kind_flg(old(setting)@.boxes, CBSetting::Close) && !kind_flg(
                final(setting)@.boxes,
                CBSetting::Close,
            ) ==> final(self)@ == old(self)@ && r.mode == GameMode::Game && !r.clear_mouse && !r.reset,
    {
        let mut left_on = ev.left_on;
        let mut left_on_now = ev.left_on_now;
        let mut left_off_now = ev.left_off_now;
        let mut right_on = ev.right_on;
        let mut right_on_now = ev.right_on_now;
        let mut is_update = false;
        let mut clear = false;
        let ghost g0 = self@;
        let ghost m0 = setting@;
        let ghost open = !kind_flg(m0.boxes, CBSetting::Close);
        if setting.is_open() {
            if ev.left_pressed {
                setting.click(over_setting);
            }
            if setting.is_open() {
                return PlayOutcome { mode: GameMode::Game, clear_mouse: false, reset: false, board: false, zoom: false };
            }
            self.settings_closed(setting);
            clear = true;
            left_on = false;
            left_on_now = false;
            left_off_now = false;
            right_on = false;
            right_on_now = false;
            is_update = true;
        }
        let ghost g1 = self@;
        let ghost m1 = setting@;
        proof {
            assert(m1 == if open && ev.left_pressed {
                crate::setting::setting_clicked(m0, over_setting@)
            } else {
                m0
            });
            assert(g1 == if open {
                settings_closed_model(g0, m1)
            } else {
                g0
            });
            assert(left_on == (!open && ev.left_on));
            assert(left_off_now == (!open && ev.left_off_now));
            assert(left_on_now == (!open && ev.left_on_now));
            assert(right_on == (!open && ev.right_on));
            assert(right_on_now == (!open && ev.right_on_now));
            assert(is_update == open);
            assert(clear == open);
        }
        if self.chkbox.get_flg(CBGame::HowTo) {
            if left_on_now {
                self.chkbox.set_flg(CBGame::HowTo, false);
                clear = true;
            }
            return PlayOutcome { mode: GameMode::Game, clear_mouse: clear, reset: false, board: false, zoom: false };
        }
        if left_on_now {
            match self.chkbox.click(over_game) {
                Some((kind, _flg)) => {
                    if kind == CBGame::Settings {
                        setting.open();
                    }
                },
                None => {},
            }
        }
        let ghost g2 = self@;
        let ghost m2b = setting@;
        proof {
            let hit = left_on_now && any_clickable(g1.boxes, over_game@);
            let i = first_click_index(g1.boxes, over_game@);
            assert(g2.boxes == if hit {
                clicked(g1.boxes, i)
            } else {
                g1.boxes
            });
            assert(g2 == (GameModel { boxes: g2.boxes, ..g1 }));
            assert(m2b == if hit && g1.boxes[i].mytype == CBGame::Settings {
                MngModel { boxes: set_flg_all(m1.boxes, CBSetting::Close, false), ..m1 }
            } else {
                m1
            });
        }
        if self.chkbox.get_flg(CBGame::Reset) {
            self.chkbox.set_flg(CBGame::Reset, false);
            let ghost m1 = setting@;
            self.initial_game(setting, ev.x, ev.y);
            proof {
                crate::chkboxmng::lemma_kind_flg_same(m1.boxes, setting@.boxes, CBSetting::Close);
            }
            return PlayOutcome { mode: GameMode::Game, clear_mouse: clear, reset: true, board: false, zoom: false };
        }
        if self.chkbox.get_flg(CBGame::Title) {
            self.chkbox.set_flg(CBGame::Title, false);
            let ghost m1 = setting@;
            setting.set_playing_flg(false);
            proof {
                crate::chkboxmng::lemma_kind_flg_same(m1.boxes, setting@.boxes, CBSetting::Close);
            }
            return PlayOutcome { mode: GameMode::Title, clear_mouse: clear, reset: false, board: false, zoom: false };
        }
        proof {
            assert(is_update == open && clear == open);
        }
        self.board_phase(setting, ev, left_on, left_off_now, right_on, right_on_now, clear)
    }

    /// The board part of a frame (see `board_frame`).
    fn board_phase(
        &mut self,
        setting: &mut GameSettings,
        ev: &PlayEvent,
        left_on: bool,
        left_off_now: bool,
        right_on: bool,
        right_on_now: bool,
        open: bool,
    ) -> (r: PlayOutcome)
        requires
            old(self)@.inv(),
            old(self)@.death_cnt < i32::MAX,
        ensures
            final(self)@.inv(),
            board_frame(
                old(self)@,
                old(setting)@,
                *ev,
                left_on,
                left_off_now,
                right_on,
                right_on_now,
                open,
                final(self)@,
                final(setting)@,
                r,
            ),
    {
        let ghost g2 = self@;
        let mut is_update = open;
        let mut clear = open;
        self.set_mousepos(ev.x, ev.y);
        let ghost g3 = self@;
        let undo = setting.get_flg(CBSetting::UndoFlg);
        let zoom = !(undo && (ev.key_left || ev.key_right));
        let redo_empty = undo && !ev.key_left && ev.key_right && self.table.history_len() == 0;
        if !redo_empty {
            // what the keys changed is shown but takes no undo step and no check
            let _ = self.keycontrol(ev.key_left, ev.key_right, ev.zoomed, ev.key_f, setting);
        }
        let ghost g4 = self@;
        let ghost m2 = setting@;
        proof {
            assert(g4 == if redo_empty {
                g3
            } else {
                keys_model(g3, ev.key_left, ev.key_right, ev.key_f, m2)
            });
            assert(is_update == open);
        }
        let l = self.click_tbl_left(left_on, left_off_now, setting);
        let ghost g5 = self@;
        let ghost m5 = setting@;
        is_update = is_update || l;
        let rr = self.click_tbl_right(right_on, right_on_now, setting);
        let ghost g6 = self@;
        is_update = is_update || rr;
        let c7 = self.after_update(is_update, setting);
        if c7 {
            clear = true;
        }
        proof {
            assert(left_click(g4, m2, left_on, left_off_now, g5, m5, l));
            assert(g6 == right_click_model(g5, m5, right_on, right_on_now).0);
            assert(rr == right_click_model(g5, m5, right_on, right_on_now).1);
            assert(is_update == (open || l || rr));
            assert(g4 == keys_phase(old(self)@, old(setting)@, *ev));
            assert(left_click(keys_phase(old(self)@, old(setting)@, *ev), old(setting)@, left_on, left_off_now, g5, m5, l));
            assert(board_tail(
                g5,
                m5,
                l,
                right_on,
                right_on_now,
                open,
                open,
                zoom,
                self@,
                setting@,
                PlayOutcome { mode: GameMode::Game, clear_mouse: clear, reset: false, board: true, zoom },
            ));
            assert(g3 == mousepos_model(g2, ev.x, ev.y));
        }
        PlayOutcome { mode: GameMode::Game, clear_mouse: clear, reset: false, board: true, zoom }
    }

    /// The state of the game.
    pub fn get_stat(&self) -> (r: GameStat)
        ensures
            r == self@.stat,
    {
        self.stat
    }

    /// How many times the player opened a mine since the board was laid out.
    pub fn get_death_cnt(&self) -> (r: i32)
        ensures
            r == self@.death_cnt,
    {
        self.death_cnt
    }

    /// The board's width, height and number of mines.
    pub fn get_gameinfo(&self) -> (r: (i32, i32, i32))
        ensures
            r.0 == self@.width && r.1 == self@.height && r.2 == self@.bom_num,
    {
        (self.width, self.height, self.bom_num)
    }

    /// The cursor.
    pub fn get_cursol(&self) -> (r: MyCursol)
        ensures
            r == self@.cursol,
    {
        self.cursol
    }

    /// The game table.
    pub fn table(&self) -> (r: &GameTable)
        ensures
            r@ == self@.table,
    {
        &self.table
    }

    /// The menu buttons.
    pub fn chkbox(&self) -> (r: &ChkBoxMng<CBGame>)
        ensures
            r@.boxes == self@.boxes,
    {
        &self.chkbox
    }
}

} // verus!
