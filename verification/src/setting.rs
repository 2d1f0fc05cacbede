use vstd::prelude::*;
use crate::myconst::CBSetting;
use crate::chkbox::ChkModel;
use crate::chkboxmng::{
    ChkBoxMng,
    MngModel,
    set_flg_all,
    lock_set,
    kind_flg,
    clicked,
    any_clickable,
    first_of_kind,
    first_click_index,
    lemma_set_flg_upto_shape,
    lemma_set_flg_upto_other,
    lemma_kind_flg_same,
    lemma_set_flg_upto_own,
    lemma_first_click_exists,
};

verus! {

/// The settings screen's boxes in the order they are made: kind, parent, initial
/// check and whether the box starts enabled.
pub open spec fn setting_layout() -> Seq<(CBSetting, Option<CBSetting>, bool, bool)> {
    seq![
        (CBSetting::CursolFlg, None, false, true),
        (CBSetting::DragOpen, None, false, true),
        (CBSetting::UseBlueFlg, None, false, true),
        (CBSetting::HideOn, None, false, true),
        (CBSetting::HideNumOn, None, false, true),
        (CBSetting::BoldFlg, None, false, true),
        (CBSetting::Inference, None, false, true),
        (CBSetting::UndoFlg, None, false, true),
        (CBSetting::DispAll, None, false, false),
        (CBSetting::Close, None, true, true),
        (CBSetting::BlueFlgFirst, Some(CBSetting::UseBlueFlg), false, false),
        (CBSetting::BoldSafeOn, Some(CBSetting::BoldFlg), false, false),
        (CBSetting::SafeOn, Some(CBSetting::Inference), false, false),
        (CBSetting::DangOn, Some(CBSetting::Inference), true, false),
        (CBSetting::BelieveFlag, Some(CBSetting::Inference), false, false),
        (CBSetting::HideLv1, Some(CBSetting::HideOn), true, false),
        (CBSetting::HideLv2, Some(CBSetting::HideOn), false, false),
        (CBSetting::HideLv3, Some(CBSetting::HideOn), false, false),
        (CBSetting::HideNumLv1, Some(CBSetting::HideNumOn), true, false),
        (CBSetting::HideNumLv2, Some(CBSetting::HideNumOn), false, false),
        (CBSetting::HideNumLv3, Some(CBSetting::HideNumOn), false, false),
    ]
}

/// The text shown by each box of the settings screen, in layout order.
pub open spec fn setting_texts() -> Seq<Seq<char>> {
    seq![
        "CURSOL FLAME"@,
        "DRAG OPEN"@,
        "USE BLUEFLAG"@,
        "HIDE BORD"@,
        "HIDE NUMBER"@,
        "USE BOLD"@,
        "USE INFERENCE"@,
        "USE UNDO"@,
        "All DISPLAY"@,
        "[CLOSE]"@,
        "BLUEFLAG FIRST"@,
        "SAFETY ON"@,
        "SAFETY ON"@,
        "DANGER ON"@,
        "BELEVE FLAG"@,
        "LEVEL1"@,
        "LEVEL2"@,
        "LEVEL3"@,
        "LEVEL1"@,
        "LEVEL2"@,
        "LEVEL3"@,
    ]
}

/// The help text of each kind of box of the settings screen (none for the close button).
pub open spec fn setting_help(t: CBSetting) -> Seq<char> {
    match t {
        CBSetting::CursolFlg => "[CURSOL FLAME]\n３×３のカーソルを表示します。"@,
        CBSetting::DragOpen => "[DRAG OPEN]\n押しっぱなしでまとめてパネルを開きます。"@,
        CBSetting::UseBlueFlg => "[USE BLUEFLAG]\n「青色の旗」を使用します、赤色の旗と区別したい場合に使用してください。"@,
        CBSetting::BlueFlgFirst => "[BLUEFLAG FIRST]\n旗を立てる順番を「青→赤→なし」へ変更します。"@,
        CBSetting::HideOn => "[HIDE BORD]（アシスト使用不可）\nマウスの周囲だけ盤面を表示します。※タイマー起動中は変更できません。"@,
        CBSetting::HideLv1 => "[LEVEL1]\n周囲５×５まで表示します。"@,
        CBSetting::HideLv2 => "[LEVEL2]\n周囲３×３まで表示します。"@,
        CBSetting::HideLv3 => "[LEVEL3]\nマウス位置以外は表示されません"@,
        CBSetting::HideNumOn => "[HIDE NUMBER]（アシスト使用不可）\nマウスの周囲だけ数字を表示します。※タイマー起動中は変更できません。"@,
        CBSetting::HideNumLv1 => "[LEVEL1]\n周囲５×５まで表示します。"@,
        CBSetting::HideNumLv2 => "[LEVEL2]\n周囲３×３まで表示します。"@,
        CBSetting::HideNumLv3 => "[LEVEL3]\nマウス位置以外は表示されません"@,
        CBSetting::BoldFlg => "[USE BOLD] ※初心者にお勧め\n「数字」と「周りの未開封パネル数」が一致していると強調表示されます。\n（正しく旗を立てると強調表示は消えます）"@,
        CBSetting::BoldSafeOn => "[SAFETY ON]\n旗の周囲の安全パネルを表示します。"@,
        CBSetting::Inference => "[USE INFERENCE]\n見えている数字から、危険／安全パネルを推測します。"@,
        CBSetting::SafeOn => "[SAFETY ON]\n推論で安全パネルを表示します。"@,
        CBSetting::DangOn => "[DANGER ON]\n推論で危険パネルを表示します。"@,
        CBSetting::BelieveFlag => "[BELIEVE FLAG]\nあなたの立てた旗を信じて推論します。"@,
        CBSetting::UndoFlg => "[USE UNDO]\nUNDO（やり直し）を有効にします。"@,
        CBSetting::DispAll => "[ALL DISPLAY]\n盤面全体に危険／安全パネルを表示します。\n（デフォルトはマウスの隣接のみ表示）"@,
        CBSetting::Close => Seq::empty(),
    }
}

/// Box `i` of the settings screen as made, before its help text and the hiding of
/// the show-everything box: enabled when it has no parent.
pub open spec fn made_box(i: int) -> ChkModel<CBSetting> {
    let l = setting_layout()[i];
    ChkModel {
        is_active: l.1 is None,
        is_lock: false,
        mytype: l.0,
        parent: l.1,
        text: setting_texts()[i],
        flg: l.2,
        fgcol: if l.0 == CBSetting::Close {
            "3333FFFF"@
        } else {
            "000000FF"@
        },
        bgcol: "FFFFFFFF"@,
        is_absolute: l.0 == CBSetting::HideOn || l.0 == CBSetting::BoldFlg || l.0 == CBSetting::Close,
        viewbox: l.0 != CBSetting::Close,
        hitbox: false,
        help_txt: Seq::empty(),
    }
}

/// Box `i` of a new settings screen.
pub open spec fn setting_box(i: int) -> ChkModel<CBSetting> {
    ChkModel {
        is_active: setting_layout()[i].3,
        help_txt: setting_help(setting_layout()[i].0),
        ..made_box(i)
    }
}

/// The hiding level that three level boxes choose: the third wins, then the first,
/// then the second; 0 when none is checked.
pub open spec fn level_of(s: Seq<ChkModel<CBSetting>>, l1: CBSetting, l2: CBSetting, l3: CBSetting) -> int {
    if kind_flg(s, l3) {
        3
    } else if kind_flg(s, l1) {
        1
    } else if kind_flg(s, l2) {
        2
    } else {
        0
    }
}

/// The group of three levels of a level box, and the position of the box in it.
pub open spec fn level_group(t: CBSetting) -> ((CBSetting, CBSetting, CBSetting), int) {
    let hide = (CBSetting::HideLv1, CBSetting::HideLv2, CBSetting::HideLv3);
    let num = (CBSetting::HideNumLv1, CBSetting::HideNumLv2, CBSetting::HideNumLv3);
    match t {
        CBSetting::HideLv1 => (hide, 0),
        CBSetting::HideLv2 => (hide, 1),
        CBSetting::HideLv3 => (hide, 2),
        CBSetting::HideNumLv1 => (num, 0),
        CBSetting::HideNumLv2 => (num, 1),
        _ => (num, 2),
    }
}

/// Checks the level at position `on` of group `g` and unchecks the two others, in the
/// order of the group.
pub open spec fn pick_level(
    s: Seq<ChkModel<CBSetting>>,
    g: (CBSetting, CBSetting, CBSetting),
    on: int,
) -> Seq<ChkModel<CBSetting>> {
    set_flg_all(set_flg_all(set_flg_all(s, g.0, on == 0), g.1, on == 1), g.2, on == 2)
}

/// What the settings screen does after box `kind` turned to `flg`, before the locks:
/// emphasis and inference exclude each other and turn the cursor frame on; showing
/// every mark turns both kinds of marks on; the two hiding modes exclude each other;
/// each group of levels keeps one level checked.
pub open spec fn setting_rules_kind(s: Seq<ChkModel<CBSetting>>, kind: CBSetting, flg: bool) -> Seq<
    ChkModel<CBSetting>,
> {
    match kind {
        CBSetting::BoldFlg => if flg {
            set_flg_all(set_flg_all(s, CBSetting::CursolFlg, true), CBSetting::Inference, false)
        } else {
            s
        },
        CBSetting::Inference => if flg {
            set_flg_all(set_flg_all(s, CBSetting::CursolFlg, true), CBSetting::BoldFlg, false)
        } else {
            s
        },
        CBSetting::DispAll => if flg {
            set_flg_all(set_flg_all(s, CBSetting::SafeOn, true), CBSetting::DangOn, true)
        } else {
            s
        },
        CBSetting::HideOn => set_flg_all(s, CBSetting::HideNumOn, false),
        CBSetting::HideNumOn => set_flg_all(s, CBSetting::HideOn, false),
        CBSetting::HideLv1 | CBSetting::HideLv2 | CBSetting::HideLv3 | CBSetting::HideNumLv1
        | CBSetting::HideNumLv2 | CBSetting::HideNumLv3 => pick_level(
            s,
            level_group(kind).0,
            level_group(kind).1,
        ),
        _ => s,
    }
}

/// What the settings screen does after box `kind` turned to `flg`: the rules of
/// `setting_rules_kind`; then, while a hiding mode is on, emphasis, inference and undo
/// are turned off and locked; otherwise they are unlocked.
pub open spec fn setting_rules(s: Seq<ChkModel<CBSetting>>, kind: CBSetting, flg: bool) -> Seq<
    ChkModel<CBSetting>,
> {
    let s1 = setting_rules_kind(s, kind, flg);
    if kind_flg(s1, CBSetting::HideOn) || kind_flg(s1, CBSetting::HideNumOn) {
        let s2 = set_flg_all(
            set_flg_all(set_flg_all(s1, CBSetting::BoldFlg, false), CBSetting::Inference, false),
            CBSetting::UndoFlg,
            false,
        );
        lock_set(
            lock_set(lock_set(s2, CBSetting::BoldFlg, true), CBSetting::Inference, true),
            CBSetting::UndoFlg,
            true,
        )
    } else {
        lock_set(
            lock_set(lock_set(s1, CBSetting::BoldFlg, false), CBSetting::Inference, false),
            CBSetting::UndoFlg,
            false,
        )
    }
}

/// The settings screen after a left click (`over[i]`: the mouse is over box `i`): while
/// the screen is open and some box toggles, the first such box toggles and the rules of
/// `setting_rules` apply; otherwise nothing changes.
pub open spec fn setting_clicked(m: MngModel<CBSetting>, over: Seq<bool>) -> MngModel<CBSetting> {
    if kind_flg(m.boxes, CBSetting::Close) || !any_clickable(m.boxes, over) {
        m
    } else {
        let i = first_click_index(m.boxes, over);
        MngModel {
            boxes: setting_rules(clicked(m.boxes, i), m.boxes[i].mytype, !m.boxes[i].flg),
            ..m
        }
    }
}

/// Setting the check of kind `t` keeps the number, kinds and parents of the boxes.
proof fn lemma_set_flg_all_shape(s: Seq<ChkModel<CBSetting>>, t: CBSetting, flg: bool)
    ensures
        set_flg_all(s, t, flg).len() == s.len(),
        forall|j: int|
            0 <= j < s.len() ==> (#[trigger] set_flg_all(s, t, flg)[j]).mytype == s[j].mytype
                && set_flg_all(s, t, flg)[j].parent == s[j].parent && set_flg_all(s, t, flg)[j].is_lock
                == s[j].is_lock,
        forall|j: int|
            0 <= j < s.len() && s[j].mytype != t && s[j].parent != Some(t) ==> #[trigger] set_flg_all(
                s,
                t,
                flg,
            )[j] == s[j],
{
    lemma_set_flg_upto_shape(s, t, flg, s.len());
    lemma_set_flg_upto_other(s, t, flg, s.len());
}

/// The hiding modes are top-level boxes.
pub open spec fn hide_top(s: Seq<ChkModel<CBSetting>>) -> bool {
    forall|j: int|
        0 <= j < s.len() && ((#[trigger] s[j]).mytype == CBSetting::HideOn || s[j].mytype
            == CBSetting::HideNumOn) ==> s[j].parent is None
}

/// The rules of one kind keep the boxes' number, kinds and parents.
proof fn lemma_rules_kind_shape(s: Seq<ChkModel<CBSetting>>, t: CBSetting, flg: bool)
    ensures
        ({
            let r = setting_rules_kind(s, t, flg);
            &&& r.len() == s.len()
            &&& forall|j: int|
                0 <= j < s.len() ==> (#[trigger] r[j]).mytype == s[j].mytype && r[j].parent == s[j].parent
                    && r[j].is_lock == s[j].is_lock
        }),
{
    match t {
        CBSetting::BoldFlg | CBSetting::Inference | CBSetting::DispAll => {
            if flg {
                let (x, y, v) = match t {
                    CBSetting::BoldFlg => (CBSetting::CursolFlg, CBSetting::Inference, false),
                    CBSetting::Inference => (CBSetting::CursolFlg, CBSetting::BoldFlg, false),
                    _ => (CBSetting::SafeOn, CBSetting::DangOn, true),
                };
                lemma_set_flg_all_shape(s, x, true);
                lemma_set_flg_all_shape(set_flg_all(s, x, true), y, v);
            }
        },
        CBSetting::HideOn => {
            lemma_set_flg_all_shape(s, CBSetting::HideNumOn, false);
        },
        CBSetting::HideNumOn => {
            lemma_set_flg_all_shape(s, CBSetting::HideOn, false);
        },
        CBSetting::HideLv1 | CBSetting::HideLv2 | CBSetting::HideLv3 | CBSetting::HideNumLv1
        | CBSetting::HideNumLv2 | CBSetting::HideNumLv3 => {
            let (g, on) = level_group(t);
            lemma_set_flg_all_shape(s, g.0, on == 0);
            let s1 = set_flg_all(s, g.0, on == 0);
            lemma_set_flg_all_shape(s1, g.1, on == 1);
            let s2 = set_flg_all(s1, g.1, on == 1);
            lemma_set_flg_all_shape(s2, g.2, on == 2);
        },
        _ => {},
    }
}

/// The settings screen keeps assistance out of the hiding modes: after any click, the
/// emphasis, inference and undo boxes are locked exactly when a hiding mode is on.
pub proof fn lemma_hide_locks_assist(s: Seq<ChkModel<CBSetting>>, kind: CBSetting, flg: bool)
    requires
        hide_top(s),
    ensures
        forall|j: int|
            0 <= j < setting_rules(s, kind, flg).len() && ((#[trigger] setting_rules(s, kind, flg)[j]).mytype
                == CBSetting::BoldFlg || setting_rules(s, kind, flg)[j].mytype == CBSetting::Inference
                || setting_rules(s, kind, flg)[j].mytype == CBSetting::UndoFlg) ==> setting_rules(
                s,
                kind,
                flg,
            )[j].is_lock == (kind_flg(setting_rules(s, kind, flg), CBSetting::HideOn) || kind_flg(
                setting_rules(s, kind, flg),
                CBSetting::HideNumOn,
            )),
{
    let s1 = setting_rules_kind(s, kind, flg);
    lemma_rules_kind_shape(s, kind, flg);
    let on = kind_flg(s1, CBSetting::HideOn) || kind_flg(s1, CBSetting::HideNumOn);
    let base = if on {
        let a1 = set_flg_all(s1, CBSetting::BoldFlg, false);
        let a2 = set_flg_all(a1, CBSetting::Inference, false);
        let a3 = set_flg_all(a2, CBSetting::UndoFlg, false);
        lemma_set_flg_all_shape(s1, CBSetting::BoldFlg, false);
        lemma_set_flg_all_shape(a1, CBSetting::Inference, false);
        lemma_set_flg_all_shape(a2, CBSetting::UndoFlg, false);
        assert forall|j: int| 0 <= j < s1.len() && s1[j].mytype == CBSetting::HideOn implies (#[trigger] a3[j]).reported()
            == s1[j].reported() by {
            assert(s[j].mytype == CBSetting::HideOn);
        }
        lemma_kind_flg_same(s1, a3, CBSetting::HideOn);
        assert forall|j: int| 0 <= j < s1.len() && s1[j].mytype == CBSetting::HideNumOn implies (#[trigger] a3[j]).reported()
            == s1[j].reported() by {
            assert(s[j].mytype == CBSetting::HideNumOn);
        }
        lemma_kind_flg_same(s1, a3, CBSetting::HideNumOn);
        a3
    } else {
        s1
    };
    let r = setting_rules(s, kind, flg);
    assert(r == lock_set(
        lock_set(lock_set(base, CBSetting::BoldFlg, on), CBSetting::Inference, on),
        CBSetting::UndoFlg,
        on,
    ));
    lemma_kind_flg_same(base, r, CBSetting::HideOn);
    lemma_kind_flg_same(base, r, CBSetting::HideNumOn);
}

/// Kind `t` is one of the three boxes of group `g`.
pub open spec fn in_group(t: CBSetting, g: (CBSetting, CBSetting, CBSetting)) -> bool {
    t == g.0 || t == g.1 || t == g.2
}

/// Kind `t` is a level of one of the two hiding modes.
pub open spec fn is_level(t: CBSetting) -> bool {
    in_group(t, (CBSetting::HideLv1, CBSetting::HideLv2, CBSetting::HideLv3)) || in_group(
        t,
        (CBSetting::HideNumLv1, CBSetting::HideNumLv2, CBSetting::HideNumLv3),
    )
}

/// The level boxes are children of a hiding mode, and no box is a child of a level.
pub open spec fn levels_placed(s: Seq<ChkModel<CBSetting>>) -> bool {
    &&& forall|j: int|
        0 <= j < s.len() && is_level((#[trigger] s[j]).mytype) ==> s[j].parent == Some(CBSetting::HideOn)
            || s[j].parent == Some(CBSetting::HideNumOn)
    &&& forall|j: int| 0 <= j < s.len() && (#[trigger] s[j]).parent is Some ==> !is_level(s[j].parent->0)
}

/// `pick_level` checks exactly the chosen level of an enabled, unlocked group.
proof fn lemma_pick_level(s: Seq<ChkModel<CBSetting>>, g: (CBSetting, CBSetting, CBSetting), on: int)
    requires
        g.0 != g.1 && g.1 != g.2 && g.0 != g.2,
        forall|j: int| 0 <= j < s.len() && (#[trigger] s[j]).parent is Some ==> !in_group(s[j].parent->0, g),
        forall|j: int|
            0 <= j < s.len() && in_group((#[trigger] s[j]).mytype, g) ==> s[j].is_active && !s[j].is_lock,
    ensures
        pick_level(s, g, on).len() == s.len(),
        forall|j: int|
            0 <= j < s.len() ==> (#[trigger] pick_level(s, g, on)[j]).mytype == s[j].mytype
                && pick_level(s, g, on)[j].parent == s[j].parent,
        forall|j: int|
            0 <= j < s.len() && in_group(s[j].mytype, g) ==> (#[trigger] pick_level(s, g, on)[j]).flg == (
            (s[j].mytype == g.0 && on == 0) || (s[j].mytype == g.1 && on == 1) || (s[j].mytype == g.2 && on
                == 2)),
{
    let s1 = set_flg_all(s, g.0, on == 0);
    lemma_set_flg_all_shape(s, g.0, on == 0);
    lemma_set_flg_upto_own(s, g.0, on == 0, s.len());
    let s2 = set_flg_all(s1, g.1, on == 1);
    lemma_set_flg_all_shape(s1, g.1, on == 1);
    lemma_set_flg_upto_own(s1, g.1, on == 1, s1.len());
    lemma_set_flg_all_shape(s2, g.2, on == 2);
    lemma_set_flg_upto_own(s2, g.2, on == 2, s2.len());
}

/// The levels of a hiding mode work as radio buttons: on an open settings screen, a
/// click that toggles a level box, checked or not, leaves that level the only checked
/// level of its group, as long as the group's boxes are enabled and unlocked.
pub proof fn lemma_level_radio(m: MngModel<CBSetting>, over: Seq<bool>)
    requires
        over.len() == m.boxes.len(),
        !kind_flg(m.boxes, CBSetting::Close),
        any_clickable(m.boxes, over),
        is_level(m.boxes[first_click_index(m.boxes, over)].mytype),
        levels_placed(m.boxes),
        forall|j: int|
            0 <= j < m.boxes.len() && in_group(
                (#[trigger] m.boxes[j]).mytype,
                level_group(m.boxes[first_click_index(m.boxes, over)].mytype).0,
            ) ==> m.boxes[j].is_active && !m.boxes[j].is_lock,
    ensures
        setting_clicked(m, over).boxes.len() == m.boxes.len(),
        forall|j: int|
            0 <= j < m.boxes.len() && in_group(
                m.boxes[j].mytype,
                level_group(m.boxes[first_click_index(m.boxes, over)].mytype).0,
            ) ==> (#[trigger] setting_clicked(m, over).boxes[j]).flg == (m.boxes[j].mytype
                == m.boxes[first_click_index(m.boxes, over)].mytype),
{
    let s = m.boxes;
    let i = first_click_index(s, over);
    lemma_first_click_exists(s, over);
    let k = s[i].mytype;
    let (g, on) = level_group(k);
    let u = s.update(i, ChkModel { flg: !s[i].flg, ..s[i] });
    assert(clicked(s, i) =~= u);
    let s1 = setting_rules_kind(u, k, !s[i].flg);
    assert(s1 == pick_level(u, g, on));
    assert forall|j: int| 0 <= j < u.len() && (#[trigger] u[j]).parent is Some implies !in_group(u[j].parent->0, g) by {
        assert(u[j].parent == s[j].parent);
    }
    lemma_pick_level(u, g, on);
    let hid = kind_flg(s1, CBSetting::HideOn) || kind_flg(s1, CBSetting::HideNumOn);
    let base = if hid {
        let a1 = set_flg_all(s1, CBSetting::BoldFlg, false);
        let a2 = set_flg_all(a1, CBSetting::Inference, false);
        let a3 = set_flg_all(a2, CBSetting::UndoFlg, false);
        lemma_set_flg_all_shape(s1, CBSetting::BoldFlg, false);
        lemma_set_flg_all_shape(a1, CBSetting::Inference, false);
        lemma_set_flg_all_shape(a2, CBSetting::UndoFlg, false);
        assert forall|j: int| 0 <= j < s.len() && in_group(s[j].mytype, g) implies (#[trigger] a3[j]) == s1[j] by {
            assert(is_level(s[j].mytype));
        }
        a3
    } else {
        s1
    };
    let r = setting_rules(u, k, !s[i].flg);
    assert(r == lock_set(
        lock_set(lock_set(base, CBSetting::BoldFlg, hid), CBSetting::Inference, hid),
        CBSetting::UndoFlg,
        hid,
    ));
    assert(setting_clicked(m, over).boxes == r);
}

/// Kind `t` is one of the two hiding modes.
pub open spec fn is_hide_mode(t: CBSetting) -> bool {
    t == CBSetting::HideOn || t == CBSetting::HideNumOn
}

/// At most one hiding mode is on.
pub open spec fn hide_modes_apart(s: Seq<ChkModel<CBSetting>>) -> bool {
    !(kind_flg(s, CBSetting::HideOn) && kind_flg(s, CBSetting::HideNumOn))
}

/// The boxes whose kind `keep` holds are top-level boxes.
pub open spec fn top_kinds(s: Seq<ChkModel<CBSetting>>, keep: spec_fn(CBSetting) -> bool) -> bool {
    forall|j: int| 0 <= j < s.len() && keep((#[trigger] s[j]).mytype) ==> s[j].parent is None
}

/// Whether the rules after box `kind` turned to `flg` set the check of a kind that
/// `keep` holds.
pub open spec fn rules_touch(kind: CBSetting, flg: bool, keep: spec_fn(CBSetting) -> bool) -> bool {
    match kind {
        CBSetting::BoldFlg => flg && (keep(CBSetting::CursolFlg) || keep(CBSetting::Inference)),
        CBSetting::Inference => flg && (keep(CBSetting::CursolFlg) || keep(CBSetting::BoldFlg)),
        CBSetting::DispAll => flg && (keep(CBSetting::SafeOn) || keep(CBSetting::DangOn)),
        CBSetting::HideOn => keep(CBSetting::HideNumOn),
        CBSetting::HideNumOn => keep(CBSetting::HideOn),
        CBSetting::HideLv1 | CBSetting::HideLv2 | CBSetting::HideLv3 | CBSetting::HideNumLv1
        | CBSetting::HideNumLv2 | CBSetting::HideNumLv3 => keep(level_group(kind).0.0) || keep(
            level_group(kind).0.1,
        ) || keep(level_group(kind).0.2),
        _ => false,
    }
}

/// Setting the check of a kind that `keep` does not hold leaves the top-level boxes of
/// the kinds that `keep` holds alone.
proof fn lemma_set_flg_keeps_top(s: Seq<ChkModel<CBSetting>>, t: CBSetting, flg: bool, keep: spec_fn(CBSetting) -> bool)
    requires
        top_kinds(s, keep),
        !keep(t),
    ensures
        top_kinds(set_flg_all(s, t, flg), keep),
        set_flg_all(s, t, flg).len() == s.len(),
        forall|j: int| 0 <= j < s.len() && keep(s[j].mytype) ==> #[trigger] set_flg_all(s, t, flg)[j] == s[j],
{
    lemma_set_flg_all_shape(s, t, flg);
}

/// The rules that follow a click, before the locks, leave alone the top-level boxes of
/// the kinds that they do not set.
proof fn lemma_rules_kind_keep_top(
    s: Seq<ChkModel<CBSetting>>,
    kind: CBSetting,
    flg: bool,
    keep: spec_fn(CBSetting) -> bool,
)
    requires
        top_kinds(s, keep),
        !rules_touch(kind, flg, keep),
    ensures
        top_kinds(setting_rules_kind(s, kind, flg), keep),
        forall|j: int|
            0 <= j < s.len() && keep(s[j].mytype) ==> #[trigger] setting_rules_kind(s, kind, flg)[j] == s[j],
{
    lemma_rules_kind_shape(s, kind, flg);
    let s1 = setting_rules_kind(s, kind, flg);
    if flg && (kind == CBSetting::BoldFlg || kind == CBSetting::Inference || kind == CBSetting::DispAll) {
        let (x, y, v) = if kind == CBSetting::BoldFlg {
            (CBSetting::CursolFlg, CBSetting::Inference, false)
        } else if kind == CBSetting::Inference {
            (CBSetting::CursolFlg, CBSetting::BoldFlg, false)
        } else {
            (CBSetting::SafeOn, CBSetting::DangOn, true)
        };
        let a = set_flg_all(s, x, true);
        lemma_set_flg_keeps_top(s, x, true, keep);
        lemma_set_flg_keeps_top(a, y, v, keep);
        assert(s1 == set_flg_all(a, y, v));
        assert forall|j: int| 0 <= j < s.len() && keep(s[j].mytype) implies #[trigger] s1[j] == s[j] by {
            assert(a[j] == s[j]);
        }
    } else if kind == CBSetting::HideOn || kind == CBSetting::HideNumOn {
        let y = if kind == CBSetting::HideOn {
            CBSetting::HideNumOn
        } else {
            CBSetting::HideOn
        };
        lemma_set_flg_keeps_top(s, y, false, keep);
        assert(s1 == set_flg_all(s, y, false));
    } else if is_level(kind) {
        let (g, on) = level_group(kind);
        lemma_set_flg_keeps_top(s, g.0, on == 0, keep);
        let x1 = set_flg_all(s, g.0, on == 0);
        lemma_set_flg_keeps_top(x1, g.1, on == 1, keep);
        let x2 = set_flg_all(x1, g.1, on == 1);
        lemma_set_flg_keeps_top(x2, g.2, on == 2, keep);
        assert(s1 == set_flg_all(x2, g.2, on == 2));
        assert forall|j: int| 0 <= j < s.len() && keep(s[j].mytype) implies #[trigger] s1[j] == s[j] by {
            assert(x1[j] == s[j]);
            assert(x2[j] == x1[j]);
        }
    } else {
        assert(s1 == s);
    }
}

/// Setting kind `t` to unchecked never makes a top-level box report a check it did not
/// report, and leaves enabling as it was.
proof fn lemma_set_flg_off_top(s: Seq<ChkModel<CBSetting>>, t: CBSetting, keep: spec_fn(CBSetting) -> bool)
    requires
        top_kinds(s, keep),
    ensures
        top_kinds(set_flg_all(s, t, false), keep),
        set_flg_all(s, t, false).len() == s.len(),
        forall|j: int| 0 <= j < s.len() ==> (#[trigger] set_flg_all(s, t, false)[j]).mytype == s[j].mytype,
        forall|j: int|
            0 <= j < s.len() && keep(s[j].mytype) ==> (#[trigger] set_flg_all(s, t, false)[j]).is_active
                == s[j].is_active && (set_flg_all(s, t, false)[j].flg ==> s[j].flg) && (s[j].mytype != t
                ==> set_flg_all(s, t, false)[j].flg == s[j].flg),
{
    lemma_set_flg_all_shape(s, t, false);
    lemma_set_flg_upto_own(s, t, false, s.len());
}

/// The locking part of the rules leaves enabling alone, never turns a check on, and
/// only turns off emphasis, inference and undo, for the top-level boxes of the kinds
/// that `keep` holds.
proof fn lemma_rules_tail_top(
    s: Seq<ChkModel<CBSetting>>,
    kind: CBSetting,
    flg: bool,
    keep: spec_fn(CBSetting) -> bool,
)
    requires
        top_kinds(setting_rules_kind(s, kind, flg), keep),
        setting_rules_kind(s, kind, flg).len() == s.len(),
    ensures
        setting_rules(s, kind, flg).len() == s.len(),
        forall|j: int|
            0 <= j < s.len() ==> (#[trigger] setting_rules(s, kind, flg)[j]).mytype == setting_rules_kind(
                s,
                kind,
                flg,
            )[j].mytype,
        forall|j: int|
            0 <= j < s.len() && keep(setting_rules_kind(s, kind, flg)[j].mytype) ==> {
                let a = setting_rules_kind(s, kind, flg)[j];
                let b = #[trigger] setting_rules(s, kind, flg)[j];
                &&& b.is_active == a.is_active
                &&& b.flg ==> a.flg
                &&& a.mytype != CBSetting::BoldFlg && a.mytype != CBSetting::Inference && a.mytype
                    != CBSetting::UndoFlg ==> b.flg == a.flg
            },
{
    let s1 = setting_rules_kind(s, kind, flg);
    let hid = kind_flg(s1, CBSetting::HideOn) || kind_flg(s1, CBSetting::HideNumOn);
    let a1 = set_flg_all(s1, CBSetting::BoldFlg, false);
    let a2 = set_flg_all(a1, CBSetting::Inference, false);
    let a3 = set_flg_all(a2, CBSetting::UndoFlg, false);
    lemma_set_flg_off_top(s1, CBSetting::BoldFlg, keep);
    lemma_set_flg_off_top(a1, CBSetting::Inference, keep);
    lemma_set_flg_off_top(a2, CBSetting::UndoFlg, keep);
    let base = if hid {
        a3
    } else {
        s1
    };
    assert(setting_rules(s, kind, flg) == lock_set(
        lock_set(lock_set(base, CBSetting::BoldFlg, hid), CBSetting::Inference, hid),
        CBSetting::UndoFlg,
        hid,
    ));
}

/// A kind reports a check only if it did before, when no box of the kind reports a
/// check that it did not report before.
proof fn lemma_kind_flg_mono(a: Seq<ChkModel<CBSetting>>, b: Seq<ChkModel<CBSetting>>, t: CBSetting)
    requires
        a.len() == b.len(),
        forall|j: int| 0 <= j < a.len() ==> (#[trigger] b[j]).mytype == a[j].mytype,
        forall|j: int| 0 <= j < a.len() && a[j].mytype == t && (#[trigger] b[j]).reported() ==> a[j].reported(),
    ensures
        kind_flg(b, t) ==> kind_flg(a, t),
{
    if kind_flg(b, t) {
        let i = choose|i: int| #[trigger] first_of_kind(b, t, i) && b[i].reported();
        assert forall|j: int| 0 <= j < i implies (#[trigger] a[j]).mytype != t by {
            assert(b[j].mytype != t);
        }
        assert(first_of_kind(a, t, i));
    }
}

/// The two hiding modes exclude each other: a click on an open settings screen never
/// leaves both of them on, when they were not both on before and the hiding mode
/// boxes, all top-level, are locked and unlocked together.
pub proof fn lemma_hide_modes_apart(m: MngModel<CBSetting>, over: Seq<bool>)
    requires
        over.len() == m.boxes.len(),
        hide_top(m.boxes),
        forall|j: int, k: int|
            0 <= j < m.boxes.len() && 0 <= k < m.boxes.len() && is_hide_mode((#[trigger] m.boxes[j]).mytype)
                && is_hide_mode((#[trigger] m.boxes[k]).mytype) ==> m.boxes[j].is_lock == m.boxes[k].is_lock,
        hide_modes_apart(m.boxes),
    ensures
        hide_modes_apart(setting_clicked(m, over).boxes),
{
    let keep = |t: CBSetting| is_hide_mode(t);
    let s = m.boxes;
    if kind_flg(s, CBSetting::Close) || !any_clickable(s, over) {
        return;
    }
    let i = first_click_index(s, over);
    lemma_first_click_exists(s, over);
    let k = s[i].mytype;
    let flg = !s[i].flg;
    let u = clicked(s, i);
    let r = setting_clicked(m, over).boxes;
    assert(r == setting_rules(u, k, flg));
    assert(u.len() == s.len());
    assert forall|j: int| 0 <= j < s.len() implies (#[trigger] u[j]).mytype == s[j].mytype && u[j].parent
        == s[j].parent by {}
    assert(top_kinds(u, keep));
    lemma_rules_kind_shape(u, k, flg);
    let s1 = setting_rules_kind(u, k, flg);
    if !is_hide_mode(k) {
        lemma_rules_kind_keep_top(u, k, flg, keep);
        lemma_rules_tail_top(u, k, flg, keep);
        assert forall|j: int| 0 <= j < s.len() && is_hide_mode(s[j].mytype) implies (#[trigger] u[j]) == s[j] by {}
        assert forall|j: int| 0 <= j < s.len() && is_hide_mode(s[j].mytype) implies (#[trigger] r[j]).reported()
            == s[j].reported() by {
            assert(s1[j] == u[j]);
        }
        lemma_kind_flg_same(s, r, CBSetting::HideOn);
        lemma_kind_flg_same(s, r, CBSetting::HideNumOn);
    } else {
        let other = if k == CBSetting::HideOn {
            CBSetting::HideNumOn
        } else {
            CBSetting::HideOn
        };
        assert(s1 == set_flg_all(u, other, false));
        lemma_set_flg_all_shape(u, other, false);
        lemma_set_flg_upto_own(u, other, false, u.len());
        assert forall|j: int| 0 <= j < s1.len() && s1[j].mytype == other implies !(#[trigger] s1[j]).reported() by {
            assert(s[j].is_lock == s[i].is_lock);
        }
        assert(top_kinds(s1, keep));
        lemma_rules_tail_top(u, k, flg, keep);
        assert(!kind_flg(s1, other));
        lemma_kind_flg_mono(s1, r, other);
    }
}

/// Kind `t` is emphasis or inference.
pub open spec fn is_assist(t: CBSetting) -> bool {
    t == CBSetting::BoldFlg || t == CBSetting::Inference
}

/// Emphasis and inference are not both on.
pub open spec fn assist_apart(s: Seq<ChkModel<CBSetting>>) -> bool {
    !(kind_flg(s, CBSetting::BoldFlg) && kind_flg(s, CBSetting::Inference))
}

/// Emphasis and inference exclude each other: a click on the settings screen never
/// leaves both of them on, when they were not both on before and their boxes, all
/// top-level, are locked and unlocked together.
pub proof fn lemma_assist_apart(m: MngModel<CBSetting>, over: Seq<bool>)
    requires
        over.len() == m.boxes.len(),
        top_kinds(m.boxes, |t: CBSetting| is_assist(t)),
        forall|j: int, k: int|
            0 <= j < m.boxes.len() && 0 <= k < m.boxes.len() && is_assist((#[trigger] m.boxes[j]).mytype)
                && is_assist((#[trigger] m.boxes[k]).mytype) ==> m.boxes[j].is_lock == m.boxes[k].is_lock,
        assist_apart(m.boxes),
    ensures
        assist_apart(setting_clicked(m, over).boxes),
{
    let keep = |t: CBSetting| is_assist(t);
    let s = m.boxes;
    if kind_flg(s, CBSetting::Close) || !any_clickable(s, over) {
        return;
    }
    let i = first_click_index(s, over);
    lemma_first_click_exists(s, over);
    let k = s[i].mytype;
    let flg = !s[i].flg;
    let u = clicked(s, i);
    let r = setting_clicked(m, over).boxes;
    assert(r == setting_rules(u, k, flg));
    assert(u.len() == s.len());
    assert forall|j: int| 0 <= j < s.len() implies (#[trigger] u[j]).mytype == s[j].mytype && u[j].parent
        == s[j].parent by {}
    assert(top_kinds(u, keep));
    lemma_rules_kind_shape(u, k, flg);
    let s1 = setting_rules_kind(u, k, flg);
    if is_assist(k) && flg {
        let other = if k == CBSetting::BoldFlg {
            CBSetting::Inference
        } else {
            CBSetting::BoldFlg
        };
        let a = set_flg_all(u, CBSetting::CursolFlg, true);
        lemma_set_flg_keeps_top(u, CBSetting::CursolFlg, true, keep);
        assert(s1 == set_flg_all(a, other, false));
        lemma_set_flg_all_shape(a, other, false);
        lemma_set_flg_upto_own(a, other, false, a.len());
        assert forall|j: int| 0 <= j < s1.len() && s1[j].mytype == other implies !(#[trigger] s1[j]).reported() by {
            assert(a[j] == u[j]);
            assert(s[j].is_lock == s[i].is_lock);
        }
        lemma_rules_tail_top(u, k, flg, keep);
        assert(!kind_flg(s1, other));
        lemma_kind_flg_mono(s1, r, other);
    } else {
        assert(!rules_touch(k, flg, keep));
        lemma_rules_kind_keep_top(u, k, flg, keep);
        lemma_rules_tail_top(u, k, flg, keep);
        assert forall|j: int| 0 <= j < s.len() && is_assist(s[j].mytype) && (#[trigger] r[j]).reported()
            implies s[j].reported() by {
            assert(s1[j] == u[j]);
        }
        lemma_kind_flg_mono(s, r, CBSetting::BoldFlg);
        lemma_kind_flg_mono(s, r, CBSetting::Inference);
    }
}

/// What the settings screen keeps true of its boxes: the hiding modes, emphasis and
/// inference are top-level boxes, each pair locked and unlocked together and never both
/// on; the levels are children of a hiding mode and have no children.
pub open spec fn screen_ok(s: Seq<ChkModel<CBSetting>>) -> bool {
    &&& hide_top(s)
    &&& top_kinds(s, |t: CBSetting| is_assist(t))
    &&& levels_placed(s)
    &&& forall|j: int, k: int|
        0 <= j < s.len() && 0 <= k < s.len() && is_hide_mode((#[trigger] s[j]).mytype) && is_hide_mode(
            (#[trigger] s[k]).mytype,
        ) ==> s[j].is_lock == s[k].is_lock
    &&& forall|j: int, k: int|
        0 <= j < s.len() && 0 <= k < s.len() && is_assist((#[trigger] s[j]).mytype) && is_assist(
            (#[trigger] s[k]).mytype,
        ) ==> s[j].is_lock == s[k].is_lock
    &&& hide_modes_apart(s)
    &&& assist_apart(s)
}

/// The locking part of the rules keeps kinds and parents, and locks emphasis, inference
/// and undo, with their children, exactly when a hiding mode is on.
proof fn lemma_rules_tail_locks(s: Seq<ChkModel<CBSetting>>, kind: CBSetting, flg: bool)
    requires
        setting_rules_kind(s, kind, flg).len() == s.len(),
    ensures
        setting_rules(s, kind, flg).len() == s.len(),
        forall|j: int|
            0 <= j < s.len() ==> {
                let a = setting_rules_kind(s, kind, flg)[j];
                let b = #[trigger] setting_rules(s, kind, flg)[j];
                let hid = kind_flg(setting_rules_kind(s, kind, flg), CBSetting::HideOn) || kind_flg(
                    setting_rules_kind(s, kind, flg),
                    CBSetting::HideNumOn,
                );
                let assisting = |t: CBSetting|
                    t == CBSetting::BoldFlg || t == CBSetting::Inference || t == CBSetting::UndoFlg;
                &&& b.mytype == a.mytype
                &&& b.parent == a.parent
                &&& b.is_lock == if assisting(a.mytype) || (a.parent is Some && assisting(a.parent->0)) {
                    hid
                } else {
                    a.is_lock
                }
            },
{
    let s1 = setting_rules_kind(s, kind, flg);
    let hid = kind_flg(s1, CBSetting::HideOn) || kind_flg(s1, CBSetting::HideNumOn);
    let a1 = set_flg_all(s1, CBSetting::BoldFlg, false);
    let a2 = set_flg_all(a1, CBSetting::Inference, false);
    let a3 = set_flg_all(a2, CBSetting::UndoFlg, false);
    lemma_set_flg_all_shape(s1, CBSetting::BoldFlg, false);
    lemma_set_flg_all_shape(a1, CBSetting::Inference, false);
    lemma_set_flg_all_shape(a2, CBSetting::UndoFlg, false);
    let base = if hid {
        a3
    } else {
        s1
    };
    assert(setting_rules(s, kind, flg) == lock_set(
        lock_set(lock_set(base, CBSetting::BoldFlg, hid), CBSetting::Inference, hid),
        CBSetting::UndoFlg,
        hid,
    ));
}

/// A click on the settings screen keeps `screen_ok`.
pub proof fn lemma_screen_ok_click(m: MngModel<CBSetting>, over: Seq<bool>)
    requires
        over.len() == m.boxes.len(),
        screen_ok(m.boxes),
    ensures
        screen_ok(setting_clicked(m, over).boxes),
{
    let s = m.boxes;
    lemma_hide_modes_apart(m, over);
    lemma_assist_apart(m, over);
    if kind_flg(s, CBSetting::Close) || !any_clickable(s, over) {
        return;
    }
    let i = first_click_index(s, over);
    lemma_first_click_exists(s, over);
    let k = s[i].mytype;
    let flg = !s[i].flg;
    let u = clicked(s, i);
    let r = setting_clicked(m, over).boxes;
    assert(r == setting_rules(u, k, flg));
    assert forall|j: int| 0 <= j < s.len() implies (#[trigger] u[j]).mytype == s[j].mytype && u[j].parent
        == s[j].parent && u[j].is_lock == s[j].is_lock by {}
    lemma_rules_kind_shape(u, k, flg);
    let s1 = setting_rules_kind(u, k, flg);
    lemma_rules_tail_locks(u, k, flg);
    assert forall|j: int| 0 <= j < s.len() implies (#[trigger] r[j]).mytype == s[j].mytype && r[j].parent
        == s[j].parent by {
        assert(s1[j].mytype == u[j].mytype);
    }
    assert forall|j: int| 0 <= j < s.len() && is_hide_mode(s[j].mytype) implies (#[trigger] r[j]).is_lock
        == s[j].is_lock by {
        assert(s1[j].mytype == u[j].mytype);
    }
    assert forall|j: int, l: int|
        0 <= j < r.len() && 0 <= l < r.len() && is_assist((#[trigger] r[j]).mytype) && is_assist(
            (#[trigger] r[l]).mytype,
        ) implies r[j].is_lock == r[l].is_lock by {
        assert(s1[j].mytype == u[j].mytype);
        assert(s1[l].mytype == u[l].mytype);
    }
    assert forall|j: int, l: int|
        0 <= j < r.len() && 0 <= l < r.len() && is_hide_mode((#[trigger] r[j]).mytype) && is_hide_mode(
            (#[trigger] r[l]).mytype,
        ) implies r[j].is_lock == r[l].is_lock by {
        assert(is_hide_mode(s[j].mytype));
        assert(is_hide_mode(s[l].mytype));
    }
}

/// Locking or unlocking the hiding modes together keeps `screen_ok`.
pub proof fn lemma_screen_ok_playing(s: Seq<ChkModel<CBSetting>>, flg: bool)
    requires
        screen_ok(s),
    ensures
        screen_ok(lock_set(lock_set(s, CBSetting::HideOn, flg), CBSetting::HideNumOn, flg)),
{
    let r = lock_set(lock_set(s, CBSetting::HideOn, flg), CBSetting::HideNumOn, flg);
    assert forall|j: int| 0 <= j < s.len() && (#[trigger] r[j]).mytype == CBSetting::HideOn implies r[j].reported()
        == s[j].reported() by {}
    assert forall|j: int| 0 <= j < s.len() && (#[trigger] r[j]).mytype == CBSetting::HideNumOn implies r[j].reported()
        == s[j].reported() by {}
    lemma_kind_flg_same(s, r, CBSetting::HideOn);
    lemma_kind_flg_same(s, r, CBSetting::HideNumOn);
    assert forall|j: int| 0 <= j < s.len() && is_assist(s[j].mytype) implies (#[trigger] r[j]) == s[j] by {}
    lemma_kind_flg_same(s, r, CBSetting::BoldFlg);
    lemma_kind_flg_same(s, r, CBSetting::Inference);
}

/// Opening the screen keeps `screen_ok`.
pub proof fn lemma_screen_ok_open(s: Seq<ChkModel<CBSetting>>)
    requires
        screen_ok(s),
    ensures
        screen_ok(set_flg_all(s, CBSetting::Close, false)),
{
    let keep = |t: CBSetting| is_hide_mode(t) || is_assist(t);
    let r = set_flg_all(s, CBSetting::Close, false);
    lemma_set_flg_all_shape(s, CBSetting::Close, false);
    assert(top_kinds(s, keep));
    lemma_set_flg_keeps_top(s, CBSetting::Close, false, keep);
    lemma_kind_flg_same(s, r, CBSetting::HideOn);
    lemma_kind_flg_same(s, r, CBSetting::HideNumOn);
    lemma_kind_flg_same(s, r, CBSetting::BoldFlg);
    lemma_kind_flg_same(s, r, CBSetting::Inference);
}

/// A screen without boxes satisfies `screen_ok`.
proof fn lemma_screen_ok_empty(s: Seq<ChkModel<CBSetting>>)
    requires
        s.len() == 0,
    ensures
        screen_ok(s),
{
    assert(!kind_flg(s, CBSetting::HideOn));
    assert(!kind_flg(s, CBSetting::BoldFlg));
}

/// A new settings screen satisfies `screen_ok`.
pub proof fn lemma_screen_ok_new(s: Seq<ChkModel<CBSetting>>)
    requires
        s.len() == setting_layout().len(),
        forall|i: int| 0 <= i < setting_layout().len() ==> #[trigger] s[i] == setting_box(i),
    ensures
        screen_ok(s),
{
    assert forall|j: int| 0 <= j < s.len() implies !(#[trigger] s[j]).is_lock && (s[j].mytype
        == CBSetting::HideOn ==> j == 3) && (s[j].mytype == CBSetting::HideNumOn ==> j == 4) && (s[j].mytype
        == CBSetting::BoldFlg ==> j == 5) && (s[j].mytype == CBSetting::Inference ==> j == 6) by {
        assert(s[j] == setting_box(j));
    }
    assert(!s[3].flg && !s[4].flg && !s[5].flg && !s[6].flg) by {
        assert(s[3] == setting_box(3));
        assert(s[4] == setting_box(4));
        assert(s[5] == setting_box(5));
        assert(s[6] == setting_box(6));
    }
    assert forall|j: int| 0 <= j < s.len() implies (is_level((#[trigger] s[j]).mytype) ==> s[j].parent
        == Some(CBSetting::HideOn) || s[j].parent == Some(CBSetting::HideNumOn)) && (s[j].parent is Some
        ==> !is_level(s[j].parent->0)) && ((is_hide_mode(s[j].mytype) || is_assist(s[j].mytype))
        ==> s[j].parent is None) by {
        assert(s[j] == setting_box(j));
    }
}

/// The settings screen: a panel of check boxes, open until its close button is checked.
pub struct GameSettings {
    chkbox: ChkBoxMng<CBSetting>,
}

impl View for GameSettings {
    type V = MngModel<CBSetting>;

    closed spec fn view(&self) -> MngModel<CBSetting> {
        self.chkbox@
    }
}

impl GameSettings {
    /// The settings screen, closed, with its boxes laid out as `setting_layout` says
    /// (nothing locked).
    pub fn new() -> (r: GameSettings)
        ensures
            r@.boxes.len() == setting_layout().len(),
            forall|i: int| 0 <= i < setting_layout().len() ==> #[trigger] r@.boxes[i] == setting_box(i),
            screen_ok(r@.boxes),
    {
        let mut mng = ChkBoxMng::new();
        create_chkbox(&mut mng);
        proof {
            lemma_screen_ok_new(mng@.boxes);
        }
        GameSettings { chkbox: mng }
    }

    /// Every settings screen keeps `screen_ok`.
    #[verifier::type_invariant]
    spec fn keeps_screen_ok(self) -> bool {
        screen_ok(self.chkbox@.boxes)
    }

    /// Locks the two hiding modes while a game is being played (`flg`), unlocks them otherwise.
    pub fn set_playing_flg(&mut self, flg: bool)
        ensures
            final(self)@ == (MngModel {
                boxes: lock_set(
                    lock_set(old(self)@.boxes, CBSetting::HideOn, flg),
                    CBSetting::HideNumOn,
                    flg,
                ),
                ..old(self)@
            }),
            screen_ok(old(self)@.boxes),
            screen_ok(final(self)@.boxes),
    {
        proof {
            use_type_invariant(&*self);
            lemma_screen_ok_playing(self@.boxes, flg);
        }
        let mut mng = ChkBoxMng::new();
        proof {
            lemma_screen_ok_empty(mng@.boxes);
        }
        std::mem::swap(&mut mng, &mut self.chkbox);
        mng.set_lock_flg(CBSetting::HideOn, flg);
        mng.set_lock_flg(CBSetting::HideNumOn, flg);
        self.chkbox = mng;
    }

    /// A left click on the screen (`over[i]`: the mouse is over box `i`); see
    /// `setting_clicked`.
    pub fn click(&mut self, over: &Vec<bool>)
        requires
            over@.len() == old(self)@.boxes.len(),
        ensures
            final(self)@ == setting_clicked(old(self)@, over@),
            screen_ok(old(self)@.boxes),
            screen_ok(final(self)@.boxes),
    {
        proof {
            use_type_invariant(&*self);
            lemma_screen_ok_click(self@, over@);
        }
        let mut mng = ChkBoxMng::new();
        proof {
            lemma_screen_ok_empty(mng@.boxes);
        }
        std::mem::swap(&mut mng, &mut self.chkbox);
        click_boxes(&mut mng, over);
        self.chkbox = mng;
    }

    /// Opens the screen (unchecks its close button).
    pub fn open(&mut self)
        ensures
            final(self)@ == (MngModel {
                boxes: set_flg_all(old(self)@.boxes, CBSetting::Close, false),
                ..old(self)@
            }),
            screen_ok(old(self)@.boxes),
            screen_ok(final(self)@.boxes),
    {
        proof {
            use_type_invariant(&*self);
            lemma_screen_ok_open(self@.boxes);
        }
        let mut mng = ChkBoxMng::new();
        proof {
            lemma_screen_ok_empty(mng@.boxes);
        }
        std::mem::swap(&mut mng, &mut self.chkbox);
        mng.set_flg(CBSetting::Close, false);
        self.chkbox = mng;
    }

    /// Whether the screen is open.
    pub fn is_open(&self) -> (r: bool)
        ensures
            r == !kind_flg(self@.boxes, CBSetting::Close),
    {
        !self.chkbox.get_flg(CBSetting::Close)
    }

    /// The value of setting `mytype`.
    pub fn get_flg(&self, mytype: CBSetting) -> (r: bool)
        ensures
            r == kind_flg(self@.boxes, mytype),
    {
        self.chkbox.get_flg(mytype)
    }

    /// The levels of board hiding and of number hiding (0: off).
    pub fn hide_levels(&self) -> (r: (i32, i32))
        ensures
            r.0 == level_of(self@.boxes, CBSetting::HideLv1, CBSetting::HideLv2, CBSetting::HideLv3),
            r.1 == level_of(self@.boxes, CBSetting::HideNumLv1, CBSetting::HideNumLv2, CBSetting::HideNumLv3),
    {
        let mut hide_lv: i32 = 0;
        if self.get_flg(CBSetting::HideLv1) {
            hide_lv = 1;
        } else if self.get_flg(CBSetting::HideLv2) {
            hide_lv = 2;
        }
        if self.get_flg(CBSetting::HideLv3) {
            hide_lv = 3;
        }
        let mut hidenum_lv: i32 = 0;
        if self.get_flg(CBSetting::HideNumLv1) {
            hidenum_lv = 1;
        } else if self.get_flg(CBSetting::HideNumLv2) {
            hidenum_lv = 2;
        }
        if self.get_flg(CBSetting::HideNumLv3) {
            hidenum_lv = 3;
        }
        (hide_lv, hidenum_lv)
    }

    /// The boxes of the screen.
    pub fn chkbox(&self) -> (r: &ChkBoxMng<CBSetting>)
        ensures
            r@ == self@,
    {
        &self.chkbox
    }
}


fn create_chkbox(mng: &mut ChkBoxMng<CBSetting>)
    requires
        old(mng)@.boxes.len() == 0,
    ensures
        final(mng)@.boxes.len() == setting_layout().len(),
        forall|i: int| 0 <= i < setting_layout().len() ==> #[trigger] final(mng)@.boxes[i] == setting_box(i),
{
    add_top_boxes(mng);
    add_child_boxes(mng);
    mng.set_active_flg(CBSetting::DispAll, false);
    mng.view_hitbox(false);
    proof {
        assert(mng@.boxes =~= Seq::new(
            21,
            |i: int| ChkModel { is_active: setting_layout()[i].3, ..made_box(i) },
        ));
    }
    add_help(mng);
}

/// The ten boxes without a parent.
fn add_top_boxes(mng: &mut ChkBoxMng<CBSetting>)
    requires
        old(mng)@.boxes.len() == 0,
    ensures
        final(mng)@.boxes == Seq::new(10, |i: int| made_box(i)),
        final(mng)@.fgcol == "000000FF"@,
        final(mng)@.bgcol == "FFFFFFFF"@,
{
    mng.set_base("000000FF", "FFFFFFFF");
    mng.add(CBSetting::CursolFlg, "CURSOL FLAME".to_owned(), false, false);
    mng.add(CBSetting::DragOpen, "DRAG OPEN".to_owned(), false, false);
    mng.add(CBSetting::UseBlueFlg, "USE BLUEFLAG".to_owned(), false, false);
    mng.add(CBSetting::HideOn, "HIDE BORD".to_owned(), false, true);
    mng.add(CBSetting::HideNumOn, "HIDE NUMBER".to_owned(), false, false);
    mng.add(CBSetting::BoldFlg, "USE BOLD".to_owned(), false, true);
    mng.add(CBSetting::Inference, "USE INFERENCE".to_owned(), false, false);
    mng.add(CBSetting::UndoFlg, "USE UNDO".to_owned(), false, false);
    mng.add(CBSetting::DispAll, "All DISPLAY".to_owned(), false, false);
    mng.add(CBSetting::Close, "[CLOSE]".to_owned(), true, true);
    proof {
        reveal_strlit("3333FFFF");
        reveal_strlit("");
    }
    let ghost s1 = mng@.boxes;
    mng.set_col(CBSetting::Close, "3333FFFF", "");
    let ghost s2 = mng@.boxes;
    assert forall|i: int| 0 <= i < 10 implies #[trigger] s2[i] == (if i == 9 {
        ChkModel { fgcol: "3333FFFF"@, ..s1[i] }
    } else {
        s1[i]
    }) by {}
    mng.view_box(CBSetting::Close, false);
    proof {
        assert forall|i: int| 0 <= i < 10 implies #[trigger] mng@.boxes[i] == made_box(i) by {}
        assert(mng@.boxes =~= Seq::new(10, |i: int| made_box(i)));
    }
}

/// The eleven child boxes, disabled since no parent is checked.
fn add_child_boxes(mng: &mut ChkBoxMng<CBSetting>)
    requires
        old(mng)@.boxes == Seq::new(10, |i: int| made_box(i)),
        old(mng)@.fgcol == "000000FF"@,
        old(mng)@.bgcol == "FFFFFFFF"@,
    ensures
        final(mng)@.boxes == Seq::new(21, |i: int| made_box(i)),
{
    let ghost s0 = mng@.boxes;
    assert forall|i: int| 0 <= i < 10 && s0[i].mytype != CBSetting::Close implies !(#[trigger] s0[i]).flg by {}
    mng.set_base("000000FF", "FFFFFFFF");
    mng.addsub(CBSetting::BlueFlgFirst, CBSetting::UseBlueFlg, "BLUEFLAG FIRST".to_owned(), false);
    mng.addsub(CBSetting::BoldSafeOn, CBSetting::BoldFlg, "SAFETY ON".to_owned(), false);
    mng.addsub(CBSetting::SafeOn, CBSetting::Inference, "SAFETY ON".to_owned(), false);
    mng.addsub(CBSetting::DangOn, CBSetting::Inference, "DANGER ON".to_owned(), true);
    mng.addsub(CBSetting::BelieveFlag, CBSetting::Inference, "BELEVE FLAG".to_owned(), false);
    mng.addsub(CBSetting::HideLv1, CBSetting::HideOn, "LEVEL1".to_owned(), true);
    mng.addsub(CBSetting::HideLv2, CBSetting::HideOn, "LEVEL2".to_owned(), false);
    mng.addsub(CBSetting::HideLv3, CBSetting::HideOn, "LEVEL3".to_owned(), false);
    mng.addsub(CBSetting::HideNumLv1, CBSetting::HideNumOn, "LEVEL1".to_owned(), true);
    mng.addsub(CBSetting::HideNumLv2, CBSetting::HideNumOn, "LEVEL2".to_owned(), false);
    mng.addsub(CBSetting::HideNumLv3, CBSetting::HideNumOn, "LEVEL3".to_owned(), false);
    proof {
        assert(mng@.boxes =~= Seq::new(21, |i: int| made_box(i)));
    }
}

fn help_general(mng: &mut ChkBoxMng<CBSetting>)
    ensures
        final(mng)@.boxes.len() == old(mng)@.boxes.len(),
        forall|i: int|
            0 <= i < old(mng)@.boxes.len() ==> (#[trigger] final(mng)@.boxes[i]) == (ChkModel {
                help_txt: if old(mng)@.boxes[i].mytype == CBSetting::CursolFlg || old(mng)@.boxes[i].mytype == CBSetting::DragOpen || old(mng)@.boxes[i].mytype == CBSetting::UseBlueFlg || old(mng)@.boxes[i].mytype == CBSetting::BlueFlgFirst || old(mng)@.boxes[i].mytype == CBSetting::BoldFlg {
                    setting_help(old(mng)@.boxes[i].mytype)
                } else {
                    old(mng)@.boxes[i].help_txt
                },
                ..old(mng)@.boxes[i]
            }),
{
    mng.set_help(CBSetting::CursolFlg, "[CURSOL FLAME]\n３×３のカーソルを表示します。");
    mng.set_help(CBSetting::DragOpen, "[DRAG OPEN]\n押しっぱなしでまとめてパネルを開きます。");
    mng.set_help(CBSetting::UseBlueFlg, "[USE BLUEFLAG]\n「青色の旗」を使用します、赤色の旗と区別したい場合に使用してください。");
    mng.set_help(CBSetting::BlueFlgFirst, "[BLUEFLAG FIRST]\n旗を立てる順番を「青→赤→なし」へ変更します。");
    mng.set_help(CBSetting::BoldFlg, "[USE BOLD] ※初心者にお勧め\n「数字」と「周りの未開封パネル数」が一致していると強調表示されます。\n（正しく旗を立てると強調表示は消えます）");
}

fn help_assist(mng: &mut ChkBoxMng<CBSetting>)
    ensures
        final(mng)@.boxes.len() == old(mng)@.boxes.len(),
        forall|i: int|
            0 <= i < old(mng)@.boxes.len() ==> (#[trigger] final(mng)@.boxes[i]) == (ChkModel {
                help_txt: if old(mng)@.boxes[i].mytype == CBSetting::BoldSafeOn || old(mng)@.boxes[i].mytype == CBSetting::Inference || old(mng)@.boxes[i].mytype == CBSetting::DangOn || old(mng)@.boxes[i].mytype == CBSetting::SafeOn || old(mng)@.boxes[i].mytype == CBSetting::DispAll {
                    setting_help(old(mng)@.boxes[i].mytype)
                } else {
                    old(mng)@.boxes[i].help_txt
                },
                ..old(mng)@.boxes[i]
            }),
{
    mng.set_help(CBSetting::BoldSafeOn, "[SAFETY ON]\n旗の周囲の安全パネルを表示します。");
    mng.set_help(CBSetting::Inference, "[USE INFERENCE]\n見えている数字から、危険／安全パネルを推測します。");
    mng.set_help(CBSetting::DangOn, "[DANGER ON]\n推論で危険パネルを表示します。");
    mng.set_help(CBSetting::SafeOn, "[SAFETY ON]\n推論で安全パネルを表示します。");
    mng.set_help(CBSetting::DispAll, "[ALL DISPLAY]\n盤面全体に危険／安全パネルを表示します。\n（デフォルトはマウスの隣接のみ表示）");
}

fn help_hide(mng: &mut ChkBoxMng<CBSetting>)
    ensures
        final(mng)@.boxes.len() == old(mng)@.boxes.len(),
        forall|i: int|
            0 <= i < old(mng)@.boxes.len() ==> (#[trigger] final(mng)@.boxes[i]) == (ChkModel {
                help_txt: if old(mng)@.boxes[i].mytype == CBSetting::BelieveFlag || old(mng)@.boxes[i].mytype == CBSetting::UndoFlg || old(mng)@.boxes[i].mytype == CBSetting::HideOn || old(mng)@.boxes[i].mytype == CBSetting::HideLv1 || old(mng)@.boxes[i].mytype == CBSetting::HideLv2 {
                    setting_help(old(mng)@.boxes[i].mytype)
                } else {
                    old(mng)@.boxes[i].help_txt
                },
                ..old(mng)@.boxes[i]
            }),
{
    mng.set_help(CBSetting::BelieveFlag, "[BELIEVE FLAG]\nあなたの立てた旗を信じて推論します。");
    mng.set_help(CBSetting::UndoFlg, "[USE UNDO]\nUNDO（やり直し）を有効にします。");
    mng.set_help(CBSetting::HideOn, "[HIDE BORD]（アシスト使用不可）\nマウスの周囲だけ盤面を表示します。※タイマー起動中は変更できません。");
    mng.set_help(CBSetting::HideLv1, "[LEVEL1]\n周囲５×５まで表示します。");
    mng.set_help(CBSetting::HideLv2, "[LEVEL2]\n周囲３×３まで表示します。");
}

fn help_hide_num(mng: &mut ChkBoxMng<CBSetting>)
    ensures
        final(mng)@.boxes.len() == old(mng)@.boxes.len(),
        forall|i: int|
            0 <= i < old(mng)@.boxes.len() ==> (#[trigger] final(mng)@.boxes[i]) == (ChkModel {
                help_txt: if old(mng)@.boxes[i].mytype == CBSetting::HideLv3 || old(mng)@.boxes[i].mytype == CBSetting::HideNumOn || old(mng)@.boxes[i].mytype == CBSetting::HideNumLv1 || old(mng)@.boxes[i].mytype == CBSetting::HideNumLv2 || old(mng)@.boxes[i].mytype == CBSetting::HideNumLv3 {
                    setting_help(old(mng)@.boxes[i].mytype)
                } else {
                    old(mng)@.boxes[i].help_txt
                },
                ..old(mng)@.boxes[i]
            }),
{
    mng.set_help(CBSetting::HideLv3, "[LEVEL3]\nマウス位置以外は表示されません");
    mng.set_help(CBSetting::HideNumOn, "[HIDE NUMBER]（アシスト使用不可）\nマウスの周囲だけ数字を表示します。※タイマー起動中は変更できません。");
    mng.set_help(CBSetting::HideNumLv1, "[LEVEL1]\n周囲５×５まで表示します。");
    mng.set_help(CBSetting::HideNumLv2, "[LEVEL2]\n周囲３×３まで表示します。");
    mng.set_help(CBSetting::HideNumLv3, "[LEVEL3]\nマウス位置以外は表示されません");
}

/// Sets the help text of every box.
fn add_help(mng: &mut ChkBoxMng<CBSetting>)
    ensures
        final(mng)@.boxes.len() == old(mng)@.boxes.len(),
        forall|i: int|
            0 <= i < old(mng)@.boxes.len() ==> (#[trigger] final(mng)@.boxes[i]) == (ChkModel {
                help_txt: if old(mng)@.boxes[i].mytype == CBSetting::Close {
                    old(mng)@.boxes[i].help_txt
                } else {
                    setting_help(old(mng)@.boxes[i].mytype)
                },
                ..old(mng)@.boxes[i]
            }),
{
    help_general(mng);
    help_assist(mng);
    help_hide(mng);
    help_hide_num(mng);
}

/// A left click on the boxes of the screen; see `setting_clicked`.
fn click_boxes(mng: &mut ChkBoxMng<CBSetting>, over: &Vec<bool>)
    requires
        over@.len() == old(mng)@.boxes.len(),
    ensures
        final(mng)@ == setting_clicked(old(mng)@, over@),
{
    if mng.get_flg(CBSetting::Close) {
        return;
    }
    let ghost s0 = mng@.boxes;
    if let Some((kind, flg)) = mng.click(over) {
        match kind {
            CBSetting::BoldFlg => {
                if flg {
                    mng.set_flg(CBSetting::CursolFlg, true);
                    mng.set_flg(CBSetting::Inference, false);
                }
            },
            CBSetting::Inference => {
                if flg {
                    mng.set_flg(CBSetting::CursolFlg, true);
                    mng.set_flg(CBSetting::BoldFlg, false);
                }
            },
            CBSetting::DispAll => {
                if flg {
                    mng.set_flg(CBSetting::SafeOn, true);
                    mng.set_flg(CBSetting::DangOn, true);
                }
            },
            CBSetting::HideOn => {
                mng.set_flg(CBSetting::HideNumOn, false);
            },
            CBSetting::HideLv1 => {
                mng.set_flg(CBSetting::HideLv1, true);
                mng.set_flg(CBSetting::HideLv2, false);
                mng.set_flg(CBSetting::HideLv3, false);
            },
            CBSetting::HideLv2 => {
                mng.set_flg(CBSetting::HideLv1, false);
                mng.set_flg(CBSetting::HideLv2, true);
                mng.set_flg(CBSetting::HideLv3, false);
            },
            CBSetting::HideLv3 => {
                mng.set_flg(CBSetting::HideLv1, false);
                mng.set_flg(CBSetting::HideLv2, false);
                mng.set_flg(CBSetting::HideLv3, true);
            },
            CBSetting::HideNumOn => {
                mng.set_flg(CBSetting::HideOn, false);
            },
            CBSetting::HideNumLv1 => {
                mng.set_flg(CBSetting::HideNumLv1, true);
                mng.set_flg(CBSetting::HideNumLv2, false);
                mng.set_flg(CBSetting::HideNumLv3, false);
            },
            CBSetting::HideNumLv2 => {
                mng.set_flg(CBSetting::HideNumLv1, false);
                mng.set_flg(CBSetting::HideNumLv2, true);
                mng.set_flg(CBSetting::HideNumLv3, false);
            },
            CBSetting::HideNumLv3 => {
                mng.set_flg(CBSetting::HideNumLv1, false);
                mng.set_flg(CBSetting::HideNumLv2, false);
                mng.set_flg(CBSetting::HideNumLv3, true);
            },
            _ => {},
        }
        if mng.get_flg(CBSetting::HideOn) || mng.get_flg(CBSetting::HideNumOn) {
            mng.set_flg(CBSetting::BoldFlg, false);
            mng.set_flg(CBSetting::Inference, false);
            mng.set_flg(CBSetting::UndoFlg, false);
            mng.set_lock_flg(CBSetting::BoldFlg, true);
            mng.set_lock_flg(CBSetting::Inference, true);
            mng.set_lock_flg(CBSetting::UndoFlg, true);
        } else {
            mng.set_lock_flg(CBSetting::BoldFlg, false);
            mng.set_lock_flg(CBSetting::Inference, false);
            mng.set_lock_flg(CBSetting::UndoFlg, false);
        }
    }
}


} // verus!
