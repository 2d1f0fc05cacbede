use vstd::prelude::*;
use crate::myconst::{CBTitle, CBSetting, GameMode};
use crate::chkbox::{ChkKind, ChkModel};
use crate::chkboxmng::{
    ChkBoxMng,
    MngModel,
    set_flg_all,
    flag_set,
    kind_flg,
    clicked,
    any_clickable,
    first_click_index,
};
use crate::setting::GameSettings;
use crate::txtbox::{TextBox, TextModel, TxtEvent, box_value, updated};

verus! {

/// The title screen's boxes in the order they are made: kind and initial check.
pub open spec fn title_layout() -> Seq<(CBTitle, bool)> {
    seq![
        (CBTitle::Easy, false),
        (CBTitle::Normal, true),
        (CBTitle::Hard, false),
        (CBTitle::Edit, false),
        (CBTitle::Start, false),
        (CBTitle::Quit, false),
        (CBTitle::Settings, false),
        (CBTitle::Credits, false),
    ]
}

/// The text of each box of the title screen, in layout order.
pub open spec fn title_labels() -> Seq<Seq<char>> {
    seq![
        "EASY"@,
        "NORMAL"@,
        "HARD"@,
        "EDIT"@,
        "[START]"@,
        "[QUIT]"@,
        "[SETTINGS]"@,
        "[CREDITS]"@,
    ]
}

/// Box `i` of a new title screen: the four choices are drawn with a frame, the four
/// buttons without one and in colours of their own.
pub open spec fn title_box(i: int) -> ChkModel<CBTitle> {
    let k = title_layout()[i].0;
    ChkModel {
        is_active: true,
        is_lock: false,
        mytype: k,
        parent: None,
        text: title_labels()[i],
        flg: title_layout()[i].1,
        fgcol: if k == CBTitle::Start {
            "7777FFFF"@
        } else if k == CBTitle::Quit {
            "FF7777FF"@
        } else if k == CBTitle::Settings {
            "77FFFFFF"@
        } else if k == CBTitle::Credits {
            "FFFFFFFF"@
        } else {
            "FFFF00FF"@
        },
        bgcol: "0000A0A0"@,
        is_absolute: k == CBTitle::Start || k == CBTitle::Credits,
        viewbox: i < 4,
        hitbox: false,
        help_txt: if k == CBTitle::Credits {
            "[CREDITS]\nLet's MINE SWEEPER v1.0"@
        } else {
            Seq::empty()
        },
    }
}

/// The share of mines, in thousandths, recommended for a board of `cells` panels:
/// 16% up to 300 panels, 20.7% for larger ones.
pub open spec fn recommend_rate(cells: int) -> int {
    if 0 <= cells <= 300 {
        160
    } else {
        207
    }
}

/// The number of mines recommended for a `width` x `height` board: its panels times
/// `recommend_rate`, divided by a thousand, rounded toward zero.
pub open spec fn recommended(width: int, height: int) -> int {
    let q = width * height * recommend_rate(width * height);
    if q >= 0 {
        q / 1000
    } else {
        -((-q) / 1000)
    }
}

/// The number of mines that the title screen recommends for the board size in its
/// text boxes.
pub fn recommended_bombs(width: i32, height: i32) -> (r: i32)
    requires
        i32::MIN <= width * height * recommend_rate(width * height) <= i32::MAX,
    ensures
        r == recommended(width as int, height as int),
{
    let w = width as i64;
    let h = height as i64;
    assert(-0x4000_0000_0000_0000 <= w * h <= 0x4000_0000_0000_0000) by (nonlinear_arith)
        requires
            -0x8000_0000 <= w <= 0x7fff_ffff,
            -0x8000_0000 <= h <= 0x7fff_ffff,
    ;
    let p: i64 = w * h;
    let rate: i64 = if 0 <= p && p <= 300 {
        160
    } else {
        207
    };
    let q: i64 = p * rate;
    if q >= 0 {
        (q / 1000) as i32
    } else {
        (-((-q) / 1000)) as i32
    }
}

/// What the title screen holds, as plain values.
pub struct TitleModel {
    pub boxes: Seq<ChkModel<CBTitle>>,
    pub width: TextModel,
    pub height: TextModel,
    pub bom: TextModel,
}

/// The boxes after a difficulty (or the board editor) was clicked: it alone is checked.
pub open spec fn only_checked(s: Seq<ChkModel<CBTitle>>, kind: CBTitle) -> Seq<ChkModel<CBTitle>> {
    set_flg_all(Seq::new(s.len(), |j: int| flag_set(s[j], false)), kind, true)
}

/// The board size and mine count that the title screen asks for.
pub open spec fn chosen_setting(t: TitleModel) -> (int, int, int) {
    if kind_flg(t.boxes, CBTitle::Easy) {
        (9, 9, 10)
    } else if kind_flg(t.boxes, CBTitle::Normal) {
        (16, 16, 40)
    } else if kind_flg(t.boxes, CBTitle::Hard) {
        (30, 16, 99)
    } else {
        (box_value(t.width), box_value(t.height), box_value(t.bom))
    }
}

/// The title boxes after the click that toggled box `i`: start, credits and settings
/// stay as toggled; any other box ends up the only one checked.
pub open spec fn title_clicked(s: Seq<ChkModel<CBTitle>>, i: int) -> Seq<ChkModel<CBTitle>> {
    let k = s[i].mytype;
    if k == CBTitle::Start || k == CBTitle::Credits || k == CBTitle::Settings {
        clicked(s, i)
    } else {
        only_checked(clicked(s, i), k)
    }
}

/// The title screen after a left click (`over[i]`: the mouse is over box `i`).
pub open spec fn title_after_click(t: TitleModel, over: Seq<bool>) -> TitleModel {
    if !any_clickable(t.boxes, over) {
        t
    } else {
        let i = first_click_index(t.boxes, over);
        TitleModel {
            boxes: title_clicked(t.boxes, i),
            width: if t.boxes[i].mytype == CBTitle::Edit {
                TextModel { focused: true, ..t.width }
            } else {
                t.width
            },
            ..t
        }
    }
}

/// The settings screen after that click: opened when the click hit Settings.
pub open spec fn setting_after_title_click(t: TitleModel, over: Seq<bool>, m: MngModel<CBSetting>) -> MngModel<
    CBSetting,
> {
    if any_clickable(t.boxes, over) && t.boxes[first_click_index(t.boxes, over)].mytype == CBTitle::Settings {
        MngModel { boxes: set_flg_all(m.boxes, CBSetting::Close, false), ..m }
    } else {
        m
    }
}

/// The text boxes after one frame: the mine box's maximum follows the board size,
/// then the width, height and mine boxes take their events in turn; when a focused
/// box gets Tab or Enter, the focus moves to the next box (the previous one with
/// shift) and the later boxes get no events in that frame.
pub open spec fn title_texts(
    t: TitleModel,
    ew: TxtEvent,
    eh: TxtEvent,
    eb: TxtEvent,
    tab_or_enter: bool,
) -> TitleModel {
    let bom0 = TextModel { max: (box_value(t.width) * box_value(t.height) - 1) as i32, ..t.bom };
    let w1 = updated(t.width, ew);
    if w1.focused && tab_or_enter {
        TitleModel {
            width: TextModel { focused: false, ..w1 },
            height: if w1.shift_on {
                t.height
            } else {
                TextModel { focused: true, ..t.height }
            },
            bom: if w1.shift_on {
                TextModel { focused: true, ..bom0 }
            } else {
                bom0
            },
            ..t
        }
    } else {
        let h1 = updated(t.height, eh);
        if h1.focused && tab_or_enter {
            TitleModel {
                width: if h1.shift_on {
                    TextModel { focused: true, ..w1 }
                } else {
                    w1
                },
                height: TextModel { focused: false, ..h1 },
                bom: if h1.shift_on {
                    bom0
                } else {
                    TextModel { focused: true, ..bom0 }
                },
                ..t
            }
        } else {
            let b1 = updated(bom0, eb);
            if b1.focused && tab_or_enter {
                TitleModel {
                    width: if b1.shift_on {
                        w1
                    } else {
                        TextModel { focused: true, ..w1 }
                    },
                    height: if b1.shift_on {
                        TextModel { focused: true, ..h1 }
                    } else {
                        h1
                    },
                    bom: TextModel { focused: false, ..b1 },
                    ..t
                }
            } else {
                TitleModel { width: w1, height: h1, bom: b1, ..t }
            }
        }
    }
}

/// One frame of the title screen: while the settings screen is open only it takes the
/// click; otherwise the text boxes take their events, then a left click (`pressed`)
/// hits the title boxes; Quit ends the program, Start (unchecked again) starts a game.
pub open spec fn title_frame(
    t: TitleModel,
    m: MngModel<CBSetting>,
    pressed: bool,
    over_title: Seq<bool>,
    over_setting: Seq<bool>,
    ew: TxtEvent,
    eh: TxtEvent,
    eb: TxtEvent,
    tab_or_enter: bool,
) -> (TitleModel, MngModel<CBSetting>, GameMode) {
    if !kind_flg(m.boxes, CBSetting::Close) {
        (
            t,
            if pressed {
                crate::setting::setting_clicked(m, over_setting)
            } else {
                m
            },
            GameMode::Title,
        )
    } else {
        let t1 = title_texts(t, ew, eh, eb, tab_or_enter);
        if !pressed || !any_clickable(t1.boxes, over_title) {
            (t1, m, GameMode::Title)
        } else {
            let t2 = title_after_click(t1, over_title);
            let m2 = setting_after_title_click(t1, over_title, m);
            if kind_flg(t2.boxes, CBTitle::Quit) {
                (t2, m2, GameMode::Quit)
            } else if kind_flg(t2.boxes, CBTitle::Start) {
                (
                    TitleModel { boxes: set_flg_all(t2.boxes, CBTitle::Start, false), ..t2 },
                    m2,
                    GameMode::Game,
                )
            } else {
                (t2, m2, GameMode::Title)
            }
        }
    }
}

/// The title screen: difficulty boxes, buttons, and the board editor's text boxes.
pub struct TitleMain {
    chkbox: ChkBoxMng<CBTitle>,
    txtwidth: TextBox,
    txtheight: TextBox,
    txtbom: TextBox,
}

impl View for TitleMain {
    type V = TitleModel;

    closed spec fn view(&self) -> TitleModel {
        TitleModel {
            boxes: self.chkbox@.boxes,
            width: self.txtwidth@,
            height: self.txtheight@,
            bom: self.txtbom@,
        }
    }
}

impl TitleModel {
    /// The editor's width and height stay between 5 and 35, and at least one mine.
    pub open spec fn inv(self) -> bool {
        &&& self.width.min == 5
        &&& self.width.max == 35
        &&& self.height.min == 5
        &&& self.height.max == 35
        &&& self.bom.min == 1
    }
}

impl TitleMain {
    /// The title screen with Normal checked and the editor at 10 x 10 with 16 mines.
    pub fn new() -> (r: TitleMain)
        ensures
            r@.inv(),
            r@.boxes.len() == title_layout().len(),
            forall|i: int| 0 <= i < title_layout().len() ==> #[trigger] r@.boxes[i] == title_box(i),
            r@.width == (TextModel { text: "10"@, min: 5, max: 35, focused: false, shift_on: false }),
            r@.height == (TextModel { text: "10"@, min: 5, max: 35, focused: false, shift_on: false }),
            r@.bom == (TextModel { text: "16"@, min: 1, max: 900, focused: false, shift_on: false }),
    {
        let mut gm = TitleMain {
            chkbox: ChkBoxMng::new(),
            txtwidth: TextBox::new("10", 5, 35),
            txtheight: TextBox::new("10", 5, 35),
            txtbom: TextBox::new("16", 1, 900),
        };
        gm.create_chkbox();
        gm
    }

    fn create_chkbox(&mut self)
        requires
            old(self)@.boxes.len() == 0,
        ensures
            final(self)@ == (TitleModel { boxes: final(self)@.boxes, ..old(self)@ }),
            final(self)@.boxes.len() == title_layout().len(),
            forall|i: int| 0 <= i < title_layout().len() ==> #[trigger] final(self)@.boxes[i] == title_box(i),
    {
        proof {
            reveal_strlit("7777FFFF");
            reveal_strlit("FF7777FF");
            reveal_strlit("77FFFFFF");
            reveal_strlit("");
        }
        self.chkbox.set_base("FFFF00FF", "0000A0A0");
        self.chkbox.add(CBTitle::Easy, "EASY".to_owned(), false, false);
        self.chkbox.add(CBTitle::Normal, "NORMAL".to_owned(), true, false);
        self.chkbox.add(CBTitle::Hard, "HARD".to_owned(), false, false);
        self.chkbox.add(CBTitle::Edit, "EDIT".to_owned(), false, false);
        self.chkbox.add(CBTitle::Start, "[START]".to_owned(), false, true);
        self.chkbox.view_box(CBTitle::Start, false);
        self.chkbox.set_col(CBTitle::Start, "7777FFFF", "");
        let ghost s5 = self@.boxes;
        assert forall|i: int| 0 <= i < 5 implies #[trigger] s5[i] == ChkModel { viewbox: i < 4, hitbox: false, ..title_box(i) } by {}
        self.chkbox.add(CBTitle::Quit, "[QUIT]".to_owned(), false, false);
        self.chkbox.set_col(CBTitle::Quit, "FF7777FF", "");
        self.chkbox.view_box(CBTitle::Quit, false);
        self.chkbox.add(CBTitle::Settings, "[SETTINGS]".to_owned(), false, false);
        self.chkbox.set_col(CBTitle::Settings, "77FFFFFF", "");
        self.chkbox.view_box(CBTitle::Settings, false);
        let ghost s7 = self@.boxes;
        assert forall|i: int| 0 <= i < 7 implies #[trigger] s7[i] == ChkModel { viewbox: i < 4, hitbox: false, ..title_box(i) } by {}
        self.chkbox.set_base("FFFFFFFF", "0000A0A0");
        self.chkbox.add(CBTitle::Credits, "[CREDITS]".to_owned(), false, true);
        self.chkbox.view_box(CBTitle::Credits, false);
        self.chkbox.set_help(CBTitle::Credits, "[CREDITS]\nLet's MINE SWEEPER v1.0");
        self.chkbox.view_hitbox(false);
        proof {
            assert forall|i: int| 0 <= i < 8 implies #[trigger] self@.boxes[i] == title_box(i) by {}
        }
    }

    /// The boxes of the screen.
    pub fn chkbox(&self) -> (r: &ChkBoxMng<CBTitle>)
        ensures
            r@.boxes == self@.boxes,
    {
        &self.chkbox
    }

    /// The editor's width box.
    pub fn txtwidth(&self) -> (r: &TextBox)
        ensures
            r@ == self@.width,
    {
        &self.txtwidth
    }

    /// The editor's height box.
    pub fn txtheight(&self) -> (r: &TextBox)
        ensures
            r@ == self@.height,
    {
        &self.txtheight
    }

    /// The editor's mine box.
    pub fn txtbom(&self) -> (r: &TextBox)
        ensures
            r@ == self@.bom,
    {
        &self.txtbom
    }

    /// One frame of the editor's text boxes (see `title_texts`); `tab_or_enter` says
    /// whether the frame's last key was Tab or Enter.
    pub fn txtbox_control(&mut self, ew: &TxtEvent, eh: &TxtEvent, eb: &TxtEvent, tab_or_enter: bool)
        requires
            old(self)@.inv(),
        ensures
            final(self)@ == title_texts(old(self)@, *ew, *eh, *eb, tab_or_enter),
            final(self)@.inv(),
    {
        let width = self.txtwidth.get_value();
        let height = self.txtheight.get_value();
        assert(0 <= width * height <= 1225) by (nonlinear_arith)
            requires
                5 <= width <= 35,
                5 <= height <= 35,
        ;
        self.txtbom.set_max(width * height - 1);
        let shift_on = self.txtwidth.update(ew);
        if self.txtwidth.is_focused() && tab_or_enter {
            self.txtwidth.focus_off();
            if shift_on {
                self.txtbom.focus();
            } else {
                self.txtheight.focus();
            }
            return;
        }
        let shift_on = self.txtheight.update(eh);
        if self.txtheight.is_focused() && tab_or_enter {
            self.txtheight.focus_off();
            if shift_on {
                self.txtwidth.focus();
            } else {
                self.txtbom.focus();
            }
            return;
        }
        let shift_on = self.txtbom.update(eb);
        if self.txtbom.is_focused() && tab_or_enter {
            self.txtbom.focus_off();
            if shift_on {
                self.txtheight.focus();
            } else {
                self.txtwidth.focus();
            }
            return;
        }
    }

    /// A left click on the title screen (`over[i]`: the mouse is over box `i`). Returns
    /// whether a box toggled. Settings opens the settings screen; a difficulty or the
    /// editor becomes the only box checked, and the editor focuses the width box.
    pub fn click_left(&mut self, over: &Vec<bool>, setting: &mut GameSettings) -> (r: bool)
        requires
            over@.len() == old(self)@.boxes.len(),
        ensures
            r == any_clickable(old(self)@.boxes, over@),
            final(self)@ == title_after_click(old(self)@, over@),
            final(setting)@ == setting_after_title_click(old(self)@, over@, old(setting)@),
    {
        match self.chkbox.click(over) {
            Some((kind, _flg)) => {
                match kind {
                    CBTitle::Start => {},
                    CBTitle::Credits => {},
                    CBTitle::Settings => {
                        setting.open();
                    },
                    _ => {
                        self.chkbox.clear_flg();
                        self.chkbox.set_flg(kind, true);
                        if kind.same(&CBTitle::Edit) {
                            self.txtwidth.focus();
                        }
                    },
                }
                true
            },
            None => false,
        }
    }

    /// The board size and mine count asked for: easy 9 x 9 with 10 mines, normal
    /// 16 x 16 with 40, hard 30 x 16 with 99, else the editor's values.
    pub fn get_setting(&self) -> (r: (i32, i32, i32))
        ensures
            (r.0 as int, r.1 as int, r.2 as int) == chosen_setting(self@),
    {
        if self.chkbox.get_flg(CBTitle::Easy) {
            (9, 9, 10)
        } else if self.chkbox.get_flg(CBTitle::Normal) {
            (16, 16, 40)
        } else if self.chkbox.get_flg(CBTitle::Hard) {
            (30, 16, 99)
        } else {
            (self.txtwidth.get_value(), self.txtheight.get_value(), self.txtbom.get_value())
        }
    }

    /// One frame of the title screen (see `title_frame`); `over_title` and
    /// `over_setting` say which boxes of each screen the mouse is over.
    pub fn titlecontrol(
        &mut self,
        setting: &mut GameSettings,
        pressed: bool,
        over_title: &Vec<bool>,
        over_setting: &Vec<bool>,
        ew: &TxtEvent,
        eh: &TxtEvent,
        eb: &TxtEvent,
        tab_or_enter: bool,
    ) -> (r: GameMode)
        requires
            old(self)@.inv(),
            over_title@.len() == old(self)@.boxes.len(),
            over_setting@.len() == old(setting)@.boxes.len(),
        ensures
            final(self)@.inv(),
            (final(self)@, final(setting)@, r) == title_frame(
                old(self)@,
                old(setting)@,
                pressed,
                over_title@,
                over_setting@,
                *ew,
                *eh,
                *eb,
                tab_or_enter,
            ),
    {
        if setting.is_open() {
            if pressed {
                setting.click(over_setting);
            }
            return GameMode::Title;
        }
        self.txtbox_control(ew, eh, eb, tab_or_enter);
        if !pressed {
            return GameMode::Title;
        }
        let is_update = self.click_left(over_title, setting);
        if !is_update {
            return GameMode::Title;
        }
        if self.chkbox.get_flg(CBTitle::Quit) {
            return GameMode::Quit;
        }
        if self.chkbox.get_flg(CBTitle::Start) {
            self.chkbox.set_flg(CBTitle::Start, false);
            return GameMode::Game;
        }
        GameMode::Title
    }
}

} // verus!
