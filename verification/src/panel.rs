use vstd::prelude::*;
use crate::myconst::{AutoSts, UserFlg};
use crate::utils::{get_index, lemma_all_indices_fit, spec_get_index};

verus! {

/// What a panel holds, as plain values.
pub struct PanelModel {
    pub pos_x: int,
    pub pos_y: int,
    pub index: int,
    pub is_open: bool,
    pub is_bom: bool,
    pub is_bold: bool,
    pub auto_flg: AutoSts,
    pub userflg: UserFlg,
    /// The indices of the 3x3 cells centred on the panel, row by row
    /// (`-1` where the cell is off the board); entry 4 is the panel itself.
    pub around: Seq<int>,
    pub around_num: int,
}

/// The 3x3 neighbourhood of `(x, y)`, row by row, as panel indices.
pub open spec fn around_of(x: int, y: int, width: int, height: int) -> Seq<int> {
    Seq::new(9, |k: int| spec_get_index(x + k % 3 - 1, y + k / 3 - 1, width, height))
}

/// One cell of the board.
#[derive(Clone, Copy, PartialEq, Eq)]
pub struct Panel {
    pos_x: i32,
    pos_y: i32,
    index: i32,
    is_open: bool,
    is_bom: bool,
    is_bold: bool,
    auto_flg: AutoSts,
    userflg: UserFlg,
    around_tbl: [[i32; 3]; 3],
    around_num: i32,
}

impl View for Panel {
    type V = PanelModel;

    closed spec fn view(&self) -> PanelModel {
        PanelModel {
            pos_x: self.pos_x as int,
            pos_y: self.pos_y as int,
            index: self.index as int,
            is_open: self.is_open,
            is_bom: self.is_bom,
            is_bold: self.is_bold,
            auto_flg: self.auto_flg,
            userflg: self.userflg,
            around: Seq::new(9, |k: int| self.around_tbl@[k / 3]@[k % 3] as int),
            around_num: self.around_num as int,
        }
    }
}

/// The flag that a right click puts on a panel that holds `flg`. Without blue
/// flags the cycle is none, red, none; with them it is none, red, blue, none,
/// or none, blue, red, none when blue comes first.
pub open spec fn spec_next_userflg(flg: UserFlg, use_blueflg: bool, blueflg_first: bool) -> UserFlg {
    if !use_blueflg {
        match flg {
            UserFlg::NoFlg => UserFlg::RedFlg,
            _ => UserFlg::NoFlg,
        }
    } else if blueflg_first {
        match flg {
            UserFlg::NoFlg => UserFlg::BlueFlg,
            UserFlg::BlueFlg => UserFlg::RedFlg,
            UserFlg::RedFlg => UserFlg::NoFlg,
        }
    } else {
        match flg {
            UserFlg::NoFlg => UserFlg::RedFlg,
            UserFlg::RedFlg => UserFlg::BlueFlg,
            UserFlg::BlueFlg => UserFlg::NoFlg,
        }
    }
}

/// The next flag in the right-click cycle (see `spec_next_userflg`).
pub fn next_userflg(flg: UserFlg, use_blueflg: bool, blueflg_first: bool) -> (r: UserFlg)
    ensures
        r == spec_next_userflg(flg, use_blueflg, blueflg_first),
{
    if !use_blueflg {
        match flg {
            UserFlg::NoFlg => UserFlg::RedFlg,
            _ => UserFlg::NoFlg,
        }
    } else if blueflg_first {
        match flg {
            UserFlg::NoFlg => UserFlg::BlueFlg,
            UserFlg::BlueFlg => UserFlg::RedFlg,
            UserFlg::RedFlg => UserFlg::NoFlg,
        }
    } else {
        match flg {
            UserFlg::NoFlg => UserFlg::RedFlg,
            UserFlg::RedFlg => UserFlg::BlueFlg,
            UserFlg::BlueFlg => UserFlg::NoFlg,
        }
    }
}

/// Right clicks cycle: with blue flags three of them bring a panel back to the flag it
/// had, without blue flags two of them do.
pub proof fn lemma_flag_cycle(flg: UserFlg, use_blueflg: bool, blueflg_first: bool)
    ensures
        use_blueflg ==> spec_next_userflg(
            spec_next_userflg(spec_next_userflg(flg, true, blueflg_first), true, blueflg_first),
            true,
            blueflg_first,
        ) == flg,
        !use_blueflg && flg != UserFlg::BlueFlg ==> spec_next_userflg(
            spec_next_userflg(flg, false, blueflg_first),
            false,
            blueflg_first,
        ) == flg,
        !use_blueflg ==> spec_next_userflg(flg, false, blueflg_first) != UserFlg::BlueFlg,
{
}

impl Panel {
    /// A closed, empty panel at `(pos_x, pos_y)` of a `width` x `height` board.
    pub fn new(pos_x: i32, pos_y: i32, width: i32, height: i32) -> (r: Panel)
        requires
            i32::MIN < pos_x < i32::MAX,
            i32::MIN < pos_y < i32::MAX,
            0 < width && 0 < height ==> width * height <= i32::MAX + 1,
        ensures
            r@ == (PanelModel {
                pos_x: pos_x as int,
                pos_y: pos_y as int,
                index: spec_get_index(pos_x as int, pos_y as int, width as int, height as int),
                is_open: false,
                is_bom: false,
                is_bold: false,
                auto_flg: AutoSts::Unmarked,
                userflg: UserFlg::NoFlg,
                around: around_of(pos_x as int, pos_y as int, width as int, height as int),
                around_num: 0,
            }),
    {
        proof {
            lemma_all_indices_fit(width as int, height as int);
        }
        let index = get_index(pos_x, pos_y, width, height);
        let a0 = get_index(pos_x - 1, pos_y - 1, width, height);
        let a1 = get_index(pos_x, pos_y - 1, width, height);
        let a2 = get_index(pos_x + 1, pos_y - 1, width, height);
        let a3 = get_index(pos_x - 1, pos_y, width, height);
        let a4 = get_index(pos_x, pos_y, width, height);
        let a5 = get_index(pos_x + 1, pos_y, width, height);
        let a6 = get_index(pos_x - 1, pos_y + 1, width, height);
        let a7 = get_index(pos_x, pos_y + 1, width, height);
        let a8 = get_index(pos_x + 1, pos_y + 1, width, height);
        let panel = Panel {
            pos_x,
            pos_y,
            index,
            is_open: false,
            is_bom: false,
            is_bold: false,
            userflg: UserFlg::NoFlg,
            around_num: 0,
            auto_flg: AutoSts::Unmarked,
            around_tbl: [[a0, a1, a2], [a3, a4, a5], [a6, a7, a8]],
        };
        proof {
            assert(panel@.around =~= around_of(
                pos_x as int,
                pos_y as int,
                width as int,
                height as int,
            ));
        }
        panel
    }

    /// Opens the panel.
    pub fn open(&mut self)
        ensures
            final(self)@ == (PanelModel { is_open: true, ..old(self)@ }),
    {
        self.is_open = true;
        proof {
            assert(self@.around =~= old(self)@.around);
        }
    }

    /// Whether the panel is open.
    pub fn is_open(&self) -> (r: bool)
        ensures
            r == self@.is_open,
    {
        self.is_open
    }

    /// Whether the panel is an open mine.
    pub fn is_bomopen(&self) -> (r: bool)
        ensures
            r == (self@.is_open && self@.is_bom),
    {
        self.is_open && self.is_bom
    }

    /// Moves the flag one step along the cycle none, red, blue, none.
    pub fn userflg(&mut self)
        ensures
            final(self)@ == (PanelModel {
                userflg: spec_next_userflg(old(self)@.userflg, true, false),
                ..old(self)@
            }),
    {
        self.userflg =
        match self.userflg {
            UserFlg::NoFlg => UserFlg::RedFlg,
            UserFlg::RedFlg => UserFlg::BlueFlg,
            UserFlg::BlueFlg => UserFlg::NoFlg,
        };
        proof {
            assert(self@.around =~= old(self)@.around);
        }
    }

    /// Puts `flg` on the panel.
    pub fn set_userflg(&mut self, flg: UserFlg)
        ensures
            final(self)@ == (PanelModel { userflg: flg, ..old(self)@ }),
    {
        self.userflg = flg;
        proof {
            assert(self@.around =~= old(self)@.around);
        }
    }

    /// The flag on the panel.
    pub fn get_userflg(&self) -> (r: UserFlg)
        ensures
            r == self@.userflg,
    {
        self.userflg
    }

    /// The indices of the 3x3 cells centred on the panel (`-1` off the board).
    pub fn get_around_tbl(&self) -> (r: [[i32; 3]; 3])
        ensures
            forall|k: int| 0 <= k < 9 ==> r@[k / 3]@[k % 3] as int == #[trigger] self@.around[k],
    {
        self.around_tbl
    }

    /// Puts the assist mark `flg` on the panel.
    pub fn set_autoflag(&mut self, flg: AutoSts)
        ensures
            final(self)@ == (PanelModel { auto_flg: flg, ..old(self)@ }),
    {
        self.auto_flg = flg;
        proof {
            assert(self@.around =~= old(self)@.around);
        }
    }

    /// The assist mark of the panel.
    pub fn get_autoflag(&self) -> (r: AutoSts)
        ensures
            r == self@.auto_flg,
    {
        self.auto_flg
    }

    /// Turns emphasis on.
    pub fn bold_on(&mut self)
        ensures
            final(self)@ == (PanelModel { is_bold: true, ..old(self)@ }),
    {
        self.is_bold = true;
        proof {
            assert(self@.around =~= old(self)@.around);
        }
    }

    /// Turns emphasis off.
    pub fn bold_off(&mut self)
        ensures
            final(self)@ == (PanelModel { is_bold: false, ..old(self)@ }),
    {
        self.is_bold = false;
        proof {
            assert(self@.around =~= old(self)@.around);
        }
    }

    /// Whether the panel is emphasised.
    pub fn is_bold(&self) -> (r: bool)
        ensures
            r == self@.is_bold,
    {
        self.is_bold
    }

    /// The position of the panel on the board.
    pub fn get_pos(&self) -> (r: (i32, i32))
        ensures
            r.0 == self@.pos_x,
            r.1 == self@.pos_y,
    {
        (self.pos_x, self.pos_y)
    }

    /// The number of mines around the panel.
    pub fn get_around_num(&self) -> (r: i32)
        ensures
            r == self@.around_num,
    {
        self.around_num
    }

    /// Puts a mine on the panel; a mine shows no number.
    pub fn bomon(&mut self)
        ensures
            final(self)@ == (PanelModel { is_bom: true, around_num: 0, ..old(self)@ }),
    {
        self.is_bom = true;
        self.around_num = 0;
        proof {
            assert(self@.around =~= old(self)@.around);
        }
    }

    /// Whether the panel holds a mine.
    pub fn is_bom(&self) -> (r: bool)
        ensures
            r == self@.is_bom,
    {
        self.is_bom
    }

    /// Whether two panels hold the same values.
    pub fn same(&self, other: &Panel) -> (r: bool)
        ensures
            r == (self@ == other@),
    {
        let a = self.around_tbl;
        let b = other.around_tbl;
        let same_tbl = a[0][0] == b[0][0] && a[0][1] == b[0][1] && a[0][2] == b[0][2] && a[1][0]
            == b[1][0] && a[1][1] == b[1][1] && a[1][2] == b[1][2] && a[2][0] == b[2][0]
            && a[2][1] == b[2][1] && a[2][2] == b[2][2];
        proof {
            if same_tbl {
                assert(self@.around =~= other@.around);
            } else {
                assert(exists|k: int| 0 <= k < 9 && self@.around[k] != other@.around[k]) by {
                    if a[0][0] != b[0][0] {
                        assert(self@.around[0] != other@.around[0]);
                    } else if a[0][1] != b[0][1] {
                        assert(self@.around[1] != other@.around[1]);
                    } else if a[0][2] != b[0][2] {
                        assert(self@.around[2] != other@.around[2]);
                    } else if a[1][0] != b[1][0] {
                        assert(self@.around[3] != other@.around[3]);
                    } else if a[1][1] != b[1][1] {
                        assert(self@.around[4] != other@.around[4]);
                    } else if a[1][2] != b[1][2] {
                        assert(self@.around[5] != other@.around[5]);
                    } else if a[2][0] != b[2][0] {
                        assert(self@.around[6] != other@.around[6]);
                    } else if a[2][1] != b[2][1] {
                        assert(self@.around[7] != other@.around[7]);
                    } else {
                        assert(self@.around[8] != other@.around[8]);
                    }
                }
            }
        }
        self.pos_x == other.pos_x && self.pos_y == other.pos_y && self.index == other.index
            && self.is_open == other.is_open && self.is_bom == other.is_bom && self.is_bold
            == other.is_bold && self.auto_flg == other.auto_flg && self.userflg == other.userflg
            && self.around_num == other.around_num && same_tbl
    }

    /// Counts one more mine around the panel, unless it is a mine itself.
    pub fn num_up(&mut self)
        requires
            !old(self)@.is_bom ==> old(self)@.around_num < i32::MAX,
        ensures
            final(self)@ == (PanelModel {
                around_num: if old(self)@.is_bom {
                    old(self)@.around_num
                } else {
                    old(self)@.around_num + 1
                },
                ..old(self)@
            }),
    {
        if !self.is_bom {
            self.around_num += 1;
        }
        proof {
            assert(self@.around =~= old(self)@.around);
        }
    }

    /// Whether the panel is among the 3x3 cells around the cursor `(cursol_x,
    /// cursol_y)`; every panel counts when `is_alldraw`.
    pub fn cursol_around(&self, cursol_x: i32, cursol_y: i32, is_alldraw: bool) -> (r: bool)
        requires
            !is_alldraw ==> i32::MIN < cursol_x - self@.pos_x <= i32::MAX,
            !is_alldraw && -1 <= cursol_x - self@.pos_x <= 1 ==> i32::MIN < cursol_y - self@.pos_y
                <= i32::MAX,
        ensures
            r == (is_alldraw || (-1 <= cursol_x - self@.pos_x <= 1 && -1 <= cursol_y - self@.pos_y
                <= 1)),
    {
        if is_alldraw {
            return true;
        }
        let dx = cursol_x - self.pos_x;
        if !(-1 <= dx && dx <= 1) {
            return false;
        }
        let dy = cursol_y - self.pos_y;
        -1 <= dy && dy <= 1
    }

    /// Whether the panel stays in view at hiding level `lv` with the cursor at
    /// `(cursol_x, cursol_y)`: every panel at level 0 (or below), the 5x5 cells around
    /// the cursor at level 1, the 3x3 cells at level 2, the cursor cell alone at level 3.
    pub fn within_hide(&self, lv: i32, cursol_x: i32, cursol_y: i32) -> (r: bool)
        ensures
            r == (lv <= 0 || (-(3 - lv) <= cursol_x - self@.pos_x <= 3 - lv && -(3 - lv) <= cursol_y
                - self@.pos_y <= 3 - lv)),
    {
        if lv <= 0 {
            return true;
        }
        let r: i64 = 3 - lv as i64;
        let dx: i64 = cursol_x as i64 - self.pos_x as i64;
        let dy: i64 = cursol_y as i64 - self.pos_y as i64;
        -r <= dx && dx <= r && -r <= dy && dy <= r
    }

    /// The assist mark that a closed panel shows: its mark when it is near the cursor
    /// (`is_cursol_around`) and carries no flag, `Unmarked` otherwise.
    pub fn shown_mark(&self, is_cursol_around: bool) -> (r: AutoSts)
        ensures
            r == if !self@.is_open && is_cursol_around && self@.userflg == UserFlg::NoFlg {
                self@.auto_flg
            } else {
                AutoSts::Unmarked
            },
    {
        if !self.is_open && is_cursol_around && self.userflg == UserFlg::NoFlg {
            self.auto_flg
        } else {
            AutoSts::Unmarked
        }
    }
}

} // verus!
