use vstd::prelude::*;
use crate::chkbox::ChkKind;

verus! {

/// Check boxes of the title screen (first layout).
#[derive(Debug, Copy, Clone, PartialEq, Eq, Structural)]
pub enum ChkBoxTitle {
    Easy,
    Normal,
    Hard,
    Edit,
    Start,
    Quit,
}

/// Check boxes of the game screen (first layout).
#[derive(Debug, Copy, Clone, PartialEq, Eq, Structural)]
pub enum ChkBoxGame {
    CursolFlg,
    UndoFlg,
    BoldFlg,
    DangOn,
    SafeOn,
    DispAll,
    Title,
}

/// Which screen the program shows.
#[derive(Debug, Copy, Clone, PartialEq, Eq, Structural)]
pub enum GameMode {
    Title,
    Game,
    Quit,
}

/// State of one game.
#[derive(Debug, Copy, Clone, PartialEq, Eq, Structural)]
pub enum GameStat {
    Ready,
    Playing,
    Failed,
    Success,
}

/// Flag that the player put on a closed panel.
#[derive(Debug, Copy, Clone, PartialEq, Eq, Structural)]
pub enum UserFlg {
    NoFlg,
    RedFlg,
    BlueFlg,
}

/// Mark that the assist engine put on a panel.
#[derive(Debug, Copy, Clone, PartialEq, Eq, Structural)]
pub enum AutoSts {
    Unmarked,
    Safety,
    Danger,
    Unknown,
}

/// Check boxes of the title screen.
#[derive(Debug, Copy, Clone, PartialEq, Eq, Structural)]
pub enum CBTitle {
    Easy,
    Normal,
    Hard,
    Edit,
    Start,
    Quit,
    Settings,
    Credits,
}

/// Buttons of the game screen.
#[derive(Debug, Copy, Clone, PartialEq, Eq, Structural)]
pub enum CBGame {
    Reset,
    Settings,
    Title,
    HowTo,
}

/// Check boxes of the settings screen.
#[derive(Debug, Copy, Clone, PartialEq, Eq, Structural)]
pub enum CBSetting {
    CursolFlg,
    DragOpen,
    UseBlueFlg,
    BlueFlgFirst,
    HideOn,
    HideLv1,
    HideLv2,
    HideLv3,
    HideNumOn,
    HideNumLv1,
    HideNumLv2,
    HideNumLv3,
    BoldFlg,
    BoldSafeOn,
    Inference,
    SafeOn,
    DangOn,
    BelieveFlag,
    UndoFlg,
    DispAll,
    Close,
}

impl ChkKind for ChkBoxTitle {
    fn same(&self, other: &Self) -> (r: bool) {
        *self == *other
    }
}

impl ChkKind for ChkBoxGame {
    fn same(&self, other: &Self) -> (r: bool) {
        *self == *other
    }
}

impl ChkKind for CBTitle {
    fn same(&self, other: &Self) -> (r: bool) {
        *self == *other
    }
}

impl ChkKind for CBGame {
    fn same(&self, other: &Self) -> (r: bool) {
        *self == *other
    }
}

impl ChkKind for CBSetting {
    fn same(&self, other: &Self) -> (r: bool) {
        *self == *other
    }
}

} // verus!
