use vstd::prelude::*;

verus! {

/// A kind of check box, told apart by `same`.
pub trait ChkKind: Copy + Sized {
    /// Whether two kinds are the same.
    fn same(&self, other: &Self) -> (r: bool)
        ensures
            r == (*self == *other),
    ;
}

/// What a check box holds, as plain values (its place on the screen is kept by
/// the program that draws it).
pub struct ChkModel<T> {
    pub is_active: bool,
    pub is_lock: bool,
    pub mytype: T,
    pub parent: Option<T>,
    pub text: Seq<char>,
    pub flg: bool,
    pub fgcol: Seq<char>,
    pub bgcol: Seq<char>,
    pub is_absolute: bool,
    pub viewbox: bool,
    pub hitbox: bool,
    pub help_txt: Seq<char>,
}

impl<T> ChkModel<T> {
    /// The value the box reports: its check, or false while it is disabled.
    pub open spec fn reported(self) -> bool {
        self.is_active && self.flg
    }
}

/// A check box: a flag that the user toggles, possibly the child of another box.
pub struct ChkBox<T> {
    is_active: bool,
    is_lock: bool,
    mytype: T,
    parent: Option<T>,
    text: String,
    flg: bool,
    fgcol: String,
    bgcol: String,
    is_absolute: bool,
    viewbox: bool,
    hitbox: bool,
    help_txt: String,
}

impl<T> View for ChkBox<T> {
    type V = ChkModel<T>;

    closed spec fn view(&self) -> ChkModel<T> {
        ChkModel {
            is_active: self.is_active,
            is_lock: self.is_lock,
            mytype: self.mytype,
            parent: self.parent,
            text: self.text@,
            flg: self.flg,
            fgcol: self.fgcol@,
            bgcol: self.bgcol@,
            is_absolute: self.is_absolute,
            viewbox: self.viewbox,
            hitbox: self.hitbox,
            help_txt: self.help_txt@,
        }
    }
}

impl<T: ChkKind> ChkBox<T> {
    /// A check box of kind `mytype` (a child of `parent` when given), showing `text`.
    pub fn new(
        mytype: T,
        parent: Option<T>,
        is_active: bool,
        text: String,
        flg: bool,
        is_absolute: bool,
        fgcol: String,
        bgcol: String,
    ) -> (r: ChkBox<T>)
        ensures
            r@ == (ChkModel {
                is_active,
                is_lock: false,
                mytype,
                parent,
                text: text@,
                flg,
                fgcol: fgcol@,
                bgcol: bgcol@,
                is_absolute,
                viewbox: true,
                hitbox: false,
                help_txt: Seq::<char>::empty(),
            }),
    {
        ChkBox {
            is_active,
            is_lock: false,
            mytype,
            text,
            is_absolute,
            fgcol,
            bgcol,
            flg,
            parent,
            viewbox: true,
            hitbox: false,
            help_txt: String::new(),
        }
    }

    /// A click while the mouse is over the box (`is_over`) toggles an enabled,
    /// unlocked box. Returns whether it toggled.
    pub fn click(&mut self, is_over: bool) -> (r: bool)
        ensures
            r == (old(self)@.is_active && !old(self)@.is_lock && is_over),
            final(self)@ == (ChkModel { flg: if r {
                !old(self)@.flg
            } else {
                old(self)@.flg
            }, ..old(self)@ }),
    {
        if !self.is_active || self.is_lock {
            return false;
        }
        if is_over {
            self.flg = !self.flg;
            true
        } else {
            false
        }
    }

    /// The mouse is over the box (`is_over`) and the box is enabled.
    pub fn is_mouse_over(&self, is_over: bool) -> (r: bool)
        ensures
            r == (self@.is_active && is_over),
    {
        self.is_active && is_over
    }

    /// The kind of the box.
    pub fn get_type(&self) -> (r: T)
        ensures
            r == self@.mytype,
    {
        self.mytype
    }

    /// The kind of the parent box, if any.
    pub fn get_parent(&self) -> (r: Option<T>)
        ensures
            r == self@.parent,
    {
        self.parent
    }

    /// Sets the colours; an empty string keeps the current one.
    pub fn set_col(&mut self, fgcol: String, bgcol: String)
        ensures
            final(self)@ == (ChkModel {
                fgcol: if fgcol@.len() > 0 {
                    fgcol@
                } else {
                    old(self)@.fgcol
                },
                bgcol: if bgcol@.len() > 0 {
                    bgcol@
                } else {
                    old(self)@.bgcol
                },
                ..old(self)@
            }),
    {
        if !fgcol.as_str().is_empty() {
            self.fgcol = fgcol;
        }
        if !bgcol.as_str().is_empty() {
            self.bgcol = bgcol;
        }
    }

    /// Sets the help text.
    pub fn set_help(&mut self, help_txt: &str)
        ensures
            final(self)@ == (ChkModel { help_txt: help_txt@, ..old(self)@ }),
    {
        self.help_txt = help_txt.to_owned();
    }

    /// The help text.
    pub fn get_help(&self) -> (r: &str)
        ensures
            r@ == self@.help_txt,
    {
        self.help_txt.as_str()
    }

    /// The text shown.
    pub fn get_text(&self) -> (r: &str)
        ensures
            r@ == self@.text,
    {
        self.text.as_str()
    }

    /// The text colour.
    pub fn get_fgcol(&self) -> (r: &str)
        ensures
            r@ == self@.fgcol,
    {
        self.fgcol.as_str()
    }

    /// The outline colour.
    pub fn get_bgcol(&self) -> (r: &str)
        ensures
            r@ == self@.bgcol,
    {
        self.bgcol.as_str()
    }

    /// Whether the box is placed at an absolute position.
    pub fn is_absolute(&self) -> (r: bool)
        ensures
            r == self@.is_absolute,
    {
        self.is_absolute
    }

    /// Enables or disables the box.
    pub fn set_active_flg(&mut self, flg: bool)
        ensures
            final(self)@ == (ChkModel { is_active: flg, ..old(self)@ }),
    {
        self.is_active = flg;
    }

    /// Whether the box is enabled.
    pub fn is_active(&self) -> (r: bool)
        ensures
            r == self@.is_active,
    {
        self.is_active
    }

    /// Locks or unlocks the box (a locked box keeps its value).
    pub fn set_lock_flg(&mut self, flg: bool)
        ensures
            final(self)@ == (ChkModel { is_lock: flg, ..old(self)@ }),
    {
        self.is_lock = flg;
    }

    /// Whether the box is locked.
    pub fn is_lock(&self) -> (r: bool)
        ensures
            r == self@.is_lock,
    {
        self.is_lock
    }

    /// Shows or hides the hit box.
    pub fn view_hitbox(&mut self, flg: bool)
        ensures
            final(self)@ == (ChkModel { hitbox: flg, ..old(self)@ }),
    {
        self.hitbox = flg;
    }

    /// Whether the hit box is shown.
    pub fn is_hitbox(&self) -> (r: bool)
        ensures
            r == self@.hitbox,
    {
        self.hitbox
    }

    /// Shows or hides the check mark.
    pub fn view_box(&mut self, viewbox: bool)
        ensures
            final(self)@ == (ChkModel { viewbox, ..old(self)@ }),
    {
        self.viewbox = viewbox;
    }

    /// Whether the check mark is shown.
    pub fn is_viewbox(&self) -> (r: bool)
        ensures
            r == self@.viewbox,
    {
        self.viewbox
    }

    /// The value of the box: its check, or false while it is disabled.
    pub fn get_flg(&self) -> (r: bool)
        ensures
            r == self@.reported(),
    {
        if !self.is_active {
            return false;
        }
        self.flg
    }

    /// The check itself, whether the box is enabled or not.
    pub fn is_checked(&self) -> (r: bool)
        ensures
            r == self@.flg,
    {
        self.flg
    }

    /// Sets the check of an enabled, unlocked box.
    pub fn set_flg(&mut self, flg: bool)
        ensures
            final(self)@ == (ChkModel {
                flg: if old(self)@.is_active && !old(self)@.is_lock {
                    flg
                } else {
                    old(self)@.flg
                },
                ..old(self)@
            }),
    {
        if self.is_active && !self.is_lock {
            self.flg = flg;
        }
    }
}

} // verus!
