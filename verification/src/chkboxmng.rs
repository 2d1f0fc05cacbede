use vstd::prelude::*;
use crate::chkbox::{ChkBox, ChkKind, ChkModel};

verus! {

/// What a set of check boxes holds, as plain values: the boxes in the order they were
/// added, and the colours that new boxes take.
pub struct MngModel<T> {
    pub boxes: Seq<ChkModel<T>>,
    pub fgcol: Seq<char>,
    pub bgcol: Seq<char>,
}

/// A box after `set_flg(flg)`: an enabled, unlocked box takes the check.
pub open spec fn flag_set<T>(m: ChkModel<T>, flg: bool) -> ChkModel<T> {
    ChkModel {
        flg: if m.is_active && !m.is_lock {
            flg
        } else {
            m.flg
        },
        ..m
    }
}

/// The children of box `p` enabled exactly when `p` reports a check.
pub open spec fn onoff<T>(s: Seq<ChkModel<T>>, p: int) -> Seq<ChkModel<T>> {
    Seq::new(
        s.len(),
        |j: int|
            if s[j].parent == Some(s[p].mytype) {
                ChkModel { is_active: s[p].reported(), ..s[j] }
            } else {
                s[j]
            },
    )
}

/// `set_flg` applied to the boxes `0..k` of kind `t`, in turn, each followed by the
/// update of its children.
pub open spec fn set_flg_upto<T>(s: Seq<ChkModel<T>>, t: T, flg: bool, k: nat) -> Seq<ChkModel<T>>
    decreases k,
{
    if k == 0 {
        s
    } else {
        let s1 = set_flg_upto(s, t, flg, (k - 1) as nat);
        if s1[k - 1].mytype == t {
            onoff(s1.update(k - 1, flag_set(s1[k - 1], flg)), k - 1)
        } else {
            s1
        }
    }
}

/// The boxes after `set_flg(t, flg)`.
pub open spec fn set_flg_all<T>(s: Seq<ChkModel<T>>, t: T, flg: bool) -> Seq<ChkModel<T>> {
    set_flg_upto(s, t, flg, s.len())
}

/// Checks and enablings change neither the number, the kinds nor the parents of boxes.
pub proof fn lemma_set_flg_upto_shape<T>(s: Seq<ChkModel<T>>, t: T, flg: bool, k: nat)
    requires
        k <= s.len(),
    ensures
        set_flg_upto(s, t, flg, k).len() == s.len(),
        forall|j: int|
            0 <= j < s.len() ==> (#[trigger] set_flg_upto(s, t, flg, k)[j]).mytype == s[j].mytype
                && set_flg_upto(s, t, flg, k)[j].parent == s[j].parent && set_flg_upto(s, t, flg, k)[j].is_lock
                == s[j].is_lock,
    decreases k,
{
    if k > 0 {
        lemma_set_flg_upto_shape(s, t, flg, (k - 1) as nat);
    }
}

/// Setting the check of kind `t` leaves alone the boxes of another kind that are not
/// children of `t`.
pub proof fn lemma_set_flg_upto_other<T>(s: Seq<ChkModel<T>>, t: T, flg: bool, k: nat)
    requires
        k <= s.len(),
    ensures
        forall|j: int|
            0 <= j < s.len() && s[j].mytype != t && s[j].parent != Some(t) ==> #[trigger] set_flg_upto(
                s,
                t,
                flg,
                k,
            )[j] == s[j],
    decreases k,
{
    if k > 0 {
        lemma_set_flg_upto_other(s, t, flg, (k - 1) as nat);
        lemma_set_flg_upto_shape(s, t, flg, (k - 1) as nat);
    }
}

/// Setting the check of kind `t` sets each box of kind `t` that is not itself a child
/// of `t` as `flag_set` says.
pub proof fn lemma_set_flg_upto_own<T>(s: Seq<ChkModel<T>>, t: T, flg: bool, k: nat)
    requires
        k <= s.len(),
    ensures
        forall|j: int|
            0 <= j < s.len() && s[j].mytype == t && s[j].parent != Some(t) ==> #[trigger] set_flg_upto(
                s,
                t,
                flg,
                k,
            )[j] == if j < k {
                flag_set(s[j], flg)
            } else {
                s[j]
            },
    decreases k,
{
    if k > 0 {
        lemma_set_flg_upto_own(s, t, flg, (k - 1) as nat);
        lemma_set_flg_upto_shape(s, t, flg, (k - 1) as nat);
    }
}

/// The value of a kind only depends on the kinds of the boxes and on its own boxes.
pub proof fn lemma_kind_flg_same<T>(a: Seq<ChkModel<T>>, b: Seq<ChkModel<T>>, t: T)
    requires
        a.len() == b.len(),
        forall|j: int| 0 <= j < a.len() ==> (#[trigger] b[j]).mytype == a[j].mytype,
        forall|j: int| 0 <= j < a.len() && a[j].mytype == t ==> (#[trigger] b[j]).reported() == a[j].reported(),
    ensures
        kind_flg(a, t) == kind_flg(b, t),
{
    if kind_flg(a, t) {
        let i = choose|i: int| #[trigger] first_of_kind(a, t, i) && a[i].reported();
        assert forall|j: int| 0 <= j < i implies (#[trigger] b[j]).mytype != t by {
            assert(a[j].mytype != t);
        }
        assert(first_of_kind(b, t, i));
    }
    if kind_flg(b, t) {
        let i = choose|i: int| #[trigger] first_of_kind(b, t, i) && b[i].reported();
        assert forall|j: int| 0 <= j < i implies (#[trigger] a[j]).mytype != t by {
            assert(b[j].mytype != t);
        }
        assert(first_of_kind(a, t, i));
    }
}

/// The boxes after `set_lock_flg(t, flg)`: boxes of kind `t` and their children.
pub open spec fn lock_set<T>(s: Seq<ChkModel<T>>, t: T, flg: bool) -> Seq<ChkModel<T>> {
    Seq::new(
        s.len(),
        |j: int|
            if s[j].mytype == t || s[j].parent == Some(t) {
                ChkModel { is_lock: flg, ..s[j] }
            } else {
                s[j]
            },
    )
}

/// The boxes after `set_active_flg(t, flg)`.
pub open spec fn active_set<T>(s: Seq<ChkModel<T>>, t: T, flg: bool) -> Seq<ChkModel<T>> {
    Seq::new(
        s.len(),
        |j: int|
            if s[j].mytype == t {
                ChkModel { is_active: flg, ..s[j] }
            } else {
                s[j]
            },
    )
}

/// Box `i` is the first box of kind `t`.
pub open spec fn first_of_kind<T>(s: Seq<ChkModel<T>>, t: T, i: int) -> bool {
    &&& 0 <= i < s.len()
    &&& s[i].mytype == t
    &&& forall|j: int| 0 <= j < i ==> (#[trigger] s[j]).mytype != t
}

/// The value of kind `t`: what its first box reports, false without such a box.
pub open spec fn kind_flg<T>(s: Seq<ChkModel<T>>, t: T) -> bool {
    exists|i: int| #[trigger] first_of_kind(s, t, i) && s[i].reported()
}

/// A click while the mouse is over the box toggles it.
pub open spec fn clickable<T>(m: ChkModel<T>, over: bool) -> bool {
    m.is_active && !m.is_lock && over
}

/// Box `i` is the first box that a click toggles.
pub open spec fn first_clickable<T>(s: Seq<ChkModel<T>>, over: Seq<bool>, i: int) -> bool {
    &&& 0 <= i < s.len()
    &&& clickable(s[i], over[i])
    &&& forall|j: int| 0 <= j < i ==> !clickable(#[trigger] s[j], over[j])
}

/// Some box toggles on a click.
pub open spec fn any_clickable<T>(s: Seq<ChkModel<T>>, over: Seq<bool>) -> bool {
    exists|i: int| 0 <= i < s.len() && clickable(#[trigger] s[i], over[i])
}

/// The box that a click toggles (meaningful when `any_clickable`).
pub open spec fn first_click_index<T>(s: Seq<ChkModel<T>>, over: Seq<bool>) -> int {
    choose|i: int| first_clickable(s, over, i)
}

/// There is one first box that a click toggles.
pub proof fn lemma_first_clickable_unique<T>(s: Seq<ChkModel<T>>, over: Seq<bool>, i: int, j: int)
    requires
        first_clickable(s, over, i),
        first_clickable(s, over, j),
    ensures
        i == j,
{
    if i < j {
        assert(!clickable(s[i], over[i]));
    }
    if j < i {
        assert(!clickable(s[j], over[j]));
    }
}

/// When some box toggles, the first of them is `first_click_index`.
pub proof fn lemma_first_click_index<T>(s: Seq<ChkModel<T>>, over: Seq<bool>, i: int)
    requires
        first_clickable(s, over, i),
    ensures
        first_click_index(s, over) == i,
{
    lemma_first_clickable_unique(s, over, i, first_click_index(s, over));
}

/// Searching from `k` up to a box `w` that toggles finds the first box that toggles.
proof fn lemma_first_click_from<T>(s: Seq<ChkModel<T>>, over: Seq<bool>, k: int, w: int)
    requires
        0 <= k <= w < s.len(),
        clickable(s[w], over[w]),
        forall|j: int| 0 <= j < k ==> !clickable(#[trigger] s[j], over[j]),
    ensures
        first_clickable(s, over, first_click_index(s, over)),
    decreases w - k,
{
    if clickable(s[k], over[k]) {
        assert(first_clickable(s, over, k));
        lemma_first_click_index(s, over, k);
    } else {
        lemma_first_click_from(s, over, k + 1, w);
    }
}

/// When some box toggles there is a first one.
pub proof fn lemma_first_click_exists<T>(s: Seq<ChkModel<T>>, over: Seq<bool>)
    requires
        any_clickable(s, over),
    ensures
        first_clickable(s, over, first_click_index(s, over)),
{
    let w = choose|i: int| 0 <= i < s.len() && clickable(#[trigger] s[i], over[i]);
    lemma_first_click_from(s, over, 0, w);
}

/// The boxes after a click toggled box `i`, its children following it.
pub open spec fn clicked<T>(s: Seq<ChkModel<T>>, i: int) -> Seq<ChkModel<T>> {
    onoff(s.update(i, ChkModel { flg: !s[i].flg, ..s[i] }), i)
}

/// Box `i` is the first enabled box under the mouse.
pub open spec fn first_over<T>(s: Seq<ChkModel<T>>, over: Seq<bool>, i: int) -> bool {
    &&& 0 <= i < s.len()
    &&& s[i].is_active && over[i]
    &&& forall|j: int| 0 <= j < i ==> !((#[trigger] s[j]).is_active && over[j])
}

/// The enabled children of box `p` among the boxes `0..k`, in order.
pub open spec fn children_upto<T>(s: Seq<ChkModel<T>>, p: int, k: nat) -> Seq<int>
    decreases k,
{
    if k == 0 {
        Seq::empty()
    } else {
        let c = children_upto(s, p, (k - 1) as nat);
        if s[k - 1].is_active && s[k - 1].parent == Some(s[p].mytype) {
            c.push(k - 1)
        } else {
            c
        }
    }
}

/// The order in which the boxes `0..k` are stacked on the screen: each enabled box
/// without a parent, followed by its enabled children.
pub open spec fn stack_upto<T>(s: Seq<ChkModel<T>>, k: nat) -> Seq<int>
    decreases k,
{
    if k == 0 {
        Seq::empty()
    } else {
        let o = stack_upto(s, (k - 1) as nat);
        if s[k - 1].is_active && s[k - 1].parent is None {
            o.push(k - 1) + children_upto(s, k - 1, s.len())
        } else {
            o
        }
    }
}

/// The boxes of one screen, with the parent and child links between them.
pub struct ChkBoxMng<T> {
    chkboxs: Vec<ChkBox<T>>,
    fgcol: String,
    bgcol: String,
}

impl<T> View for ChkBoxMng<T> {
    type V = MngModel<T>;

    closed spec fn view(&self) -> MngModel<T> {
        MngModel {
            boxes: self.chkboxs@.map_values(|c: ChkBox<T>| c@),
            fgcol: self.fgcol@,
            bgcol: self.bgcol@,
        }
    }
}

impl<T: ChkKind> ChkBoxMng<T> {
    /// No boxes yet, and empty colours.
    pub fn new() -> (r: ChkBoxMng<T>)
        ensures
            r@.boxes == Seq::<ChkModel<T>>::empty(),
            r@.fgcol == Seq::<char>::empty(),
            r@.bgcol == Seq::<char>::empty(),
    {
        let r = ChkBoxMng { chkboxs: Vec::new(), fgcol: String::new(), bgcol: String::new() };
        proof {
            assert(r@.boxes =~= Seq::<ChkModel<T>>::empty());
        }
        r
    }

    /// Sets the colours that the boxes added from now on take.
    pub fn set_base(&mut self, fgcol: &str, bgcol: &str)
        ensures
            final(self)@ == (MngModel { fgcol: fgcol@, bgcol: bgcol@, ..old(self)@ }),
    {
        self.fgcol = fgcol.to_owned();
        self.bgcol = bgcol.to_owned();
    }

    /// Number of boxes.
    pub fn len(&self) -> (r: usize)
        ensures
            r == self@.boxes.len(),
    {
        self.chkboxs.len()
    }

    /// Box `i`.
    pub fn get(&self, i: usize) -> (r: &ChkBox<T>)
        requires
            i < self@.boxes.len(),
        ensures
            r@ == self@.boxes[i as int],
    {
        &self.chkboxs[i]
    }

    /// Adds an enabled box of kind `mytype` without a parent, placed at an absolute
    /// position when `is_absolute`.
    pub fn add(&mut self, mytype: T, text: String, flg: bool, is_absolute: bool)
        ensures
            final(self)@ == (MngModel {
                boxes: old(self)@.boxes.push(
                    ChkModel {
                        is_active: true,
                        is_lock: false,
                        mytype,
                        parent: None,
                        text: text@,
                        flg,
                        fgcol: old(self)@.fgcol,
                        bgcol: old(self)@.bgcol,
                        is_absolute,
                        viewbox: true,
                        hitbox: false,
                        help_txt: Seq::<char>::empty(),
                    },
                ),
                ..old(self)@
            }),
    {
        let chkbox = ChkBox::new(
            mytype,
            None,
            true,
            text,
            flg,
            is_absolute,
            self.fgcol.clone(),
            self.bgcol.clone(),
        );
        self.chkboxs.push(chkbox);
        proof {
            assert(self@.boxes =~= old(self)@.boxes.push(chkbox@));
        }
    }

    /// Adds a child box of kind `mytype` under `parent`; it is enabled when the last
    /// box of kind `parent` reports a check.
    pub fn addsub(&mut self, mytype: T, parent: T, text: String, flg: bool)
        ensures
            final(self)@ == (MngModel {
                boxes: old(self)@.boxes.push(
                    ChkModel {
                        is_active: exists|i: int|
                            0 <= i < old(self)@.boxes.len() && (#[trigger] old(self)@.boxes[i]).mytype
                                == parent && old(self)@.boxes[i].reported() && forall|j: int|
                                i < j < old(self)@.boxes.len() ==> (#[trigger] old(self)@.boxes[j]).mytype
                                    != parent,
                        is_lock: false,
                        mytype,
                        parent: Some(parent),
                        text: text@,
                        flg,
                        fgcol: old(self)@.fgcol,
                        bgcol: old(self)@.bgcol,
                        is_absolute: false,
                        viewbox: true,
                        hitbox: false,
                        help_txt: Seq::<char>::empty(),
                    },
                ),
                ..old(self)@
            }),
    {
        let ghost s = self@.boxes;
        let mut is_active = false;
        let mut k: usize = 0;
        let ghost mut last: int = -1;
        while k < self.chkboxs.len()
            invariant
                s == self@.boxes,
                0 <= k <= s.len(),
                -1 <= last < k,
                last >= 0 ==> s[last].mytype == parent && is_active == s[last].reported(),
                last < 0 ==> !is_active,
                forall|j: int| last < j < k ==> (#[trigger] s[j]).mytype != parent,
            decreases s.len() - k,
        {
            proof {
                assert(self.chkboxs@[k as int]@ == s[k as int]);
            }
            if self.chkboxs[k].get_type().same(&parent) {
                is_active = self.chkboxs[k].get_flg();
                proof {
                    last = k as int;
                }
            }
            k += 1;
        }
        proof {
            let e = exists|i: int|
                0 <= i < s.len() && (#[trigger] s[i]).mytype == parent && s[i].reported() && forall|j: int|
                    i < j < s.len() ==> (#[trigger] s[j]).mytype != parent;
            if last >= 0 {
                assert(s[last].mytype == parent);
            }
            if e {
                let i = choose|i: int|
                    0 <= i < s.len() && (#[trigger] s[i]).mytype == parent && s[i].reported() && forall|j: int|
                        i < j < s.len() ==> (#[trigger] s[j]).mytype != parent;
                if i < last {
                    assert(s[last].mytype != parent);
                }
                if last < i {
                    assert(s[i].mytype != parent);
                }
            }
            assert(is_active == e);
        }
        let chkbox = ChkBox::new(
            mytype,
            Some(parent),
            is_active,
            text,
            flg,
            false,
            self.fgcol.clone(),
            self.bgcol.clone(),
        );
        self.chkboxs.push(chkbox);
        proof {
            assert(self@.boxes =~= s.push(chkbox@));
        }
    }

    /// Shows or hides the hit box of every box.
    pub fn view_hitbox(&mut self, flg: bool)
        ensures
            final(self)@ == (MngModel {
                boxes: Seq::new(
                    old(self)@.boxes.len(),
                    |j: int| ChkModel { hitbox: flg, ..old(self)@.boxes[j] },
                ),
                ..old(self)@
            }),
    {
        let ghost s0 = self@.boxes;
        let n = self.chkboxs.len();
        let mut k: usize = 0;
        while k < n
            invariant
                n == s0.len(),
                self.chkboxs@.len() == n,
                0 <= k <= n,
                self.fgcol@ == old(self)@.fgcol,
                self.bgcol@ == old(self)@.bgcol,
                forall|j: int| 0 <= j < k ==> (#[trigger] self.chkboxs@[j])@ == (ChkModel { hitbox: flg, ..s0[j] }),
                forall|j: int| k <= j < n ==> (#[trigger] self.chkboxs@[j])@ == s0[j],
            decreases n - k,
        {
            let ghost v0 = self.chkboxs@;
            self.chkboxs[k].view_hitbox(flg);
            proof {
                assert forall|j: int| 0 <= j < n && j != k implies self.chkboxs@[j] == v0[j] by {}
            }
            k += 1;
        }
        proof {
            assert(self@.boxes =~= Seq::new(s0.len(), |j: int| ChkModel { hitbox: flg, ..s0[j] }));
        }
    }

    /// Shows or hides the check mark of the boxes of kind `mytype`.
    pub fn view_box(&mut self, mytype: T, boxon: bool)
        ensures
            final(self)@ == (MngModel {
                boxes: Seq::new(
                    old(self)@.boxes.len(),
                    |j: int|
                        if old(self)@.boxes[j].mytype == mytype {
                            ChkModel { viewbox: boxon, ..old(self)@.boxes[j] }
                        } else {
                            old(self)@.boxes[j]
                        },
                ),
                ..old(self)@
            }),
    {
        let ghost s0 = self@.boxes;
        let n = self.chkboxs.len();
        let mut k: usize = 0;
        while k < n
            invariant
                n == s0.len(),
                self.chkboxs@.len() == n,
                0 <= k <= n,
                self.fgcol@ == old(self)@.fgcol,
                self.bgcol@ == old(self)@.bgcol,
                forall|j: int|
                    0 <= j < k ==> (#[trigger] self.chkboxs@[j])@ == if s0[j].mytype == mytype {
                        ChkModel { viewbox: boxon, ..s0[j] }
                    } else {
                        s0[j]
                    },
                forall|j: int| k <= j < n ==> (#[trigger] self.chkboxs@[j])@ == s0[j],
            decreases n - k,
        {
            let ghost v0 = self.chkboxs@;
            if self.chkboxs[k].get_type().same(&mytype) {
                self.chkboxs[k].view_box(boxon);
            }
            proof {
                assert forall|j: int| 0 <= j < n && j != k implies self.chkboxs@[j] == v0[j] by {}
            }
            k += 1;
        }
        proof {
            assert(self@.boxes =~= Seq::new(
                s0.len(),
                |j: int|
                    if s0[j].mytype == mytype {
                        ChkModel { viewbox: boxon, ..s0[j] }
                    } else {
                        s0[j]
                    },
            ));
        }
    }

    /// Sets the colours of the boxes of kind `mytype`; an empty string keeps a colour.
    pub fn set_col(&mut self, mytype: T, fgcol: &str, bgcol: &str)
        ensures
            final(self)@ == (MngModel {
                boxes: Seq::new(
                    old(self)@.boxes.len(),
                    |j: int|
                        if old(self)@.boxes[j].mytype == mytype {
                            ChkModel {
                                fgcol: if fgcol@.len() > 0 {
                                    fgcol@
                                } else {
                                    old(self)@.boxes[j].fgcol
                                },
                                bgcol: if bgcol@.len() > 0 {
                                    bgcol@
                                } else {
                                    old(self)@.boxes[j].bgcol
                                },
                                ..old(self)@.boxes[j]
                            }
                        } else {
                            old(self)@.boxes[j]
                        },
                ),
                ..old(self)@
            }),
    {
        let ghost s0 = self@.boxes;
        let n = self.chkboxs.len();
        let mut k: usize = 0;
        while k < n
            invariant
                n == s0.len(),
                self.chkboxs@.len() == n,
                0 <= k <= n,
                self.fgcol@ == old(self)@.fgcol,
                self.bgcol@ == old(self)@.bgcol,
                forall|j: int|
                    0 <= j < k ==> (#[trigger] self.chkboxs@[j])@ == if s0[j].mytype == mytype {
                        ChkModel {
                            fgcol: if fgcol@.len() > 0 {
                                fgcol@
                            } else {
                                s0[j].fgcol
                            },
                            bgcol: if bgcol@.len() > 0 {
                                bgcol@
                            } else {
                                s0[j].bgcol
                            },
                            ..s0[j]
                        }
                    } else {
                        s0[j]
                    },
                forall|j: int| k <= j < n ==> (#[trigger] self.chkboxs@[j])@ == s0[j],
            decreases n - k,
        {
            let ghost v0 = self.chkboxs@;
            if self.chkboxs[k].get_type().same(&mytype) {
                self.chkboxs[k].set_col(fgcol.to_owned(), bgcol.to_owned());
            }
            proof {
                assert forall|j: int| 0 <= j < n && j != k implies self.chkboxs@[j] == v0[j] by {}
            }
            k += 1;
        }
        proof {
            assert(self@.boxes =~= Seq::new(
                s0.len(),
                |j: int|
                    if s0[j].mytype == mytype {
                        ChkModel {
                            fgcol: if fgcol@.len() > 0 {
                                fgcol@
                            } else {
                                s0[j].fgcol
                            },
                            bgcol: if bgcol@.len() > 0 {
                                bgcol@
                            } else {
                                s0[j].bgcol
                            },
                            ..s0[j]
                        }
                    } else {
                        s0[j]
                    },
            ));
        }
    }

    /// Sets the help text of the boxes of kind `mytype` (lines apart by a newline).
    pub fn set_help(&mut self, mytype: T, help_txt: &str)
        ensures
            final(self)@ == (MngModel {
                boxes: Seq::new(
                    old(self)@.boxes.len(),
                    |j: int|
                        if old(self)@.boxes[j].mytype == mytype {
                            ChkModel { help_txt: help_txt@, ..old(self)@.boxes[j] }
                        } else {
                            old(self)@.boxes[j]
                        },
                ),
                ..old(self)@
            }),
    {
        let ghost s0 = self@.boxes;
        let n = self.chkboxs.len();
        let mut k: usize = 0;
        while k < n
            invariant
                n == s0.len(),
                self.chkboxs@.len() == n,
                0 <= k <= n,
                self.fgcol@ == old(self)@.fgcol,
                self.bgcol@ == old(self)@.bgcol,
                forall|j: int|
                    0 <= j < k ==> (#[trigger] self.chkboxs@[j])@ == if s0[j].mytype == mytype {
                        ChkModel { help_txt: help_txt@, ..s0[j] }
                    } else {
                        s0[j]
                    },
                forall|j: int| k <= j < n ==> (#[trigger] self.chkboxs@[j])@ == s0[j],
            decreases n - k,
        {
            let ghost v0 = self.chkboxs@;
            if self.chkboxs[k].get_type().same(&mytype) {
                self.chkboxs[k].set_help(help_txt);
            }
            proof {
                assert forall|j: int| 0 <= j < n && j != k implies self.chkboxs@[j] == v0[j] by {}
            }
            k += 1;
        }
        proof {
            assert(self@.boxes =~= Seq::new(
                s0.len(),
                |j: int|
                    if s0[j].mytype == mytype {
                        ChkModel { help_txt: help_txt@, ..s0[j] }
                    } else {
                        s0[j]
                    },
            ));
        }
    }

    /// Enables or disables the boxes of kind `mytype`.
    pub fn set_active_flg(&mut self, mytype: T, flg: bool)
        ensures
            final(self)@ == (MngModel { boxes: active_set(old(self)@.boxes, mytype, flg), ..old(self)@ }),
    {
        let ghost s0 = self@.boxes;
        let n = self.chkboxs.len();
        let mut k: usize = 0;
        while k < n
            invariant
                n == s0.len(),
                self.chkboxs@.len() == n,
                0 <= k <= n,
                self.fgcol@ == old(self)@.fgcol,
                self.bgcol@ == old(self)@.bgcol,
                forall|j: int| 0 <= j < k ==> (#[trigger] self.chkboxs@[j])@ == active_set(s0, mytype, flg)[j],
                forall|j: int| k <= j < n ==> (#[trigger] self.chkboxs@[j])@ == s0[j],
            decreases n - k,
        {
            let ghost v0 = self.chkboxs@;
            if self.chkboxs[k].get_type().same(&mytype) {
                self.chkboxs[k].set_active_flg(flg);
            }
            proof {
                assert forall|j: int| 0 <= j < n && j != k implies self.chkboxs@[j] == v0[j] by {}
            }
            k += 1;
        }
        proof {
            assert(self@.boxes =~= active_set(s0, mytype, flg));
        }
    }

    /// Locks or unlocks the boxes of kind `mytype` and their children.
    pub fn set_lock_flg(&mut self, mytype: T, flg: bool)
        ensures
            final(self)@ == (MngModel { boxes: lock_set(old(self)@.boxes, mytype, flg), ..old(self)@ }),
    {
        let ghost s0 = self@.boxes;
        let n = self.chkboxs.len();
        let mut k: usize = 0;
        while k < n
            invariant
                n == s0.len(),
                self.chkboxs@.len() == n,
                0 <= k <= n,
                self.fgcol@ == old(self)@.fgcol,
                self.bgcol@ == old(self)@.bgcol,
                forall|j: int| 0 <= j < k ==> (#[trigger] self.chkboxs@[j])@ == lock_set(s0, mytype, flg)[j],
                forall|j: int| k <= j < n ==> (#[trigger] self.chkboxs@[j])@ == s0[j],
            decreases n - k,
        {
            let ghost v0 = self.chkboxs@;
            if self.chkboxs[k].get_type().same(&mytype) {
                self.chkboxs[k].set_lock_flg(flg);
            }
            let is_child = match self.chkboxs[k].get_parent() {
                Some(p) => p.same(&mytype),
                None => false,
            };
            if is_child {
                self.chkboxs[k].set_lock_flg(flg);
            }
            proof {
                assert forall|j: int| 0 <= j < n && j != k implies self.chkboxs@[j] == v0[j] by {}
            }
            k += 1;
        }
        proof {
            assert(self@.boxes =~= lock_set(s0, mytype, flg));
        }
    }

    /// The value of kind `mytype`: what its first box reports (false without one).
    pub fn get_flg(&self, mytype: T) -> (r: bool)
        ensures
            r == kind_flg(self@.boxes, mytype),
    {
        let ghost s = self@.boxes;
        let n = self.chkboxs.len();
        let mut k: usize = 0;
        while k < n
            invariant
                n == s.len(),
                s == self@.boxes,
                0 <= k <= n,
                forall|j: int| 0 <= j < k ==> (#[trigger] s[j]).mytype != mytype,
            decreases n - k,
        {
            proof {
                assert(self.chkboxs@[k as int]@ == s[k as int]);
            }
            if self.chkboxs[k].get_type().same(&mytype) {
                let r = self.chkboxs[k].get_flg();
                proof {
                    assert(first_of_kind(s, mytype, k as int));
                    assert forall|i: int| #[trigger] first_of_kind(s, mytype, i) implies i == k by {
                        if i < k {
                            assert(s[i].mytype != mytype);
                        }
                        if k < i {
                            assert(s[k as int].mytype != mytype);
                        }
                    }
                }
                return r;
            }
            k += 1;
        }
        proof {
            assert forall|i: int| #[trigger] first_of_kind(s, mytype, i) implies false by {
                assert(s[i].mytype != mytype);
            }
        }
        false
    }

    /// Enables each child of box `parent` exactly when `parent` reports a check.
    fn child_onoff(&mut self, parent: usize)
        requires
            parent < old(self)@.boxes.len(),
        ensures
            final(self)@ == (MngModel { boxes: onoff(old(self)@.boxes, parent as int), ..old(self)@ }),
    {
        let ghost s0 = self@.boxes;
        let flg = self.chkboxs[parent].get_flg();
        let ptype = self.chkboxs[parent].get_type();
        proof {
            assert(self.chkboxs@[parent as int]@ == s0[parent as int]);
        }
        let n = self.chkboxs.len();
        let mut k: usize = 0;
        while k < n
            invariant
                n == s0.len(),
                self.chkboxs@.len() == n,
                0 <= k <= n,
                parent < n,
                flg == s0[parent as int].reported(),
                ptype == s0[parent as int].mytype,
                self.fgcol@ == old(self)@.fgcol,
                self.bgcol@ == old(self)@.bgcol,
                forall|j: int| 0 <= j < k ==> (#[trigger] self.chkboxs@[j])@ == onoff(s0, parent as int)[j],
                forall|j: int| k <= j < n ==> (#[trigger] self.chkboxs@[j])@ == s0[j],
            decreases n - k,
        {
            let ghost v0 = self.chkboxs@;
            let is_child = match self.chkboxs[k].get_parent() {
                Some(p) => p.same(&ptype),
                None => false,
            };
            if is_child {
                self.chkboxs[k].set_active_flg(flg);
            }
            proof {
                assert forall|j: int| 0 <= j < n && j != k implies self.chkboxs@[j] == v0[j] by {}
            }
            k += 1;
        }
        proof {
            assert(self@.boxes =~= onoff(s0, parent as int));
        }
    }

    /// Sets the check of the boxes of kind `mytype` (enabled, unlocked ones take it),
    /// each followed by the update of its children.
    pub fn set_flg(&mut self, mytype: T, flg: bool)
        ensures
            final(self)@ == (MngModel { boxes: set_flg_all(old(self)@.boxes, mytype, flg), ..old(self)@ }),
    {
        let ghost s0 = self@.boxes;
        let n = self.chkboxs.len();
        let mut k: usize = 0;
        while k < n
            invariant
                n == s0.len(),
                0 <= k <= n,
                self@ == (MngModel { boxes: set_flg_upto(s0, mytype, flg, k as nat), ..old(self)@ }),
            decreases n - k,
        {
            proof {
                lemma_set_flg_upto_shape(s0, mytype, flg, k as nat);
                assert(self.chkboxs@[k as int]@ == self@.boxes[k as int]);
            }
            if self.chkboxs[k].get_type().same(&mytype) {
                let ghost s1 = self@.boxes;
                let ghost v0 = self.chkboxs@;
                self.chkboxs[k].set_flg(flg);
                proof {
                    assert forall|j: int| 0 <= j < n && j != k implies self.chkboxs@[j] == v0[j] by {}
                    assert(self@.boxes =~= s1.update(k as int, flag_set(s1[k as int], flg)));
                }
                self.child_onoff(k);
            }
            k += 1;
        }
    }

    /// Takes the check off every enabled, unlocked box.
    pub fn clear_flg(&mut self)
        ensures
            final(self)@ == (MngModel {
                boxes: Seq::new(old(self)@.boxes.len(), |j: int| flag_set(old(self)@.boxes[j], false)),
                ..old(self)@
            }),
    {
        let ghost s0 = self@.boxes;
        let n = self.chkboxs.len();
        let mut k: usize = 0;
        while k < n
            invariant
                n == s0.len(),
                self.chkboxs@.len() == n,
                0 <= k <= n,
                self.fgcol@ == old(self)@.fgcol,
                self.bgcol@ == old(self)@.bgcol,
                forall|j: int| 0 <= j < k ==> (#[trigger] self.chkboxs@[j])@ == flag_set(s0[j], false),
                forall|j: int| k <= j < n ==> (#[trigger] self.chkboxs@[j])@ == s0[j],
            decreases n - k,
        {
            let ghost v0 = self.chkboxs@;
            self.chkboxs[k].set_flg(false);
            proof {
                assert forall|j: int| 0 <= j < n && j != k implies self.chkboxs@[j] == v0[j] by {}
            }
            k += 1;
        }
        proof {
            assert(self@.boxes =~= Seq::new(s0.len(), |j: int| flag_set(s0[j], false)));
        }
    }

    /// A click: `over[i]` tells whether the mouse is over box `i`. The first enabled,
    /// unlocked box under the mouse toggles and its children follow it; returns its
    /// kind and its new check, or `None` when no box toggled.
    pub fn click(&mut self, over: &Vec<bool>) -> (r: Option<(T, bool)>)
        requires
            over@.len() == old(self)@.boxes.len(),
        ensures
            (r is None) == !any_clickable(old(self)@.boxes, over@),
            r is None ==> final(self)@ == old(self)@,
            r matches Some((t, f)) ==> {
                let i = first_click_index(old(self)@.boxes, over@);
                &&& first_clickable(old(self)@.boxes, over@, i)
                &&& t == old(self)@.boxes[i].mytype
                &&& f == !old(self)@.boxes[i].flg
                &&& final(self)@ == (MngModel { boxes: clicked(old(self)@.boxes, i), ..old(self)@ })
            },
    {
        let ghost s0 = self@.boxes;
        let n = self.chkboxs.len();
        let mut k: usize = 0;
        while k < n
            invariant
                n == s0.len(),
                over@.len() == n,
                0 <= k <= n,
                self@ == old(self)@,
                s0 == old(self)@.boxes,
                forall|j: int| 0 <= j < k ==> !clickable(#[trigger] s0[j], over@[j]),
            decreases n - k,
        {
            proof {
                assert(self.chkboxs@[k as int]@ == s0[k as int]);
            }
            let ghost v0 = self.chkboxs@;
            let hit = self.chkboxs[k].click(over[k]);
            proof {
                assert forall|j: int| 0 <= j < n && j != k implies self.chkboxs@[j] == v0[j] by {}
            }
            if hit {
                proof {
                    assert(self@.boxes =~= s0.update(k as int, ChkModel { flg: !s0[k as int].flg, ..s0[k as int] }));
                }
                self.child_onoff(k);
                proof {
                    assert(self@.boxes == clicked(s0, k as int));
                    assert(self@.boxes.len() == n);
                    assert(self.chkboxs@.len() == n);
                    assert(self@.boxes[k as int] == self.chkboxs@[k as int]@);
                }
                let t = self.chkboxs[k].get_type();
                let f = self.chkboxs[k].get_flg();
                proof {
                    assert(first_clickable(s0, over@, k as int));
                    lemma_first_click_index(s0, over@, k as int);
                }
                return Some((t, f));
            }
            proof {
                assert(self@.boxes =~= s0);
            }
            k += 1;
        }
        None
    }

    /// The indices of the boxes in the order they are stacked on the screen: each
    /// enabled box without a parent, followed by its enabled children.
    pub fn stack_order(&self) -> (r: Vec<usize>)
        ensures
            r@.map_values(|v: usize| v as int) == stack_upto(self@.boxes, self@.boxes.len()),
    {
        let ghost s = self@.boxes;
        let n = self.chkboxs.len();
        let mut r: Vec<usize> = Vec::new();
        let mut p: usize = 0;
        while p < n
            invariant
                s == self@.boxes,
                n == s.len(),
                0 <= p <= n,
                r@.map_values(|v: usize| v as int) == stack_upto(s, p as nat),
            decreases n - p,
        {
            proof {
                assert(self.chkboxs@[p as int]@ == s[p as int]);
            }
            let pbox = &self.chkboxs[p];
            if pbox.is_active() && pbox.get_parent().is_none() {
                let ghost before = r@.map_values(|v: usize| v as int);
                r.push(p);
                proof {
                    assert(r@.map_values(|v: usize| v as int) =~= before.push(p as int));
                }
                let ghost base = r@.map_values(|v: usize| v as int);
                let ptype = pbox.get_type();
                let mut c: usize = 0;
                while c < n
                    invariant
                        s == self@.boxes,
                        n == s.len(),
                        p < n,
                        0 <= c <= n,
                        ptype == s[p as int].mytype,
                        r@.map_values(|v: usize| v as int) == base + children_upto(s, p as int, c as nat),
                    decreases n - c,
                {
                    proof {
                        assert(self.chkboxs@[c as int]@ == s[c as int]);
                    }
                    let cbox = &self.chkboxs[c];
                    let is_child = match cbox.get_parent() {
                        Some(t) => t.same(&ptype),
                        None => false,
                    };
                    if cbox.is_active() && is_child {
                        let ghost before_c = r@.map_values(|v: usize| v as int);
                        r.push(c);
                        proof {
                            assert(r@.map_values(|v: usize| v as int) =~= before_c.push(c as int));
                            assert(base + children_upto(s, p as int, (c + 1) as nat) =~= (base
                                + children_upto(s, p as int, c as nat)).push(c as int));
                        }
                    }
                    c += 1;
                }
            }
            p += 1;
        }
        r
    }

    /// The first enabled box under the mouse (`over[i]` for box `i`), with its help text.
    pub fn gethelp(&self, over: &Vec<bool>) -> (r: Option<(T, &str)>)
        requires
            over@.len() == self@.boxes.len(),
        ensures
            r is None ==> forall|i: int|
                0 <= i < self@.boxes.len() ==> !((#[trigger] self@.boxes[i]).is_active && over@[i]),
            r matches Some((t, h)) ==> exists|i: int|
                #[trigger] first_over(self@.boxes, over@, i) && t == self@.boxes[i].mytype && h@
                    == self@.boxes[i].help_txt,
    {
        let ghost s = self@.boxes;
        let n = self.chkboxs.len();
        let mut k: usize = 0;
        while k < n
            invariant
                n == s.len(),
                s == self@.boxes,
                over@.len() == n,
                0 <= k <= n,
                forall|j: int| 0 <= j < k ==> !((#[trigger] s[j]).is_active && over@[j]),
            decreases n - k,
        {
            proof {
                assert(self.chkboxs@[k as int]@ == s[k as int]);
            }
            if self.chkboxs[k].is_mouse_over(over[k]) {
                proof {
                    assert(first_over(s, over@, k as int));
                }
                return Some((self.chkboxs[k].get_type(), self.chkboxs[k].get_help()));
            }
            k += 1;
        }
        None
    }
}

} // verus!
