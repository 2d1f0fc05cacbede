use vstd::prelude::*;

verus! {

/// An ASCII decimal digit.
pub open spec fn is_digit(c: char) -> bool {
    '0' <= c && c <= '9'
}

/// The value of a digit.
pub open spec fn digit_val(c: char) -> int {
    c as int - '0' as int
}

/// The character of a digit value.
pub open spec fn digit_char(d: int) -> char {
    if d == 0 {
        '0'
    } else if d == 1 {
        '1'
    } else if d == 2 {
        '2'
    } else if d == 3 {
        '3'
    } else if d == 4 {
        '4'
    } else if d == 5 {
        '5'
    } else if d == 6 {
        '6'
    } else if d == 7 {
        '7'
    } else if d == 8 {
        '8'
    } else {
        '9'
    }
}

/// Every character is a digit.
pub open spec fn all_digits(s: Seq<char>) -> bool {
    forall|i: int| 0 <= i < s.len() ==> is_digit(#[trigger] s[i])
}

/// The value of a string of digits, most significant first.
pub open spec fn digits_val(s: Seq<char>) -> int
    decreases s.len(),
{
    if s.len() == 0 {
        0
    } else {
        digits_val(s.drop_last()) * 10 + digit_val(s.last())
    }
}

/// What parsing `s` as an `i32` gives: an optional sign, then at least one digit and
/// nothing else, with a value that fits in an `i32`.
pub open spec fn parse_i32(s: Seq<char>) -> Option<int> {
    let signed = s.len() > 0 && (s[0] == '-' || s[0] == '+');
    let body = if signed {
        s.skip(1)
    } else {
        s
    };
    let v = if signed && s[0] == '-' {
        -digits_val(body)
    } else {
        digits_val(body)
    };
    if body.len() > 0 && all_digits(body) && i32::MIN <= v <= i32::MAX {
        Some(v)
    } else {
        None
    }
}

/// The decimal digits of `m`.
pub open spec fn digits_of(m: nat) -> Seq<char>
    decreases m,
{
    if m < 10 {
        seq![digit_char(m as int)]
    } else {
        digits_of(m / 10).push(digit_char((m % 10) as int))
    }
}

/// The decimal text of `n`, with a minus sign when negative.
pub open spec fn decimal(n: int) -> Seq<char> {
    if n < 0 {
        seq!['-'] + digits_of((-n) as nat)
    } else {
        digits_of(n as nat)
    }
}

/// A prefix of digits is worth no more than the whole.
pub proof fn lemma_digits_val_prefix(s: Seq<char>, k: int)
    requires
        all_digits(s),
        0 <= k <= s.len(),
    ensures
        0 <= digits_val(s.take(k)) <= digits_val(s),
    decreases s.len(),
{
    if s.len() > 0 {
        let d = s.drop_last();
        assert(all_digits(d)) by {
            assert forall|i: int| 0 <= i < d.len() implies is_digit(#[trigger] d[i]) by {
                assert(s[i] == d[i]);
            }
        }
        assert(is_digit(s[s.len() - 1]));
        if k == s.len() {
            assert(s.take(k) =~= s);
            lemma_digits_val_prefix(d, k - 1);
            assert(d.take(k - 1) =~= d);
        } else {
            lemma_digits_val_prefix(d, k);
            assert(d.take(k) =~= s.take(k));
        }
    }
}

/// The digits of a number read back as the number.
pub proof fn lemma_digits_of(m: nat)
    ensures
        digits_of(m).len() > 0,
        all_digits(digits_of(m)),
        digits_val(digits_of(m)) == m,
    decreases m,
{
    assert(digit_val(digit_char((m % 10) as int)) == m % 10);
    if m < 10 {
        let s = digits_of(m);
        assert(s.drop_last() =~= Seq::<char>::empty());
        assert(s.last() == digit_char(m as int));
        assert(digits_val(s) == digits_val(s.drop_last()) * 10 + digit_val(s.last()));
    } else {
        lemma_digits_of(m / 10);
        let s = digits_of(m);
        assert(s.drop_last() =~= digits_of(m / 10));
        vstd::arithmetic::div_mod::lemma_fundamental_div_mod(m as int, 10);
        assert(s.last() == digit_char((m % 10) as int));
        assert(digits_val(s) == digits_val(s.drop_last()) * 10 + digit_val(s.last()));
        assert forall|i: int| 0 <= i < s.len() implies is_digit(#[trigger] s[i]) by {
            if i < s.len() - 1 {
                assert(s[i] == digits_of(m / 10)[i]);
            }
        }
    }
}

/// Writing a number in decimal and parsing it back gives the number.
pub proof fn lemma_parse_decimal(n: int)
    requires
        i32::MIN <= n <= i32::MAX,
    ensures
        parse_i32(decimal(n)) == Some(n),
{
    let s = decimal(n);
    if n < 0 {
        lemma_digits_of((-n) as nat);
        assert(s.skip(1) =~= digits_of((-n) as nat));
    } else {
        lemma_digits_of(n as nat);
        let d = digits_of(n as nat);
        assert(is_digit(d[0]));
    }
}

/// The character of a digit value.
pub fn digit_to_char(d: u32) -> (c: char)
    requires
        d < 10,
    ensures
        c == digit_char(d as int),
{
    if d == 0 {
        '0'
    } else if d == 1 {
        '1'
    } else if d == 2 {
        '2'
    } else if d == 3 {
        '3'
    } else if d == 4 {
        '4'
    } else if d == 5 {
        '5'
    } else if d == 6 {
        '6'
    } else if d == 7 {
        '7'
    } else if d == 8 {
        '8'
    } else {
        '9'
    }
}

/// Appends the decimal digits of `m`.
fn push_digits(m: u32, out: &mut Vec<char>)
    ensures
        final(out)@ == old(out)@ + digits_of(m as nat),
    decreases m,
{
    if m >= 10 {
        push_digits(m / 10, out);
    }
    let c = digit_to_char(m % 10);
    out.push(c);
    proof {
        if m >= 10 {
            assert(digits_of(m as nat) == digits_of((m / 10) as nat).push(digit_char((m % 10) as int)));
        }
    }
}

/// The decimal text of `n` (what `n.to_string()` gives).
pub fn int_to_text(n: i32) -> (r: Vec<char>)
    ensures
        r@ == decimal(n as int),
{
    let mut out: Vec<char> = Vec::new();
    if n < 0 {
        out.push('-');
        let m: u32 = if n == i32::MIN {
            2147483648u32
        } else {
            (-n) as u32
        };
        push_digits(m, &mut out);
    } else {
        push_digits(n as u32, &mut out);
    }
    proof {
        assert(out@ =~= decimal(n as int));
    }
    out
}

/// Parses `s` as an `i32` (what `s.parse::<i32>().ok()` gives).
pub fn parse_text(s: &Vec<char>) -> (r: Option<i32>)
    ensures
        r matches Some(v) ==> parse_i32(s@) == Some(v as int),
        r is None ==> parse_i32(s@) is None,
{
    let n = s.len();
    if n == 0 {
        return None;
    }
    let neg = s[0] == '-';
    let start: usize = if s[0] == '-' || s[0] == '+' {
        1
    } else {
        0
    };
    let ghost body = s@.skip(start as int);
    proof {
        assert(s@.skip(0) =~= s@);
    }
    if start == n {
        return None;
    }
    let mut acc: i64 = 0;
    let mut k: usize = start;
    while k < n
        invariant
            n == s@.len(),
            n > 0,
            neg == (s@[0] == '-'),
            start == (if s@[0] == '-' || s@[0] == '+' {
                1usize
            } else {
                0usize
            }),
            start <= k <= n,
            body == s@.skip(start as int),
            body.len() == n - start,
            all_digits(body.take(k - start)),
            acc == digits_val(body.take(k - start)),
            0 <= acc <= 2147483648,
        decreases n - k,
    {
        let c = s[k];
        if !('0' <= c && c <= '9') {
            proof {
                assert(body[k - start] == c);
            }
            return None;
        }
        let d = (c as u32) - ('0' as u32);
        proof {
            assert(body.take(k - start + 1).drop_last() =~= body.take(k - start));
            assert(body.take(k - start + 1).last() == c);
            assert forall|i: int| 0 <= i < k - start + 1 implies is_digit(#[trigger] body.take(k - start + 1)[i]) by {
                if i < k - start {
                    assert(body.take(k - start + 1)[i] == body.take(k - start)[i]);
                }
            }
        }
        acc = acc * 10 + d as i64;
        proof {
            assert(acc == digits_val(body.take(k - start + 1)));
        }
        if acc > 2147483648 {
            proof {
                assert(s@.skip(0) =~= s@);
                if all_digits(body) {
                    lemma_digits_val_prefix(body, k - start + 1);
                }
            }
            return None;
        }
        k += 1;
    }
    proof {
        assert(body.take(n - start) =~= body);
        assert(s@.skip(0) =~= s@);
    }
    let v: i64 = if neg {
        -acc
    } else {
        acc
    };
    if v < -2147483648 || v > 2147483647 {
        return None;
    }
    Some(v as i32)
}

/// The characters of `s`.
pub fn chars_of(s: &str) -> (r: Vec<char>)
    ensures
        r@ == s@,
{
    let mut v: Vec<char> = Vec::new();
    for c in it: s.chars()
        invariant
            v@ == it.seq().take(it.index() as int),
    {
        v.push(c);
    }
    v
}

/// A control character (general category Cc).
pub open spec fn is_control(c: char) -> bool {
    (c as int) < 0x20 || (0x7f <= (c as int) && (c as int) < 0xa0)
}

/// Whether `c` is a control character (what `c.is_control()` gives).
pub fn char_is_control(c: char) -> (r: bool)
    ensures
        r == is_control(c),
{
    let u = c as u32;
    u < 0x20 || (0x7f <= u && u < 0xa0)
}

/// The digits of `s`, in order.
pub open spec fn keep_digits(s: Seq<char>) -> Seq<char>
    decreases s.len(),
{
    if s.len() == 0 {
        Seq::empty()
    } else if is_digit(s.last()) {
        keep_digits(s.drop_last()).push(s.last())
    } else {
        keep_digits(s.drop_last())
    }
}

/// The value that `s` parses to, `d` when it does not parse.
pub open spec fn value_or(s: Seq<char>, d: int) -> int {
    match parse_i32(s) {
        Some(v) => v,
        None => d,
    }
}

/// An arrow key pressed in a text box.
#[derive(Debug, Copy, Clone, PartialEq, Eq, Structural)]
pub enum TxtKey {
    Up,
    Right,
    Down,
    Left,
    NoKey,
}

/// What happened to a text box in one frame.
pub struct TxtEvent {
    /// A shift key went down.
    pub shift_pressed: bool,
    /// A shift key went up.
    pub shift_released: bool,
    /// The left button went down: whether over the box.
    pub click: Option<bool>,
    /// A character typed.
    pub ch: Option<char>,
    /// An arrow key pressed.
    pub key: TxtKey,
    /// Backspace pressed.
    pub backspace: bool,
}

/// What a text box holds, as plain values.
pub struct TextModel {
    pub text: Seq<char>,
    pub min: i32,
    pub max: i32,
    pub focused: bool,
    pub shift_on: bool,
}

/// The text after an arrow key: up adds ten, right one, down takes ten, left one, from
/// the value (the minimum when the text does not parse), kept within the bounds.
pub open spec fn arrow_text(s: Seq<char>, key: TxtKey, min: int, max: int) -> Seq<char> {
    let v = value_or(s, min);
    match key {
        TxtKey::Up => decimal(if v + 10 < max {
            v + 10
        } else {
            max
        }),
        TxtKey::Right => decimal(if v + 1 < max {
            v + 1
        } else {
            max
        }),
        TxtKey::Down => decimal(if v - 10 > min {
            v - 10
        } else {
            min
        }),
        TxtKey::Left => decimal(if v - 1 > min {
            v - 1
        } else {
            min
        }),
        TxtKey::NoKey => s,
    }
}

/// The text of an unfocused box brought within its bounds: an empty text or one below
/// the minimum becomes the minimum, then one above the maximum becomes the maximum
/// (a text that does not parse counts as 0).
pub open spec fn bounded_text(t: TextModel) -> Seq<char> {
    let t1 = if t.text.len() == 0 || value_or(t.text, 0) < t.min {
        decimal(t.min as int)
    } else {
        t.text
    };
    if value_or(t1, 0) > t.max {
        decimal(t.max as int)
    } else {
        t1
    }
}

/// A text box after one frame's events.
pub open spec fn updated(t: TextModel, ev: TxtEvent) -> TextModel {
    let sh1 = if ev.shift_pressed {
        true
    } else {
        t.shift_on
    };
    let sh = if ev.shift_released {
        false
    } else {
        sh1
    };
    let text1 = if !t.focused {
        bounded_text(t)
    } else {
        t.text
    };
    let foc = match ev.click {
        Some(b) => b,
        None => t.focused,
    };
    if !foc {
        TextModel { text: text1, focused: false, shift_on: sh, ..t }
    } else {
        let text2 = match ev.ch {
            Some(c) => if !is_control(c) {
                text1.push(c)
            } else {
                text1
            },
            None => text1,
        };
        let text3 = arrow_text(text2, ev.key, t.min as int, t.max as int);
        let text4 = if ev.backspace && text3.len() > 0 {
            text3.drop_last()
        } else {
            text3
        };
        TextModel { text: keep_digits(text4), focused: true, shift_on: sh, ..t }
    }
}

/// The value of a box: what its text parses to (the minimum when it does not),
/// raised to the minimum, then lowered to the maximum.
pub open spec fn box_value(t: TextModel) -> int {
    let v = value_or(t.text, t.min as int);
    let a = if v > t.min {
        v
    } else {
        t.min as int
    };
    if a < t.max {
        a
    } else {
        t.max as int
    }
}

/// An arrow key leaves a number in the box: up and right never above the maximum,
/// down and left never below the minimum.
pub proof fn lemma_arrow_in_bounds(s: Seq<char>, key: TxtKey, min: int, max: int)
    requires
        i32::MIN <= min <= max <= i32::MAX,
        key != TxtKey::NoKey,
    ensures
        parse_i32(arrow_text(s, key, min, max)) matches Some(v) && (key == TxtKey::Up || key
            == TxtKey::Right ==> v <= max) && (key == TxtKey::Down || key == TxtKey::Left ==> min <= v),
{
    let v = value_or(s, min);
    let n = match key {
        TxtKey::Up => if v + 10 < max {
            v + 10
        } else {
            max
        },
        TxtKey::Right => if v + 1 < max {
            v + 1
        } else {
            max
        },
        TxtKey::Down => if v - 10 > min {
            v - 10
        } else {
            min
        },
        _ => if v - 1 > min {
            v - 1
        } else {
            min
        },
    };
    assert(arrow_text(s, key, min, max) == decimal(n));
    if parse_i32(s) is Some {
        assert(i32::MIN <= v <= i32::MAX);
    }
    lemma_parse_decimal(n);
}

/// A box for a number between `min` and `max`, typed by the player.
pub struct TextBox {
    text: Vec<char>,
    min: i32,
    max: i32,
    focused: bool,
    shift_on: bool,
}

impl View for TextBox {
    type V = TextModel;

    closed spec fn view(&self) -> TextModel {
        TextModel {
            text: self.text@,
            min: self.min,
            max: self.max,
            focused: self.focused,
            shift_on: self.shift_on,
        }
    }
}

/// The value of `s` (what `s.parse::<i32>().unwrap_or(d)` gives).
fn value_of(s: &Vec<char>, d: i32) -> (r: i32)
    ensures
        r == value_or(s@, d as int),
{
    match parse_text(s) {
        Some(v) => v,
        None => d,
    }
}

/// Keeps the digits of `s`.
fn digits_only(s: &Vec<char>) -> (r: Vec<char>)
    ensures
        r@ == keep_digits(s@),
{
    let mut out: Vec<char> = Vec::new();
    let mut k: usize = 0;
    while k < s.len()
        invariant
            0 <= k <= s@.len(),
            out@ == keep_digits(s@.take(k as int)),
        decreases s@.len() - k,
    {
        let c = s[k];
        proof {
            assert(s@.take(k as int + 1).drop_last() =~= s@.take(k as int));
            assert(s@.take(k as int + 1).last() == c);
        }
        if '0' <= c && c <= '9' {
            out.push(c);
        }
        k += 1;
    }
    proof {
        assert(s@.take(s@.len() as int) =~= s@);
    }
    out
}

impl TextBox {
    /// A box showing `text`, for values between `min` and `max`, not focused.
    pub fn new(text: &str, min: i32, max: i32) -> (r: TextBox)
        ensures
            r@ == (TextModel {
                text: text@,
                min,
                max,
                focused: false,
                shift_on: false,
            }),
    {
        TextBox { text: chars_of(text), min, max, focused: false, shift_on: false }
    }

    /// Sets the maximum.
    pub fn set_max(&mut self, max: i32)
        ensures
            final(self)@ == (TextModel { max, ..old(self)@ }),
    {
        self.max = max;
    }

    /// Focuses the box.
    pub fn focus(&mut self)
        ensures
            final(self)@ == (TextModel { focused: true, ..old(self)@ }),
    {
        self.focused = true;
    }

    /// Takes the focus off the box.
    pub fn focus_off(&mut self)
        ensures
            final(self)@ == (TextModel { focused: false, ..old(self)@ }),
    {
        self.focused = false;
    }

    /// Whether the box has the focus.
    pub fn is_focused(&self) -> (r: bool)
        ensures
            r == self@.focused,
    {
        self.focused
    }

    /// The text typed.
    pub fn get_text(&self) -> (r: &Vec<char>)
        ensures
            r@ == self@.text,
    {
        &self.text
    }

    /// Brings the text within the bounds (see `bounded_text`).
    fn fix_bounds(&mut self)
        ensures
            final(self)@ == (TextModel { text: bounded_text(old(self)@), ..old(self)@ }),
    {
        if self.text.len() == 0 || value_of(&self.text, 0) < self.min {
            self.text = int_to_text(self.min);
        }
        if value_of(&self.text, 0) > self.max {
            self.text = int_to_text(self.max);
        }
    }

    /// Applies an arrow key to the text (see `arrow_text`).
    fn apply_arrow(&mut self, key: TxtKey)
        ensures
            final(self)@ == (TextModel {
                text: arrow_text(old(self)@.text, key, old(self)@.min as int, old(self)@.max as int),
                ..old(self)@
            }),
    {
        let v = value_of(&self.text, self.min) as i64;
        let min = self.min as i64;
        let max = self.max as i64;
        match key {
            TxtKey::Up => {
                let n = if v + 10 < max {
                    v + 10
                } else {
                    max
                };
                self.text = int_to_text(n as i32);
            },
            TxtKey::Right => {
                let n = if v + 1 < max {
                    v + 1
                } else {
                    max
                };
                self.text = int_to_text(n as i32);
            },
            TxtKey::Down => {
                let n = if v - 10 > min {
                    v - 10
                } else {
                    min
                };
                self.text = int_to_text(n as i32);
            },
            TxtKey::Left => {
                let n = if v - 1 > min {
                    v - 1
                } else {
                    min
                };
                self.text = int_to_text(n as i32);
            },
            TxtKey::NoKey => {},
        }
    }

    /// Takes one frame's events and returns whether a shift key is held.
    pub fn update(&mut self, ev: &TxtEvent) -> (r: bool)
        ensures
            final(self)@ == updated(old(self)@, *ev),
            r == final(self)@.shift_on,
    {
        if ev.shift_pressed {
            self.shift_on = true;
        }
        if ev.shift_released {
            self.shift_on = false;
        }
        if !self.focused {
            self.fix_bounds();
        }
        match ev.click {
            Some(inside) => {
                self.focused = inside;
            },
            None => {},
        }
        if !self.focused {
            return self.shift_on;
        }
        match ev.ch {
            Some(c) => {
                if !char_is_control(c) {
                    self.text.push(c);
                }
            },
            None => {},
        }
        self.apply_arrow(ev.key);
        if ev.backspace {
            self.text.pop();
        }
        self.text = digits_only(&self.text);
        self.shift_on
    }

    /// The value of the box, within its bounds.
    pub fn get_value(&self) -> (r: i32)
        ensures
            r == box_value(self@),
            self@.min <= self@.max ==> self@.min <= r <= self@.max,
    {
        let v = value_of(&self.text, self.min);
        let a = if v > self.min {
            v
        } else {
            self.min
        };
        if a < self.max {
            a
        } else {
            self.max
        }
    }
}

} // verus!
