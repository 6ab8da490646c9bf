//! The screen as a grid of cells, each a character with its style, and
//! what changed in it since it was last drawn.

use crate::order::{all_digits, digits_value, is_digit};
use crate::text::{bytes_of, chars_of};
use crate::utils::{columns, columns_of, text_width, width_of_text};
use vstd::prelude::*;
use vstd::string::*;

verus! {

/// A way in which a cell is drawn.
#[derive(Clone, Debug, Copy, PartialEq, Eq, Structural)]
pub enum Attr {
    Bold,
    Dim,
    Italic,
    Underline,
    Reverse,
    Hide,
    CrossedOut,
}

impl Attr {
    pub open spec fn spec_bit(&self) -> u8 {
        match self {
            Attr::Bold => 0b0000_0001,
            Attr::Dim => 0b0000_0010,
            Attr::Italic => 0b0000_0100,
            Attr::Underline => 0b0000_1000,
            Attr::Reverse => 0b0001_0000,
            Attr::Hide => 0b0010_0000,
            Attr::CrossedOut => 0b0100_0000,
        }
    }

    /// The bit that stands for the attribute in a set of attributes.
    #[verifier::when_used_as_spec(spec_bit)]
    pub fn bit(&self) -> (r: u8)
        ensures
            r == self.spec_bit(),
    {
        match self {
            Attr::Bold => 0b0000_0001,
            Attr::Dim => 0b0000_0010,
            Attr::Italic => 0b0000_0100,
            Attr::Underline => 0b0000_1000,
            Attr::Reverse => 0b0001_0000,
            Attr::Hide => 0b0010_0000,
            Attr::CrossedOut => 0b0100_0000,
        }
    }
}

/// Two attributes have no bit in common.
pub proof fn lemma_bits_apart(a: Attr, b: Attr)
    requires
        a != b,
    ensures
        a.spec_bit() & b.spec_bit() == 0,
{
    let x = a.spec_bit();
    let y = b.spec_bit();
    assert(x & y == 0) by (bit_vector)
        requires
            x == 1 || x == 2 || x == 4 || x == 8 || x == 16 || x == 32 || x == 64,
            y == 1 || y == 2 || y == 4 || y == 8 || y == 16 || y == 32 || y == 64,
            x != y,
    ;
}

/// A set of attributes, one bit for each.
#[derive(Clone, Debug, Copy, PartialEq, Eq, Structural)]
pub struct Attrs(pub u8);

impl Default for Attrs {
    /// No attribute.
    fn default() -> (r: Attrs)
        ensures
            r.0 == 0,
    {
        Attrs(0)
    }
}

impl Attrs {
    /// Takes the attribute in.
    pub fn set(&mut self, attr: Attr)
        ensures
            final(self).0 == old(self).0 | attr.spec_bit(),
            final(self).spec_has(attr),
            forall|other: Attr| other != attr ==> final(self).spec_has(other) == old(self).spec_has(other),
    {
        let bit = attr.bit();
        let before = self.0;
        self.0 = self.0 | bit;
        proof {
            let after = self.0;
            assert(after & bit != 0) by (bit_vector)
                requires
                    after == before | bit,
                    bit != 0,
            ;
            assert forall|other: Attr| other != attr implies self.spec_has(other) == old(self).spec_has(other) by {
                let b = other.spec_bit();
                lemma_bits_apart(other, attr);
                assert((after & b != 0) == (before & b != 0)) by (bit_vector)
                    requires
                        after == before | bit,
                        b & bit == 0,
                ;
            }
        }
    }

    /// Turns the attribute about: out where it is in, and in where it is out.
    pub fn unset(&mut self, attr: Attr)
        ensures
            final(self).0 == old(self).0 ^ attr.spec_bit(),
            final(self).spec_has(attr) == !old(self).spec_has(attr),
            forall|other: Attr| other != attr ==> final(self).spec_has(other) == old(self).spec_has(other),
    {
        let bit = attr.bit();
        let before = self.0;
        self.0 = self.0 ^ bit;
        proof {
            let after = self.0;
            assert((after & bit != 0) == !(before & bit != 0)) by (bit_vector)
                requires
                    after == before ^ bit,
                    bit == 1 || bit == 2 || bit == 4 || bit == 8 || bit == 16 || bit == 32 || bit == 64,
            ;
            assert forall|other: Attr| other != attr implies self.spec_has(other) == old(self).spec_has(other) by {
                let b = other.spec_bit();
                lemma_bits_apart(other, attr);
                assert((after & b != 0) == (before & b != 0)) by (bit_vector)
                    requires
                        after == before ^ bit,
                        b & bit == 0,
                ;
            }
        }
    }

    pub open spec fn spec_has(&self, attr: Attr) -> bool {
        self.0 & attr.spec_bit() != 0
    }

    /// Whether the attribute is in the set.
    #[verifier::when_used_as_spec(spec_has)]
    pub fn has(&self, attr: Attr) -> (r: bool)
        ensures
            r == self.spec_has(attr),
    {
        self.0 & attr.bit() != 0
    }

    /// The attributes that are in both sets.
    pub fn and(self, rhs: Attrs) -> (r: Attrs)
        ensures
            r.0 == self.0 & rhs.0,
    {
        Attrs(self.0 & rhs.0)
    }

    /// The attributes that are in either set.
    pub fn or(self, rhs: Attrs) -> (r: Attrs)
        ensures
            r.0 == self.0 | rhs.0,
    {
        Attrs(self.0 | rhs.0)
    }

    /// The attributes that are in one of the sets only.
    pub fn xor(self, rhs: Attrs) -> (r: Attrs)
        ensures
            r.0 == self.0 ^ rhs.0,
    {
        Attrs(self.0 ^ rhs.0)
    }

    /// The attributes of this set that are not in `rhs`.
    pub fn minus(self, rhs: Attrs) -> (r: Attrs)
        ensures
            r.0 == self.0 ^ (rhs.0 & self.0),
            forall|attr: Attr| r.spec_has(attr) == (self.spec_has(attr) && !rhs.spec_has(attr)),
    {
        let r = Attrs(self.0 ^ (rhs.0 & self.0));
        proof {
            let a = self.0;
            let b = rhs.0;
            let c = r.0;
            assert forall|attr: Attr| r.spec_has(attr) == (self.spec_has(attr) && !rhs.spec_has(attr)) by {
                let m = attr.spec_bit();
                assert((c & m != 0) == ((a & m != 0) && !(b & m != 0))) by (bit_vector)
                    requires
                        c == a ^ (b & a),
                        m == 1 || m == 2 || m == 4 || m == 8 || m == 16 || m == 32 || m == 64,
                ;
            }
        }
        r
    }
}

/// A colour of the terminal.
#[derive(Clone, Debug, Copy, PartialEq, Eq, Structural)]
pub enum Color {
    Reset,
    Black,
    DarkGrey,
    Red,
    DarkRed,
    Green,
    DarkGreen,
    Yellow,
    DarkYellow,
    Blue,
    DarkBlue,
    Magenta,
    DarkMagenta,
    Cyan,
    DarkCyan,
    White,
    Grey,
    Rgb { r: u8, g: u8, b: u8 },
    AnsiValue(u8),
}

/// The eight colours that the codes 30 to 37 and 40 to 47 stand for.
pub open spec fn basic_color(n: u8) -> Color {
    if n == 0 {
        Color::Black
    } else if n == 1 {
        Color::DarkRed
    } else if n == 2 {
        Color::DarkGreen
    } else if n == 3 {
        Color::DarkYellow
    } else if n == 4 {
        Color::DarkBlue
    } else if n == 5 {
        Color::DarkMagenta
    } else if n == 6 {
        Color::DarkCyan
    } else {
        Color::Grey
    }
}

/// The eight colours that the codes 90 to 97 and 100 to 107 stand for.
pub open spec fn bright_color(n: u8) -> Color {
    if n == 0 {
        Color::DarkGrey
    } else if n == 1 {
        Color::Red
    } else if n == 2 {
        Color::Green
    } else if n == 3 {
        Color::Yellow
    } else if n == 4 {
        Color::Blue
    } else if n == 5 {
        Color::Magenta
    } else if n == 6 {
        Color::Cyan
    } else {
        Color::White
    }
}

fn basic(n: u8) -> (r: Color)
    ensures
        r == basic_color(n),
{
    if n == 0 {
        Color::Black
    } else if n == 1 {
        Color::DarkRed
    } else if n == 2 {
        Color::DarkGreen
    } else if n == 3 {
        Color::DarkYellow
    } else if n == 4 {
        Color::DarkBlue
    } else if n == 5 {
        Color::DarkMagenta
    } else if n == 6 {
        Color::DarkCyan
    } else {
        Color::Grey
    }
}

fn bright(n: u8) -> (r: Color)
    ensures
        r == bright_color(n),
{
    if n == 0 {
        Color::DarkGrey
    } else if n == 1 {
        Color::Red
    } else if n == 2 {
        Color::Green
    } else if n == 3 {
        Color::Yellow
    } else if n == 4 {
        Color::Blue
    } else if n == 5 {
        Color::Magenta
    } else if n == 6 {
        Color::Cyan
    } else {
        Color::White
    }
}

/// The colours and attributes of a cell.
#[derive(Clone, Debug, Copy, PartialEq, Eq, Structural)]
pub struct Style {
    pub fg: Color,
    pub bg: Color,
    pub attrs: Attrs,
}

/// The style that the terminal has by itself.
pub open spec fn plain_style() -> Style {
    Style { fg: Color::Reset, bg: Color::Reset, attrs: Attrs(0) }
}

/// The number that one field of a colour sequence writes: decimal digits,
/// with a plus sign before them or without, that write a number up to 255.
/// Anything else counts as zero.
pub open spec fn field_value(f: Seq<u8>) -> u8 {
    let d = if f.len() > 0 && f[0] == 43 {
        f.skip(1)
    } else {
        f
    };
    if d.len() > 0 && all_digits(d) && digits_value(d) <= 255 {
        digits_value(d) as u8
    } else {
        0
    }
}

/// The index of the first semicolon of `s` at `from` or behind it, or the
/// length of `s` where none is.
pub open spec fn semicolon_at(s: Seq<u8>, from: int) -> int
    decreases s.len() - from,
{
    if from >= s.len() {
        s.len() as int
    } else if s[from] == 59 {
        from
    } else {
        semicolon_at(s, from + 1)
    }
}

/// The numbers of a colour sequence: its fields, which semicolons part.
pub open spec fn codes_from(s: Seq<u8>, from: int) -> Seq<u8>
    decreases s.len() - from,
    via codes_decreases
{
    if from > s.len() || from < 0 {
        Seq::empty()
    } else {
        let end = semicolon_at(s, from);
        if end >= s.len() {
            seq![field_value(s.subrange(from, s.len() as int))]
        } else {
            seq![field_value(s.subrange(from, end))] + codes_from(s, end + 1)
        }
    }
}

#[via_fn]
proof fn codes_decreases(s: Seq<u8>, from: int) {
    if 0 <= from <= s.len() {
        lemma_semicolon_at(s, from);
    }
}

pub proof fn lemma_semicolon_at(s: Seq<u8>, from: int)
    requires
        0 <= from <= s.len(),
    ensures
        from <= semicolon_at(s, from) <= s.len(),
    decreases s.len() - from,
{
    if from < s.len() && s[from] != 59 {
        lemma_semicolon_at(s, from + 1);
    }
}

/// `style` after the one code `n`, which is none of those that begin a
/// colour of many fields: 0 makes the style plain, 1 to 4 and 7 to 9 add an
/// attribute, 30 to 37 and 90 to 97 set the colour of the text, 40 to 47 and
/// 100 to 107 that of the ground, 39 and 49 give either back to the
/// terminal. Any other code changes nothing.
pub open spec fn coded(style: Style, n: u8) -> Style {
    if n == 0 {
        plain_style()
    } else if n == 1 {
        Style { attrs: Attrs(style.attrs.0 | Attr::Bold.spec_bit()), ..style }
    } else if n == 2 {
        Style { attrs: Attrs(style.attrs.0 | Attr::Dim.spec_bit()), ..style }
    } else if n == 3 {
        Style { attrs: Attrs(style.attrs.0 | Attr::Italic.spec_bit()), ..style }
    } else if n == 4 {
        Style { attrs: Attrs(style.attrs.0 | Attr::Underline.spec_bit()), ..style }
    } else if n == 7 {
        Style { attrs: Attrs(style.attrs.0 | Attr::Reverse.spec_bit()), ..style }
    } else if n == 8 {
        Style { attrs: Attrs(style.attrs.0 | Attr::Hide.spec_bit()), ..style }
    } else if n == 9 {
        Style { attrs: Attrs(style.attrs.0 | Attr::CrossedOut.spec_bit()), ..style }
    } else if 30 <= n <= 37 {
        Style { fg: basic_color((n - 30) as u8), ..style }
    } else if 40 <= n <= 47 {
        Style { bg: basic_color((n - 40) as u8), ..style }
    } else if 90 <= n <= 97 {
        Style { fg: bright_color((n - 90) as u8), ..style }
    } else if 100 <= n <= 107 {
        Style { bg: bright_color((n - 100) as u8), ..style }
    } else if n == 39 {
        Style { fg: Color::Reset, ..style }
    } else if n == 49 {
        Style { bg: Color::Reset, ..style }
    } else {
        style
    }
}

/// `style` with `color` for the text (`text`) or for the ground.
pub open spec fn colored(style: Style, text: bool, color: Color) -> Style {
    if text {
        Style { fg: color, ..style }
    } else {
        Style { bg: color, ..style }
    }
}

/// `style` after the codes of `nums` from `i` on. The codes 38 and 48
/// begin a colour of the text or of the ground: a 5 and the number of a
/// colour follow, or a 2 and the three parts of one, and more must follow
/// them; else the code is passed over.
pub open spec fn styled(style: Style, nums: Seq<u8>, i: int) -> Style
    decreases nums.len() - i,
{
    if i < 0 || i >= nums.len() {
        style
    } else if nums[i] == 38 || nums[i] == 48 {
        if i + 2 < nums.len() && nums[i + 1] == 5 {
            styled(colored(style, nums[i] == 38, Color::AnsiValue(nums[i + 2])), nums, i + 3)
        } else if i + 4 < nums.len() && nums[i + 1] == 2 {
            styled(
                colored(style, nums[i] == 38, Color::Rgb { r: nums[i + 2], g: nums[i + 3], b: nums[i + 4] }),
                nums,
                i + 5,
            )
        } else {
            styled(style, nums, i + 1)
        }
    } else {
        styled(coded(style, nums[i]), nums, i + 1)
    }
}

/// The number that the field `s[from..to]` writes.
fn parse_field(s: &[u8], from: usize, to: usize) -> (r: u8)
    requires
        from <= to <= s@.len(),
    ensures
        r == field_value(s@.subrange(from as int, to as int)),
{
    let ghost f = s@.subrange(from as int, to as int);
    let start = if from < to && s[from] == 43 {
        from + 1
    } else {
        from
    };
    let ghost d = s@.subrange(start as int, to as int);
    proof {
        if from < to {
            assert(f[0] == s@[from as int]);
        }
        if start == from {
            assert(d =~= f);
        } else {
            assert(d =~= f.skip(1));
        }
    }
    if start == to {
        return 0;
    }
    let mut value: u32 = 0;
    let mut i: usize = start;
    assert(d.take(0) =~= Seq::<u8>::empty());
    while i < to
        invariant
            from <= start <= i <= to <= s@.len(),
            d == s@.subrange(start as int, to as int),
            f == s@.subrange(from as int, to as int),
            field_value(f) == if d.len() > 0 && all_digits(d) && digits_value(d) <= 255 {
                digits_value(d) as u8
            } else {
                0
            },
            all_digits(d.take(i - start)),
            value <= 256,
            value == if digits_value(d.take(i - start)) <= 255 {
                digits_value(d.take(i - start))
            } else {
                256
            },
        decreases to - i,
    {
        let b = s[i];
        let ghost before = d.take(i - start);
        let ghost after = d.take(i + 1 - start);
        proof {
            assert(after.drop_last() =~= before);
            assert(after.last() == b);
        }
        if !(48 <= b && b <= 57) {
            proof {
                assert(d[i - start] == b);
                assert(!all_digits(d));
            }
            return 0;
        }
        value = value * 10 + (b - 48) as u32;
        if value > 255 {
            value = 256;
        }
        proof {
            assert forall|k: int| 0 <= k < after.len() implies is_digit(#[trigger] after[k]) by {
                if k < before.len() {
                    assert(after[k] == before[k]);
                }
            }
        }
        i += 1;
    }
    proof {
        assert(d.take(to - start) =~= d);
    }
    if value > 255 {
        0
    } else {
        value as u8
    }
}


fn find_semicolon(s: &[u8], from: usize) -> (r: usize)
    requires
        from <= s@.len(),
    ensures
        r == semicolon_at(s@, from as int),
        from <= r <= s@.len(),
{
    let mut i: usize = from;
    while i < s.len() && s[i] != 59
        invariant
            from <= i <= s@.len(),
            semicolon_at(s@, from as int) == semicolon_at(s@, i as int),
        decreases s.len() - i,
    {
        i += 1;
    }
    i
}

/// The numbers of the colour sequence `s`.
pub fn parse_codes(s: &[u8]) -> (r: Vec<u8>)
    ensures
        r@ == codes_from(s@, 0),
{
    let mut r: Vec<u8> = Vec::new();
    let mut from: usize = 0;
    loop
        invariant
            from <= s@.len(),
            codes_from(s@, 0) == r@ + codes_from(s@, from as int),
        decreases s@.len() - from,
    {
        let end = find_semicolon(s, from);
        let n = parse_field(s, from, end);
        r.push(n);
        if end >= s.len() {
            proof {
                assert(s@.subrange(from as int, end as int) =~= s@.subrange(from as int, s@.len() as int));
                assert(codes_from(s@, 0) =~= r@);
            }
            return r;
        }
        proof {
            assert(codes_from(s@, 0) =~= r@ + codes_from(s@, end + 1));
        }
        from = end + 1;
    }
}

impl Style {
    pub fn new(fg: Color, bg: Color, attrs: Attrs) -> (r: Style)
        ensures
            r == (Style { fg, bg, attrs }),
    {
        Style { fg, bg, attrs }
    }

    pub fn set_fg(&mut self, fg: Color) -> (r: &mut Self)
        ensures
            *r == (Style { fg, ..*old(self) }),
            *final(self) == *final(r),
    {
        self.fg = fg;
        self
    }

    pub fn set_bg(&mut self, bg: Color) -> (r: &mut Self)
        ensures
            *r == (Style { bg, ..*old(self) }),
            *final(self) == *final(r),
    {
        self.bg = bg;
        self
    }

    pub fn set_attrs(&mut self, attrs: Attrs) -> (r: &mut Self)
        ensures
            *r == (Style { attrs, ..*old(self) }),
            *final(self) == *final(r),
    {
        self.attrs = attrs;
        self
    }

    /// Makes the style plain.
    pub fn reset(&mut self)
        ensures
            *final(self) == plain_style(),
    {
        self.fg = Color::Reset;
        self.bg = Color::Reset;
        self.attrs = Attrs(0);
    }

    fn code(&mut self, n: u8)
        ensures
            *final(self) == coded(*old(self), n),
    {
        if n == 0 {
            self.reset();
        } else if n == 1 {
            self.attrs.set(Attr::Bold);
        } else if n == 2 {
            self.attrs.set(Attr::Dim);
        } else if n == 3 {
            self.attrs.set(Attr::Italic);
        } else if n == 4 {
            self.attrs.set(Attr::Underline);
        } else if n == 7 {
            self.attrs.set(Attr::Reverse);
        } else if n == 8 {
            self.attrs.set(Attr::Hide);
        } else if n == 9 {
            self.attrs.set(Attr::CrossedOut);
        } else if 30 <= n && n <= 37 {
            self.fg = basic(n - 30);
        } else if 40 <= n && n <= 47 {
            self.bg = basic(n - 40);
        } else if 90 <= n && n <= 97 {
            self.fg = bright(n - 90);
        } else if 100 <= n && n <= 107 {
            self.bg = bright(n - 100);
        } else if n == 39 {
            self.fg = Color::Reset;
        } else if n == 49 {
            self.bg = Color::Reset;
        }
    }

    /// Takes in the codes of a colour sequence, as they stand between the
    /// escape character with its bracket and the `m`: see `styled`.
    pub fn parse_ansi_code(&mut self, s: &str)
        ensures
            *final(self) == styled(*old(self), codes_from(bytes_of(s@), 0), 0),
    {
        let nums = parse_codes(s.as_bytes());
        let mut index: usize = 0;
        while index < nums.len()
            invariant
                index <= nums@.len() + 4,
                nums@ == codes_from(bytes_of(s@), 0),
                styled(*old(self), nums@, 0) == styled(*self, nums@, index as int),
            decreases nums@.len() + 4 - index,
        {
            let n = nums[index];
            if n == 38 || n == 48 {
                if nums.len() - index > 2 && nums[index + 1] == 5 {
                    let color = Color::AnsiValue(nums[index + 2]);
                    if n == 38 {
                        self.fg = color;
                    } else {
                        self.bg = color;
                    }
                    index += 2;
                } else if nums.len() - index > 4 && nums[index + 1] == 2 {
                    let color = Color::Rgb { r: nums[index + 2], g: nums[index + 3], b: nums[index + 4] };
                    if n == 38 {
                        self.fg = color;
                    } else {
                        self.bg = color;
                    }
                    index += 4;
                }
            } else {
                self.code(n);
            }
            index += 1;
        }
    }
}

impl Default for Style {
    fn default() -> (r: Style)
        ensures
            r == plain_style(),
    {
        Style { fg: Color::Reset, bg: Color::Reset, attrs: Attrs(0) }
    }
}

/// One cell of the screen.
#[derive(Clone, Debug, Copy, PartialEq, Eq, Structural)]
pub struct Cell {
    pub c: char,
    pub s: Style,
}

/// A blank in the plain style.
pub open spec fn blank_cell() -> Cell {
    Cell { c: ' ', s: plain_style() }
}

impl Cell {
    pub fn new(c: char, s: Style) -> (r: Cell)
        ensures
            r == (Cell { c, s }),
    {
        Cell { c, s }
    }

    pub fn set_char(&mut self, c: char) -> (r: &mut Self)
        ensures
            *r == (Cell { c, ..*old(self) }),
            *final(self) == *final(r),
    {
        self.c = c;
        self
    }

    pub fn set_fg(&mut self, fg: Color) -> (r: &mut Self)
        ensures
            *r == (Cell { s: Style { fg, ..old(self).s }, ..*old(self) }),
            *final(self) == *final(r),
    {
        self.s.fg = fg;
        self
    }

    pub fn set_bg(&mut self, bg: Color) -> (r: &mut Self)
        ensures
            *r == (Cell { s: Style { bg, ..old(self).s }, ..*old(self) }),
            *final(self) == *final(r),
    {
        self.s.bg = bg;
        self
    }

    pub fn set_attrs(&mut self, attrs: Attrs) -> (r: &mut Self)
        ensures
            *r == (Cell { s: Style { attrs, ..old(self).s }, ..*old(self) }),
            *final(self) == *final(r),
    {
        self.s.attrs = attrs;
        self
    }

    pub fn set_style(&mut self, s: &Style) -> (r: &mut Self)
        ensures
            *r == (Cell { s: *s, ..*old(self) }),
            *final(self) == *final(r),
    {
        self.s = *s;
        self
    }

    /// Makes the cell a blank in the plain style.
    pub fn reset(&mut self)
        ensures
            *final(self) == blank_cell(),
    {
        self.c = ' ';
        self.s = Style { fg: Color::Reset, bg: Color::Reset, attrs: Attrs(0) };
    }
}

impl Default for Cell {
    fn default() -> (r: Cell)
        ensures
            r == blank_cell(),
    {
        Cell { c: ' ', s: Style { fg: Color::Reset, bg: Color::Reset, attrs: Attrs(0) } }
    }
}

/// What the terminal is told to change between two cells.
#[derive(Clone, Debug, Copy, PartialEq, Eq, Structural)]
pub enum Paint {
    Foreground(Color),
    Background(Color),
    NormalIntensity,
    Bold,
    Dim,
    Italic,
    NoItalic,
    Underlined,
    NoUnderline,
    Reverse,
    NoReverse,
    Hidden,
    NoHidden,
    CrossedOut,
    NotCrossedOut,
}

pub open spec fn when(cond: bool, paint: Paint) -> Seq<Paint> {
    if cond {
        seq![paint]
    } else {
        Seq::empty()
    }
}

/// What the terminal is told so that what follows is drawn in the style
/// `next` when the style was `last`: the colours that differ, then the
/// attributes that are to go, then those that are to come. Bold and dim
/// go together, so the one that is to stay is set again.
pub open spec fn paints(last: Style, next: Style) -> Seq<Paint> {
    let gone = Attrs((last.attrs.0 ^ (next.attrs.0 & last.attrs.0)) as u8);
    let come = Attrs((next.attrs.0 ^ (last.attrs.0 & next.attrs.0)) as u8);
    when(last.fg != next.fg, Paint::Foreground(next.fg)) + when(last.bg != next.bg, Paint::Background(next.bg)) + (
    if last.attrs != next.attrs {
        when(gone.spec_has(Attr::Bold), Paint::NormalIntensity) + when(
            gone.spec_has(Attr::Bold) && next.attrs.spec_has(Attr::Dim),
            Paint::Dim,
        ) + when(gone.spec_has(Attr::Dim), Paint::NormalIntensity) + when(
            gone.spec_has(Attr::Dim) && next.attrs.spec_has(Attr::Bold),
            Paint::Bold,
        ) + when(gone.spec_has(Attr::Italic), Paint::NoItalic) + when(
            gone.spec_has(Attr::Underline),
            Paint::NoUnderline,
        ) + when(gone.spec_has(Attr::Reverse), Paint::NoReverse) + when(gone.spec_has(Attr::Hide), Paint::NoHidden)
            + when(gone.spec_has(Attr::CrossedOut), Paint::NotCrossedOut) + when(
            come.spec_has(Attr::Bold),
            Paint::Bold,
        ) + when(come.spec_has(Attr::Dim), Paint::Dim) + when(come.spec_has(Attr::Italic), Paint::Italic) + when(
            come.spec_has(Attr::Underline),
            Paint::Underlined,
        ) + when(come.spec_has(Attr::Reverse), Paint::Reverse) + when(come.spec_has(Attr::Hide), Paint::Hidden)
            + when(come.spec_has(Attr::CrossedOut), Paint::CrossedOut)
    } else {
        Seq::empty()
    })
}

fn push_when(out: &mut Vec<Paint>, cond: bool, paint: Paint)
    ensures
        final(out)@ == old(out)@ + when(cond, paint),
{
    if cond {
        out.push(paint);
        assert(out@ =~= old(out)@ + when(cond, paint));
    } else {
        assert(out@ =~= old(out)@ + when(cond, paint));
    }
}

/// What the terminal is told between two styles: see `paints`.
pub fn transition(last: &Style, next: &Style) -> (r: Vec<Paint>)
    ensures
        r@ == paints(*last, *next),
{
    let mut out: Vec<Paint> = Vec::new();
    push_when(&mut out, last.fg != next.fg, Paint::Foreground(next.fg));
    push_when(&mut out, last.bg != next.bg, Paint::Background(next.bg));
    let ghost head = out@;
    assert(head =~= when(last.fg != next.fg, Paint::Foreground(next.fg)) + when(
        last.bg != next.bg,
        Paint::Background(next.bg),
    ));
    if last.attrs != next.attrs {
        let gone = last.attrs.minus(next.attrs);
        let come = next.attrs.minus(last.attrs);
        let mut tail: Vec<Paint> = Vec::new();
        push_when(&mut tail, gone.has(Attr::Bold), Paint::NormalIntensity);
        push_when(&mut tail, gone.has(Attr::Bold) && next.attrs.has(Attr::Dim), Paint::Dim);
        push_when(&mut tail, gone.has(Attr::Dim), Paint::NormalIntensity);
        push_when(&mut tail, gone.has(Attr::Dim) && next.attrs.has(Attr::Bold), Paint::Bold);
        push_when(&mut tail, gone.has(Attr::Italic), Paint::NoItalic);
        push_when(&mut tail, gone.has(Attr::Underline), Paint::NoUnderline);
        push_when(&mut tail, gone.has(Attr::Reverse), Paint::NoReverse);
        push_when(&mut tail, gone.has(Attr::Hide), Paint::NoHidden);
        push_when(&mut tail, gone.has(Attr::CrossedOut), Paint::NotCrossedOut);
        push_when(&mut tail, come.has(Attr::Bold), Paint::Bold);
        push_when(&mut tail, come.has(Attr::Dim), Paint::Dim);
        push_when(&mut tail, come.has(Attr::Italic), Paint::Italic);
        push_when(&mut tail, come.has(Attr::Underline), Paint::Underlined);
        push_when(&mut tail, come.has(Attr::Reverse), Paint::Reverse);
        push_when(&mut tail, come.has(Attr::Hide), Paint::Hidden);
        push_when(&mut tail, come.has(Attr::CrossedOut), Paint::CrossedOut);
        out.append(&mut tail);
        assert(out@ =~= paints(*last, *next));
    } else {
        assert(out@ =~= paints(*last, *next));
    }
    out
}

/// `cells` with `cell` at `i`, where `i` is a place in it.
pub open spec fn put(cells: Seq<Cell>, i: int, cell: Cell) -> Seq<Cell> {
    if 0 <= i < cells.len() {
        cells.update(i, cell)
    } else {
        cells
    }
}

/// `cells` after the characters of `chars` from the `k`-th on were
/// written in `style`, the first at the place `base + pos`, each one as many
/// places behind the one before as that takes columns. Where a limit is
/// given the writing ends at the first character that would begin at the
/// limit or behind it.
pub open spec fn written(
    cells: Seq<Cell>,
    base: int,
    limit: Option<int>,
    chars: Seq<char>,
    k: int,
    pos: int,
    style: Style,
) -> Seq<Cell>
    decreases chars.len() - k,
{
    if k < 0 || k >= chars.len() || (limit is Some && pos >= limit->0) {
        cells
    } else {
        written(
            put(cells, base + pos, Cell { c: chars[k], s: style }),
            base,
            limit,
            chars,
            k + 1,
            pos + columns(chars[k]),
            style,
        )
    }
}

/// What a pass over the first cells of the screen leaves: the cells to
/// draw, how many cells more are spoilt by a wide character that changed,
/// and how many cells more lie under the wide character that was met last.
pub struct Scan {
    pub updates: Seq<(u16, u16, Cell)>,
    pub invalidated: nat,
    pub to_skip: nat,
}

pub open spec fn less_one(n: nat) -> nat {
    if n > 0 {
        (n - 1) as nat
    } else {
        0
    }
}

pub open spec fn greater(a: nat, b: nat) -> nat {
    if a >= b {
        a
    } else {
        b
    }
}

/// The pass over the first `n` cells. A cell is drawn when it differs
/// from what was drawn last, or is spoilt, unless it lies under a wide
/// character.
pub open spec fn scanned(cells: Seq<Cell>, prev: Seq<Cell>, cols: int, n: int) -> Scan
    decreases n,
{
    if n <= 0 {
        Scan { updates: Seq::empty(), invalidated: 0, to_skip: 0 }
    } else {
        let before = scanned(cells, prev, cols, n - 1);
        let i = n - 1;
        Scan {
            updates: if (cells[i] != prev[i] || before.invalidated > 0) && before.to_skip == 0 {
                before.updates.push(((i % cols) as u16, (i / cols) as u16, cells[i]))
            } else {
                before.updates
            },
            invalidated: less_one(greater(greater(columns(cells[i].c), columns(prev[i].c)), before.invalidated)),
            to_skip: less_one(columns(cells[i].c)),
        }
    }
}

/// The index of the first `m` of `chars` at `from` or behind it, or the
/// length of `chars` where none is.
pub open spec fn end_of_codes(chars: Seq<char>, from: int) -> int
    decreases chars.len() - from,
{
    if from >= chars.len() {
        chars.len() as int
    } else if chars[from] == 'm' {
        from
    } else {
        end_of_codes(chars, from + 1)
    }
}

pub proof fn lemma_end_of_codes(chars: Seq<char>, from: int)
    requires
        0 <= from <= chars.len(),
    ensures
        from <= end_of_codes(chars, from) <= chars.len(),
    decreases chars.len() - from,
{
    if from < chars.len() && chars[from] != 'm' {
        lemma_end_of_codes(chars, from + 1);
    }
}

/// The cells and the style after the characters of `chars` from the
/// `k`-th on were written into a window of `cols` columns, the first at
/// the place `base + pos`. An escape character with a bracket behind it
/// begins a colour sequence, which ends with an `m` and changes the style;
/// any other escape character is passed over with the character behind it.
/// A character of no width is passed over; the writing ends at the first
/// character that would reach the last column of the window.
pub open spec fn ansi_written(
    cells: Seq<Cell>,
    base: int,
    cols: int,
    chars: Seq<char>,
    k: int,
    pos: int,
    style: Style,
) -> (Seq<Cell>, Style)
    decreases chars.len() + 2 - k,
    via ansi_decreases
{
    if k < 0 || k >= chars.len() {
        (cells, style)
    } else if chars[k] == '\x1b' {
        if k + 1 < chars.len() && chars[k + 1] == '[' {
            let end = end_of_codes(chars, k + 2);
            ansi_written(
                cells,
                base,
                cols,
                chars,
                end + 1,
                pos,
                styled(style, codes_from(bytes_of(chars.subrange(k + 2, end)), 0), 0),
            )
        } else {
            ansi_written(cells, base, cols, chars, k + 2, pos, style)
        }
    } else if pos + columns(chars[k]) >= cols {
        (cells, style)
    } else if columns(chars[k]) != 0 {
        ansi_written(
            put(cells, base + pos, Cell { c: chars[k], s: style }),
            base,
            cols,
            chars,
            k + 1,
            pos + columns(chars[k]),
            style,
        )
    } else {
        ansi_written(cells, base, cols, chars, k + 1, pos, style)
    }
}

#[via_fn]
proof fn ansi_decreases(
    cells: Seq<Cell>,
    base: int,
    cols: int,
    chars: Seq<char>,
    k: int,
    pos: int,
    style: Style,
) {
    if 0 <= k && k + 2 <= chars.len() {
        lemma_end_of_codes(chars, k + 2);
    }
}

/// What the terminal is told to do for one cell.
#[derive(Clone, Debug, Copy, PartialEq, Eq, Structural)]
pub enum Draw {
    MoveTo(u16, u16),
    Paint(Paint),
    Print(char),
}

/// The paints as things to do.
pub open spec fn painted(p: Seq<Paint>) -> Seq<Draw> {
    Seq::new(p.len(), |i: int| Draw::Paint(p[i]))
}

/// What the terminal is told to do for the cells `updates` from the
/// `k`-th on, when the style was `last`: for each cell, to go there, to
/// change the style as far as it differs, and to print the character.
pub open spec fn drawn(updates: Seq<(u16, u16, Cell)>, k: int, last: Style) -> Seq<Draw>
    decreases updates.len() - k,
{
    if k < 0 || k >= updates.len() {
        Seq::empty()
    } else {
        seq![Draw::MoveTo(updates[k].0, updates[k].1)] + painted(paints(last, updates[k].2.s)) + seq![
            Draw::Print(updates[k].2.c),
        ] + drawn(updates, k + 1, updates[k].2.s)
    }
}

/// The screen: the cells as they are to be, row by row, and as they were
/// drawn last.
#[derive(Debug)]
pub struct Buffer {
    /// Columns and rows.
    pub size: (u16, u16),
    pub cells: Vec<Cell>,
    pub prev_cells: Vec<Cell>,
}

impl Buffer {
    /// There is a cell for every place of the grid, in both lists.
    pub open spec fn wf(&self) -> bool {
        &&& self.cells@.len() == self.size.0 * self.size.1
        &&& self.prev_cells@.len() == self.cells@.len()
    }

    /// The place of column `c` in row `r` in the list of cells.
    pub open spec fn place(&self, c: u16, r: u16) -> int {
        r * self.size.0 + c
    }

    /// Every cell is a blank, and so it was drawn last.
    pub open spec fn blank(&self) -> bool {
        &&& forall|i: int| 0 <= i < self.cells@.len() ==> #[trigger] self.cells@[i] == blank_cell()
        &&& self.prev_cells@ == self.cells@
    }

    fn blanks(n: usize) -> (r: Vec<Cell>)
        ensures
            r@.len() == n,
            forall|i: int| 0 <= i < n ==> #[trigger] r@[i] == blank_cell(),
    {
        let mut r: Vec<Cell> = Vec::new();
        while r.len() < n
            invariant
                r@.len() <= n,
                forall|i: int| 0 <= i < r@.len() ==> #[trigger] r@[i] == blank_cell(),
            decreases n - r@.len(),
        {
            r.push(Cell::default());
        }
        r
    }

    fn area(cols: u16, rows: u16) -> (r: usize)
        ensures
            r == cols * rows,
    {
        assert(cols * rows <= 0xffff * 0xffff) by (nonlinear_arith)
            requires
                cols <= 0xffff,
                rows <= 0xffff,
        ;
        cols as usize * rows as usize
    }

    /// A blank screen of `cols` columns and `rows` rows.
    pub fn new(cols: u16, rows: u16) -> (r: Buffer)
        ensures
            r.wf(),
            r.size == (cols, rows),
            r.blank(),
    {
        let n = Self::area(cols, rows);
        let cells = Self::blanks(n);
        let prev_cells = Self::blanks(n);
        assert(prev_cells@ =~= cells@);
        Buffer { size: (cols, rows), cells, prev_cells }
    }

    fn place_of(&self, c: u16, r: u16) -> (i: usize)
        ensures
            i == self.place(c, r),
    {
        assert(r * self.size.0 + c <= 0xffff * 0xffff + 0xffff) by (nonlinear_arith)
            requires
                r <= 0xffff,
                self.size.0 <= 0xffff,
                c <= 0xffff,
        ;
        r as usize * self.size.0 as usize + c as usize
    }

    /// The cell in column `c` of row `r`.
    pub fn get(&self, c: u16, r: u16) -> (cell: &Cell)
        requires
            self.place(c, r) < self.cells@.len(),
        ensures
            *cell == self.cells@[self.place(c, r)],
    {
        let i = self.place_of(c, r);
        &self.cells[i]
    }

    /// The cell in column `c` of row `r`, to be changed.
    pub fn get_mut(&mut self, c: u16, r: u16) -> (cell: &mut Cell)
        requires
            old(self).place(c, r) < old(self).cells@.len(),
        ensures
            *cell == old(self).cells@[old(self).place(c, r)],
            final(self).cells@ == old(self).cells@.update(old(self).place(c, r), *final(cell)),
            final(self).size == old(self).size,
            final(self).prev_cells == old(self).prev_cells,
    {
        let i = self.place_of(c, r);
        &mut self.cells[i]
    }

    /// Puts the character `ch` in the style `s` into column `c` of row
    /// `r`. A place outside the screen is passed over.
    pub fn set_content(&mut self, c: u16, r: u16, ch: char, s: &Style)
        ensures
            final(self).size == old(self).size,
            final(self).prev_cells == old(self).prev_cells,
            final(self).cells@ == put(old(self).cells@, old(self).place(c, r), Cell { c: ch, s: *s }),
    {
        let i = self.place_of(c, r);
        if i < self.cells.len() {
            self.cells[i] = Cell { c: ch, s: *s };
        }
    }

    /// Writes `text` in the style `s` from column `c` of row `r` on, into
    /// a window that is `win_cols` columns wide: no character begins in the
    /// last column of the window or behind it. See `written`.
    pub fn set_line(&mut self, c: u16, r: u16, win_cols: u16, text: &str, s: &Style)
        ensures
            final(self).size == old(self).size,
            final(self).prev_cells == old(self).prev_cells,
            final(self).cells@.len() == old(self).cells@.len(),
            win_cols == 0 ==> final(self).cells@ == old(self).cells@,
            win_cols > 0 ==> final(self).cells@ == written(
                old(self).cells@,
                old(self).place(c, r),
                Some(win_cols - 1),
                text@,
                0,
                0,
                *s,
            ),
    {
        if win_cols == 0 {
            return ;
        }
        let limit = (win_cols - 1) as usize;
        let base = self.place_of(c, r);
        let chars = chars_of(text);
        self.write(base, Some(limit), &chars, 0, s);
    }

    /// Writes the characters of `chars` from place `base + pos` on, up to
    /// the limit where one is given.
    fn write(&mut self, base: usize, limit: Option<usize>, chars: &Vec<char>, pos: usize, s: &Style)
        ensures
            final(self).size == old(self).size,
            final(self).prev_cells == old(self).prev_cells,
            final(self).cells@.len() == old(self).cells@.len(),
            final(self).cells@ == written(
                old(self).cells@,
                base as int,
                match limit {
                    Some(l) => Some(l as int),
                    None => None,
                },
                chars@,
                0,
                pos as int,
                *s,
            ),
    {
        let ghost lim: Option<int> = match limit {
            Some(l) => Some(l as int),
            None => None,
        };
        let mut k: usize = 0;
        let mut at: u128 = base as u128 + pos as u128;
        let mut col: u128 = pos as u128;
        while k < chars.len()
            invariant
                k <= chars@.len(),
                self.size == old(self).size,
                self.prev_cells == old(self).prev_cells,
                self.cells@.len() == old(self).cells@.len(),
                lim == match limit {
                    Some(l) => Some(l as int),
                    None => None,
                },
                at == base + col,
                col <= pos + 0xffff_ffff_ffff_ffff * k,
                written(old(self).cells@, base as int, lim, chars@, 0, pos as int, *s) == written(
                    self.cells@,
                    base as int,
                    lim,
                    chars@,
                    k as int,
                    col as int,
                    *s,
                ),
            decreases chars.len() - k,
        {
            match limit {
                Some(l) => {
                    if col >= l as u128 {
                        return ;
                    }
                },
                None => {},
            }
            if at < self.cells.len() as u128 {
                self.cells[at as usize] = Cell { c: chars[k], s: *s };
            }
            let w = columns_of(chars[k]);
            at = at + w as u128;
            col = col + w as u128;
            k += 1;
        }
    }

    /// Writes `text` in the style `s` into row `r` so that it ends before
    /// column `c`, where there is room for it: that is, where its width is
    /// no more than `c`.
    pub fn set_line_from_right(&mut self, c: u16, r: u16, text: &str, s: &Style)
        ensures
            final(self).size == old(self).size,
            final(self).prev_cells == old(self).prev_cells,
            final(self).cells@.len() == old(self).cells@.len(),
            c < text_width(text@) % 0x1_0000 ==> final(self).cells@ == old(self).cells@,
            c >= text_width(text@) % 0x1_0000 ==> final(self).cells@ == written(
                old(self).cells@,
                old(self).place(0, r),
                None,
                text@,
                0,
                c - text_width(text@) % 0x1_0000,
                *s,
            ),
    {
        let width = width_of_text(text) % 0x1_0000;
        if c as usize >= width {
            let base = self.place_of(0, r);
            let chars = chars_of(text);
            self.write(base, None, &chars, c as usize - width, s);
        }
    }

    /// Makes every cell a blank, and forgets what was drawn.
    pub fn reset(&mut self)
        ensures
            final(self).size == old(self).size,
            final(self).cells@.len() == old(self).cells@.len(),
            final(self).blank(),
            old(self).wf() ==> final(self).wf(),
    {
        let n = self.cells.len();
        self.cells = Self::blanks(n);
        self.prev_cells = Self::blanks(n);
        assert(self.prev_cells@ =~= self.cells@);
    }

    /// Gives the screen `cols` columns and `rows` rows, all blank.
    pub fn resize_x_y(&mut self, cols: u16, rows: u16)
        ensures
            final(self).wf(),
            final(self).size == (cols, rows),
            final(self).blank(),
    {
        self.size = (cols, rows);
        let n = Self::area(cols, rows);
        self.cells = Self::blanks(n);
        self.prev_cells = Self::blanks(n);
        assert(self.prev_cells@ =~= self.cells@);
    }

    /// The cells that are to be drawn, each with its column and row: see
    /// `scanned`.
    pub fn diff(&self) -> (r: Vec<(u16, u16, Cell)>)
        requires
            self.wf(),
        ensures
            r@ == scanned(self.cells@, self.prev_cells@, self.size.0 as int, self.cells@.len() as int).updates,
    {
        let cols = self.size.0 as usize;
        let mut updates: Vec<(u16, u16, Cell)> = Vec::new();
        let mut invalidated: usize = 0;
        let mut to_skip: usize = 0;
        let mut i: usize = 0;
        while i < self.cells.len()
            invariant
                i <= self.cells@.len(),
                self.wf(),
                cols == self.size.0,
                updates@ == scanned(self.cells@, self.prev_cells@, cols as int, i as int).updates,
                invalidated == scanned(self.cells@, self.prev_cells@, cols as int, i as int).invalidated,
                to_skip == scanned(self.cells@, self.prev_cells@, cols as int, i as int).to_skip,
            decreases self.cells.len() - i,
        {
            let current = self.cells[i];
            let previous = self.prev_cells[i];
            if (current != previous || invalidated > 0) && to_skip == 0 {
                assert(cols > 0 && i / cols < self.size.1) by (nonlinear_arith)
                    requires
                        i < self.size.0 * self.size.1,
                        cols == self.size.0,
                ;
                let c = (i % cols) as u16;
                let r = (i / cols) as u16;
                updates.push((c, r, current));
            }
            let wide = columns_of(current.c);
            let was = columns_of(previous.c);
            to_skip = if wide > 0 {
                wide - 1
            } else {
                0
            };
            let affected = if wide > was {
                wide
            } else {
                was
            };
            let most = if affected > invalidated {
                affected
            } else {
                invalidated
            };
            invalidated = if most > 0 {
                most - 1
            } else {
                0
            };
            i += 1;
        }
        updates
    }

    /// Notes that the screen was drawn as it is.
    pub fn commit(&mut self)
        ensures
            final(self).size == old(self).size,
            final(self).cells == old(self).cells,
            final(self).prev_cells@ == old(self).cells@,
    {
        let mut prev: Vec<Cell> = Vec::new();
        let mut i: usize = 0;
        while i < self.cells.len()
            invariant
                i <= self.cells@.len(),
                prev@ == self.cells@.take(i as int),
            decreases self.cells.len() - i,
        {
            prev.push(self.cells[i]);
            i += 1;
            assert(prev@ =~= self.cells@.take(i as int));
        }
        assert(self.cells@.take(i as int) =~= self.cells@);
        self.prev_cells = prev;
    }

    fn find_end(chars: &Vec<char>, from: usize) -> (r: usize)
        requires
            from <= chars@.len(),
        ensures
            r == end_of_codes(chars@, from as int),
            from <= r <= chars@.len(),
    {
        let mut i: usize = from;
        while i < chars.len() && chars[i] != 'm'
            invariant
                from <= i <= chars@.len(),
                end_of_codes(chars@, from as int) == end_of_codes(chars@, i as int),
            decreases chars.len() - i,
        {
            i += 1;
        }
        i
    }

    /// Writes a line of text with colour sequences in it from column `c`
    /// of row `r` on, into a window of `cols` columns. The style is the one
    /// that the line before left, and the sequences of this line change it:
    /// see `ansi_written`.
    pub fn set_ansi_line(&mut self, c: u16, r: u16, cols: u16, line: &str, style: &mut Style)
        ensures
            final(self).size == old(self).size,
            final(self).prev_cells == old(self).prev_cells,
            final(self).cells@.len() == old(self).cells@.len(),
            (final(self).cells@, *final(style)) == ansi_written(
                old(self).cells@,
                old(self).place(c, r),
                cols as int,
                line@,
                0,
                0,
                *old(style),
            ),
    {
        let base = self.place_of(c, r);
        let chars = chars_of(line);
        let mut k: usize = 0;
        let mut pos: usize = 0;
        while k < chars.len()
            invariant
                chars@ == line@,
                base == old(self).place(c, r),
                pos < cols || pos == 0,
                self.size == old(self).size,
                self.prev_cells == old(self).prev_cells,
                self.cells@.len() == old(self).cells@.len(),
                ansi_written(old(self).cells@, base as int, cols as int, chars@, 0, 0, *old(style)) == ansi_written(
                    self.cells@,
                    base as int,
                    cols as int,
                    chars@,
                    k as int,
                    pos as int,
                    *style,
                ),
            decreases chars@.len() + 2 - k,
        {
            let ch = chars[k];
            let ghost before = ansi_written(self.cells@, base as int, cols as int, chars@, k as int, pos as int, *style);
            if ch == '\x1b' {
                if chars.len() - k > 1 && chars[k + 1] == '[' {
                    let end = Self::find_end(&chars, k + 2);
                    let codes = line.substring_char(k + 2, end);
                    let ghost was = *style;
                    style.parse_ansi_code(codes);
                    proof {
                        assert(codes@ == chars@.subrange(k + 2, end as int));
                        assert(before == ansi_written(
                            self.cells@,
                            base as int,
                            cols as int,
                            chars@,
                            end + 1,
                            pos as int,
                            *style,
                        ));
                    }
                    if end >= chars.len() {
                        return ;
                    }
                    k = end + 1;
                } else {
                    proof {
                        assert(before == ansi_written(
                            self.cells@,
                            base as int,
                            cols as int,
                            chars@,
                            k + 2,
                            pos as int,
                            *style,
                        ));
                    }
                    if chars.len() - k < 2 {
                        return ;
                    }
                    k = k + 2;
                }
            } else {
                let w = columns_of(ch);
                if w >= cols as usize || pos >= cols as usize - w {
                    return ;
                }
                if w != 0 {
                    let at: u128 = base as u128 + pos as u128;
                    if at < self.cells.len() as u128 {
                        self.cells[at as usize] = Cell { c: ch, s: *style };
                    }
                    pos += w;
                }
                k += 1;
            }
        }
    }

    /// What the terminal is to be told so that it shows the screen as it
    /// is: see `drawn`. The screen then counts as drawn.
    pub fn draw(&mut self) -> (r: Vec<Draw>)
        requires
            old(self).wf(),
        ensures
            final(self).wf(),
            final(self).size == old(self).size,
            final(self).cells == old(self).cells,
            final(self).prev_cells@ == old(self).cells@,
            r@ == drawn(
                scanned(old(self).cells@, old(self).prev_cells@, old(self).size.0 as int, old(self).cells@.len() as int).updates,
                0,
                plain_style(),
            ),
    {
        let updates = self.diff();
        let mut out: Vec<Draw> = Vec::new();
        let mut last = Style { fg: Color::Reset, bg: Color::Reset, attrs: Attrs(0) };
        let mut k: usize = 0;
        while k < updates.len()
            invariant
                k <= updates@.len(),
                drawn(updates@, 0, plain_style()) == out@ + drawn(updates@, k as int, last),
            decreases updates.len() - k,
        {
            let t = updates[k];
            let ghost before = out@;
            out.push(Draw::MoveTo(t.0, t.1));
            let changes = transition(&last, &t.2.s);
            let mut i: usize = 0;
            while i < changes.len()
                invariant
                    i <= changes@.len(),
                    out@ == before + seq![Draw::MoveTo(t.0, t.1)] + painted(changes@).take(i as int),
                decreases changes.len() - i,
            {
                out.push(Draw::Paint(changes[i]));
                i += 1;
                assert(out@ =~= before + seq![Draw::MoveTo(t.0, t.1)] + painted(changes@).take(i as int));
            }
            assert(painted(changes@).take(i as int) =~= painted(changes@));
            out.push(Draw::Print(t.2.c));
            proof {
                assert(out@ + drawn(updates@, k + 1, t.2.s) =~= before + drawn(updates@, k as int, last));
            }
            last = t.2.s;
            k += 1;
        }
        self.commit();
        assert(out@ + drawn(updates@, k as int, last) =~= out@);
        out
    }
}

} // verus!
