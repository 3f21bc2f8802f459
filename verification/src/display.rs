//! What goes to the display, decided before any pixel is touched.
//!
//! The display itself is somebody else's: it takes an order and draws it.
//! This module writes the orders: which text, in which font and colour, and
//! where. Numbers are written in decimal.

use vstd::prelude::*;
use vstd::string::*;

verus! {

/// The width of the panel in pixels.
pub const PANEL_WIDTH: i32 = 96;

/// The width of the idle picture in pixels.
pub const PICTURE_WIDTH: i32 = 86;

/// The height of the idle picture in pixels.
pub const PICTURE_HEIGHT: i32 = 64;

/// The two fonts the panel is drawn with.
#[derive(Clone, Copy, Debug, PartialEq, Eq, Structural)]
pub enum Font {
    /// Glyphs of 6 by 8 pixels.
    Small,
    /// Glyphs of 12 by 16 pixels.
    Large,
}

/// The two colours text is drawn in.
#[derive(Clone, Copy, Debug, PartialEq, Eq, Structural)]
pub enum Ink {
    White,
    Red,
}

/// An order to draw one line of text.
#[derive(Debug, PartialEq, Eq)]
pub struct TextOrder {
    /// What to write.
    pub text: String,
    /// The font to write it in.
    pub font: Font,
    /// The colour to write it in.
    pub ink: Ink,
    /// The left edge of the text.
    pub x: i32,
    /// The top edge of the text.
    pub y: i32,
    /// Whether to wipe the panel first.
    pub clear: bool,
}

/// An order to draw the idle picture.
#[derive(Clone, Copy, Debug, PartialEq, Eq, Structural)]
pub struct PictureOrder {
    /// The left edge of the picture.
    pub x: i32,
    /// The top edge of the picture.
    pub y: i32,
    /// The width of the picture.
    pub width: i32,
    /// The height of the picture.
    pub height: i32,
    /// Whether to wipe the panel first.
    pub clear: bool,
}

/// The character of the decimal digit `d`. Meant for `d` from 0 to 9.
pub open spec fn digit(d: int) -> char {
    if d == 0 {
        '0'
    } else if d == 1 {
        '1'
    } else if d == 2 {
        '2'
    } else if d == 3 {
        '3'
    } else if d == 4 {
        '4'
    } else if d == 5 {
        '5'
    } else if d == 6 {
        '6'
    } else if d == 7 {
        '7'
    } else if d == 8 {
        '8'
    } else {
        '9'
    }
}

/// `n` written in decimal: no sign, no leading zero, `"0"` for zero.
pub open spec fn decimal(n: nat) -> Seq<char>
    decreases n,
{
    if n < 10 {
        seq![digit(n as int)]
    } else {
        decimal(n / 10).push(digit((n % 10) as int))
    }
}

/// The text of a temperature: the whole degrees, a point, the first digit
/// of `tenth`, and the unit.
pub open spec fn temperature_text(whole: u16, tenth: u16) -> Seq<char> {
    decimal(whole as nat) + seq!['.', decimal(tenth as nat)[0], ' ', '\u{b0}', 'C']
}

/// A number in decimal has at least one digit.
pub proof fn lemma_decimal_not_empty(n: nat)
    ensures
        decimal(n).len() >= 1,
    decreases n,
{
    if n >= 10 {
        lemma_decimal_not_empty(n / 10);
    }
}

/// `From<u32>` of `heapless::String`, taken on trust.
///
/// The claim: the conversion writes the number the way the standard
/// formatter displays an unsigned integer, which is plain decimal, and ten
/// bytes hold every `u32`, so that it never fails.
#[verifier::external_body]
fn decimal_string(value: u32) -> (text: String)
    ensures
        text@ == decimal(value as nat),
{
    let digits: heapless::String<heapless::consts::U10> = heapless::String::from(value);
    String::from(digits.as_str())
}

/// The order for a free text: small, white, in the top left corner.
pub fn draw_text(text: &str, clear: bool) -> (order: TextOrder)
    ensures
        order.text@ == text@,
        order.font == Font::Small,
        order.ink == Ink::White,
        order.x == 0,
        order.y == 0,
        order.clear == clear,
{
    TextOrder { text: String::from_str(text), font: Font::Small, ink: Ink::White, x: 0, y: 0, clear }
}

/// The order for a number: large, red, below the first line.
pub fn draw_num(val: u32, clear: bool) -> (order: TextOrder)
    ensures
        order.text@ == decimal(val as nat),
        order.font == Font::Large,
        order.ink == Ink::Red,
        order.x == 0,
        order.y == 25,
        order.clear == clear,
{
    TextOrder { text: decimal_string(val), font: Font::Large, ink: Ink::Red, x: 0, y: 25, clear }
}

/// The order for a temperature: large, white, on the first line.
///
/// `val1` is written in full. Of `val2` only the first digit is written: a
/// decoded reading never has more than one.
pub fn draw_temp(val1: u16, val2: u16, clear: bool) -> (order: TextOrder)
    ensures
        order.text@ == temperature_text(val1, val2),
        order.font == Font::Large,
        order.ink == Ink::White,
        order.x == 0,
        order.y == 0,
        order.clear == clear,
{
    let mut text = decimal_string(val1 as u32);
    let tenth = decimal_string(val2 as u32);
    proof {
        lemma_decimal_not_empty(val2 as nat);
        reveal_strlit(".");
        reveal_strlit(" \u{b0}C");
    }
    text.append(".");
    text.append(tenth.as_str().substring_char(0, 1));
    text.append(" \u{b0}C");
    assert(text@ =~= temperature_text(val1, val2));
    TextOrder { text, font: Font::Large, ink: Ink::White, x: 0, y: 0, clear }
}

/// The order for the idle picture: centred on the panel, at its top.
pub fn draw_rust(clear: bool) -> (order: PictureOrder)
    ensures
        order.x == (PANEL_WIDTH - PICTURE_WIDTH) / 2,
        order.y == 0,
        order.width == PICTURE_WIDTH,
        order.height == PICTURE_HEIGHT,
        order.clear == clear,
{
    PictureOrder {
        x: (PANEL_WIDTH - PICTURE_WIDTH) / 2,
        y: 0,
        width: PICTURE_WIDTH,
        height: PICTURE_HEIGHT,
        clear,
    }
}

} // verus!
