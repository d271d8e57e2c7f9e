//! ANSI colouring of terminal text.
use vstd::prelude::*;

use crate::text::{chars_of, push_all, string_of};

verus! {

#[derive(Clone, Copy, Debug, PartialEq, Eq, Structural)]
pub enum TextColor {
    Red,
    Green,
    Cyan,
    BrightRed,
    BrightGreen,
    BrightBlue,
    BrightYellow,
    BrightMagenta,
}

/// The ANSI foreground colour code of each colour.
pub open spec fn color_code(c: TextColor) -> Seq<char> {
    match c {
        TextColor::Red => "31"@,
        TextColor::Green => "32"@,
        TextColor::Cyan => "36"@,
        TextColor::BrightRed => "91"@,
        TextColor::BrightGreen => "92"@,
        TextColor::BrightYellow => "93"@,
        TextColor::BrightBlue => "94"@,
        TextColor::BrightMagenta => "95"@,
    }
}

fn code_str(c: TextColor) -> (r: &'static str)
    ensures
        r@ == color_code(c),
{
    match c {
        TextColor::Red => "31",
        TextColor::Green => "32",
        TextColor::Cyan => "36",
        TextColor::BrightRed => "91",
        TextColor::BrightGreen => "92",
        TextColor::BrightYellow => "93",
        TextColor::BrightBlue => "94",
        TextColor::BrightMagenta => "95",
    }
}

/// `text` wrapped in the escape sequences that switch to `color` and back to the default.
pub fn colorize_txt(color: TextColor, text: &str) -> (r: String)
    ensures
        r@ == "\x1b["@ + color_code(color) + "m"@ + text@ + "\x1b[0m"@,
{
    let mut v = chars_of("\x1b[");
    let code = chars_of(code_str(color));
    push_all(&mut v, &code);
    let m = chars_of("m");
    push_all(&mut v, &m);
    let t = chars_of(text);
    push_all(&mut v, &t);
    let reset = chars_of("\x1b[0m");
    push_all(&mut v, &reset);
    string_of(&v)
}

} // verus!
