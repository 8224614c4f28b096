use crate::model::PaletteColor;
use crate::text::decimal_of;
use vstd::prelude::*;

verus! {

/// The parameters that select `c` after the `38;` or `48;` of a color code:
/// `2;r;g;b` for a 24-bit color, `5;n` for a palette index.
pub open spec fn color_code(c: PaletteColor) -> Seq<char> {
    match c {
        PaletteColor::Rgb(r, g, b) => "2;"@ + decimal_of(r as nat) + ";"@ + decimal_of(g as nat) + ";"@
            + decimal_of(b as nat),
        PaletteColor::EightBit(n) => "5;"@ + decimal_of(n as nat),
    }
}

/// The text that ansi_term prints for `text` in bold, with foreground `fg`
/// on background `bg`: the bold, background and foreground codes, the text,
/// and the reset code.
pub open spec fn painted_bold(fg: PaletteColor, bg: PaletteColor, text: Seq<char>) -> Seq<char> {
    "\u{1b}[1;48;"@ + color_code(bg) + ";38;"@ + color_code(fg) + "m"@ + text + "\u{1b}[0m"@
}

/// Relies on ansi_term's `Style::paint` and the `Display` impl of the painted
/// string, which writes the style's prefix (`ESC[`, `1` for bold, the
/// background code, the foreground code, `m`), the text, and `ESC[0m`.
#[verifier::external_body]
pub(crate) fn paint_bold(fg: PaletteColor, bg: PaletteColor, text: String) -> (r: String)
    ensures
        r@ == painted_bold(fg, bg, text@),
{
    let fg = match fg {
        PaletteColor::Rgb(r, g, b) => ansi_term::Colour::RGB(r, g, b),
        PaletteColor::EightBit(c) => ansi_term::Colour::Fixed(c),
    };
    let bg = match bg {
        PaletteColor::Rgb(r, g, b) => ansi_term::Colour::RGB(r, g, b),
        PaletteColor::EightBit(c) => ansi_term::Colour::Fixed(c),
    };
    ansi_term::Style::new().fg(fg).on(bg).bold().paint(text).to_string()
}

} // verus!
