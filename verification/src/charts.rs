//! Terminal colour helpers: ANSI foreground codes and the escape sequences
//! that wrap text in them.

use vstd::prelude::*;
use vstd::string::*;
use crate::text::{push_char, repeat_char};

verus! {

/// ANSI foreground colours used to echo the web app's palette.
#[derive(Clone, Copy, PartialEq, Eq, Debug)]
pub enum Color {
    Green,
    Red,
    Yellow,
    Blue,
    Magenta,
    Cyan,
    Dim,
}

/// The SGR parameter of each colour.
pub open spec fn color_code(color: Color) -> Seq<char> {
    match color {
        Color::Green => seq!['3', '2'],
        Color::Red => seq!['3', '1'],
        Color::Yellow => seq!['3', '3'],
        Color::Blue => seq!['3', '4'],
        Color::Magenta => seq!['3', '5'],
        Color::Cyan => seq!['3', '6'],
        Color::Dim => seq!['9', '0'],
    }
}

impl Color {
    pub fn code(self) -> (code: &'static str)
        ensures
            code@ == color_code(self),
    {
        proof {
            reveal_strlit("32");
            reveal_strlit("31");
            reveal_strlit("33");
            reveal_strlit("34");
            reveal_strlit("35");
            reveal_strlit("36");
            reveal_strlit("90");
        }
        match self {
            Color::Green => "32",
            Color::Red => "31",
            Color::Yellow => "33",
            Color::Blue => "34",
            Color::Magenta => "35",
            Color::Cyan => "36",
            Color::Dim => "90",
        }
    }
}

/// `text` wrapped in the SGR sequence of `color` and a reset, when colour is
/// enabled; `text` unchanged otherwise. Whether colour is enabled (stdout is a
/// terminal and `NO_COLOR` is unset) is the caller's to find out.
pub fn paint(text: &str, color: Color, enabled: bool) -> (painted: String)
    ensures
        enabled ==> painted@ == "\x1b["@ + color_code(color) + "m"@ + text@ + "\x1b[0m"@,
        !enabled ==> painted@ == text@,
{
    if enabled {
        let mut out = String::from_str("\x1b[");
        out.append(color.code());
        out.append("m");
        out.append(text);
        out.append("\x1b[0m");
        out
    } else {
        String::from_str(text)
    }
}

/// `text` in bold (used for headings), unchanged when colour is disabled.
pub fn bold(text: &str, enabled: bool) -> (emboldened: String)
    ensures
        enabled ==> emboldened@ == "\x1b[1m"@ + text@ + "\x1b[0m"@,
        !enabled ==> emboldened@ == text@,
{
    if enabled {
        let mut out = String::from_str("\x1b[1m");
        out.append(text);
        out.append("\x1b[0m");
        out
    } else {
        String::from_str(text)
    }
}

/// The eighth-of-a-cell glyphs, from one eighth to a full cell.
pub open spec fn eighth_glyph(eighths: int) -> char {
    if eighths <= 1 {
        '▏'
    } else if eighths == 2 {
        '▎'
    } else if eighths == 3 {
        '▍'
    } else if eighths == 4 {
        '▌'
    } else if eighths == 5 {
        '▋'
    } else if eighths == 6 {
        '▊'
    } else if eighths == 7 {
        '▉'
    } else {
        '█'
    }
}

/// `value` clamped into `[0, max]`.
pub open spec fn clamped(value: int, max: int) -> int {
    if value < 0 {
        0
    } else if value > max {
        max
    } else {
        value
    }
}

/// Full cells of a `width`-cell bar showing `value / max`.
pub open spec fn bar_full_cells(value: int, max: int, width: int) -> int {
    clamped(value, max) * width / max
}

/// Eighths of the partial cell after the full ones, rounded half up.
pub open spec fn bar_eighths(value: int, max: int, width: int) -> int {
    (16 * ((clamped(value, max) * width) % max) + max) / (2 * max)
}

/// A horizontal bar `width` cells wide showing `value / max` to an eighth of a
/// cell; empty for a non-positive `max`.
pub open spec fn hbar_chars(value: int, max: int, width: int) -> Seq<char> {
    if max <= 0 {
        Seq::empty()
    } else {
        let full = bar_full_cells(value, max, width);
        let eighths = bar_eighths(value, max, width);
        Seq::new(full as nat, |_i: int| '█') + if full < width && eighths > 0 {
            seq![eighth_glyph(eighths)]
        } else {
            Seq::<char>::empty()
        }
    }
}

pub proof fn lemma_hbar_len(value: int, max: int, width: int)
    requires
        max > 0,
        width >= 0,
    ensures
        0 <= bar_full_cells(value, max, width) <= width,
        0 <= bar_eighths(value, max, width) <= 8,
        hbar_chars(value, max, width).len() <= width,
{
    let v = clamped(value, max);
    assert(0 <= v * width <= max * width) by (nonlinear_arith)
        requires
            0 <= v <= max,
            width >= 0,
    ;
    assert(v * width / max <= width) by (nonlinear_arith)
        requires
            0 <= v * width <= max * width,
            max > 0,
    ;
    assert(0 <= (v * width) % max < max) by (nonlinear_arith)
        requires
            max > 0,
    ;
    assert(0 <= (16 * ((v * width) % max) + max) / (2 * max) <= 8) by (nonlinear_arith)
        requires
            0 <= (v * width) % max < max,
            max > 0,
    ;
    if bar_full_cells(value, max, width) == width {
        assert(hbar_chars(value, max, width).len() == width);
    }
}

/// A horizontal bar `width` cells wide representing `value / max`, with
/// eighth-of-a-cell resolution. Returns an empty bar for non-positive `max`.
pub fn hbar(value: i64, max: i64, width: usize) -> (bar: String)
    ensures
        bar@ == hbar_chars(value as int, max as int, width as int),
{
    if max <= 0 {
        return String::new();
    }
    proof {
        lemma_hbar_len(value as int, max as int, width as int);
    }
    let v: u128 = if value < 0 {
        0
    } else if value > max {
        max as u128
    } else {
        value as u128
    };
    let m: u128 = max as u128;
    let w: u128 = width as u128;
    assert(v * w <= m * w) by (nonlinear_arith)
        requires
            v <= m,
    ;
    assert(m * w <= 0x8000_0000_0000_0000u128 * 0x1_0000_0000_0000_0000u128) by (nonlinear_arith)
        requires
            m <= 0x8000_0000_0000_0000u128,
            w <= 0x1_0000_0000_0000_0000u128,
    ;
    let units: u128 = v * w;
    let full: u128 = units / m;
    let rem: u128 = units % m;
    let eighths: u128 = (16 * rem + m) / (2 * m);
    let mut bar = repeat_char('█', full as usize);
    if full < w && eighths > 0 {
        let glyph = if eighths == 1 {
            '▏'
        } else if eighths == 2 {
            '▎'
        } else if eighths == 3 {
            '▍'
        } else if eighths == 4 {
            '▌'
        } else if eighths == 5 {
            '▋'
        } else if eighths == 6 {
            '▊'
        } else if eighths == 7 {
            '▉'
        } else {
            '█'
        };
        push_char(&mut bar, glyph);
    }
    proof {
        let expected = hbar_chars(value as int, max as int, width as int);
        assert(bar@ =~= expected);
    }
    bar
}

} // verus!
