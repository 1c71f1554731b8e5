//! Coloring of console text by ANSI escape sequences.

use vstd::prelude::*;
use vstd::string::*;

verus! {

/// The colors in which text can be asked for.
#[derive(Clone, Copy, Debug, PartialEq, Eq, Structural)]
pub enum Color {
    Red,
    Blue,
    Green,
    Alpha,
    Grey,
}

/// The sequence that switches the console to `color`.  Only red, green and blue
/// have one.
pub open spec fn color_start(color: Color) -> Seq<char> {
    match color {
        Color::Red => "\x1b[31m"@,
        Color::Green => "\x1b[32m"@,
        Color::Blue => "\x1b[34m"@,
        _ => Seq::<char>::empty(),
    }
}

/// The sequence that switches the console back after text in `color`.
pub open spec fn color_end(color: Color) -> Seq<char> {
    match color {
        Color::Red | Color::Green | Color::Blue => "\x1b[0m"@,
        _ => Seq::<char>::empty(),
    }
}

/// The text between the sequences that switch its color on and off.
pub open spec fn escaped(text: Seq<char>, color: Color) -> Seq<char> {
    color_start(color) + text + color_end(color)
}

/// Wraps a text in the escape sequences of a color.  Text in a color without
/// escape sequences comes back as it is.
pub fn escape(str_to_be_escaped: &str, color: Color) -> (output: String)
    ensures
        output@ == escaped(str_to_be_escaped@, color),
{
    let (start_escape, end_escape): (&str, &str) = match color {
        Color::Red => ("\x1b[31m", "\x1b[0m"),
        Color::Green => ("\x1b[32m", "\x1b[0m"),
        Color::Blue => ("\x1b[34m", "\x1b[0m"),
        _ => ("", ""),
    };
    proof {
        reveal_strlit("");
        assert(""@ =~= Seq::<char>::empty());
    }
    let mut output = String::from_str(start_escape);
    output.append(str_to_be_escaped);
    output.append(end_escape);
    output
}

/// Wraps a text in the escape sequences for red.
pub fn red_escape(str_to_be_escaped: &str) -> (output: String)
    ensures
        output@ == escaped(str_to_be_escaped@, Color::Red),
{
    escape(str_to_be_escaped, Color::Red)
}

/// Wraps a text in the escape sequences for blue.
pub fn blue_escape(str_to_be_escaped: &str) -> (output: String)
    ensures
        output@ == escaped(str_to_be_escaped@, Color::Blue),
{
    escape(str_to_be_escaped, Color::Blue)
}

/// Wraps a text in the escape sequences for green.
pub fn green_escape(str_to_be_escaped: &str) -> (output: String)
    ensures
        output@ == escaped(str_to_be_escaped@, Color::Green),
{
    escape(str_to_be_escaped, Color::Green)
}

/// The symbol of which the bars of a histogram diagram are drawn, for color
/// channel `channel` of a picture with `channel_count` channels.
pub open spec fn bar_symbol_of(channel_count: usize, channel: usize) -> Seq<char> {
    if (channel_count == 3 || channel_count == 4) && channel <= 2 {
        escaped(
            "█"@,
            if channel == 0 {
                Color::Red
            } else if channel == 1 {
                Color::Green
            } else {
                Color::Blue
            },
        )
    } else if channel_count == 4 && channel == 3 {
        "▒"@
    } else {
        "█"@
    }
}

/// The bar symbol for one channel's diagram: a block in the channel's color
/// where the picture has three or four channels, a shaded block for the fourth
/// of four, and a plain block otherwise.
pub fn bar_symbol(channel_count: usize, channel: usize) -> (symbol: String)
    ensures
        symbol@ == bar_symbol_of(channel_count, channel),
{
    if (channel_count == 3 || channel_count == 4) && channel <= 2 {
        if channel == 0 {
            red_escape("█")
        } else if channel == 1 {
            green_escape("█")
        } else {
            blue_escape("█")
        }
    } else if channel_count == 4 && channel == 3 {
        String::from_str("▒")
    } else {
        String::from_str("█")
    }
}

} // verus!
