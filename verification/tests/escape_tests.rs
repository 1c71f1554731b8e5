use imsearch::escape::{bar_symbol, blue_escape, escape, green_escape, red_escape, Color};

#[test]
fn test_red_escape() {
    let escaped_text = red_escape("Escaped to be red output");
    assert_eq!(escaped_text, "\x1b[31mEscaped to be red output\x1b[0m");
}

#[test]
fn test_blue_escape() {
    let escaped_text = blue_escape("Escaped to be blue output");
    assert_eq!(escaped_text, "\x1b[34mEscaped to be blue output\x1b[0m");
}

#[test]
fn test_green_escape() {
    let escaped_text = green_escape("Escaped to be green output");
    assert_eq!(escaped_text, "\x1b[32mEscaped to be green output\x1b[0m");
}

#[test]
fn test_escape_with_each_color() {
    assert_eq!(escape("x", Color::Red), "\x1b[31mx\x1b[0m");
    assert_eq!(escape("x", Color::Green), "\x1b[32mx\x1b[0m");
    assert_eq!(escape("x", Color::Blue), "\x1b[34mx\x1b[0m");
}

#[test]
fn test_escape_leaves_alpha_and_grey_alone() {
    assert_eq!(escape("plain", Color::Alpha), "plain");
    assert_eq!(escape("plain", Color::Grey), "plain");
    assert_eq!(escape("", Color::Grey), "");
}

#[test]
fn test_escape_of_empty_text() {
    assert_eq!(escape("", Color::Red), "\x1b[31m\x1b[0m");
}

#[test]
fn test_bar_symbol_of_one_channel() {
    assert_eq!(bar_symbol(1, 0), "█");
}

#[test]
fn test_bar_symbol_of_three_channels() {
    assert_eq!(bar_symbol(3, 0), "\x1b[31m█\x1b[0m");
    assert_eq!(bar_symbol(3, 1), "\x1b[32m█\x1b[0m");
    assert_eq!(bar_symbol(3, 2), "\x1b[34m█\x1b[0m");
    assert_eq!(bar_symbol(3, 3), "█");
}

#[test]
fn test_bar_symbol_of_four_channels() {
    assert_eq!(bar_symbol(4, 0), "\x1b[31m█\x1b[0m");
    assert_eq!(bar_symbol(4, 1), "\x1b[32m█\x1b[0m");
    assert_eq!(bar_symbol(4, 2), "\x1b[34m█\x1b[0m");
    assert_eq!(bar_symbol(4, 3), "▒");
    assert_eq!(bar_symbol(4, 4), "█");
}

#[test]
fn test_bar_symbol_of_other_channel_counts() {
    assert_eq!(bar_symbol(2, 0), "█");
    assert_eq!(bar_symbol(2, 1), "█");
    assert_eq!(bar_symbol(5, 3), "█");
    assert_eq!(bar_symbol(0, 0), "█");
}
