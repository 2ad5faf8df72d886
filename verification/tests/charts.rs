use sam_toolkit::charts::{bold, hbar, paint, Color};

#[test]
fn hbar_scales_and_clamps() {
    assert_eq!(hbar(0, 10, 8), "");
    assert_eq!(hbar(10, 10, 8), "████████");
    assert_eq!(hbar(20, 10, 8), "████████"); // clamped
    assert_eq!(hbar(5, 10, 8), "████"); // exactly half
    assert_eq!(hbar(1, 0, 8), ""); // non-positive max
}

#[test]
fn hbar_draws_eighths_of_a_cell() {
    // One sixteenth of eight cells is half a cell: four eighths.
    assert_eq!(hbar(1, 16, 8), "▌");
    // A negative value draws nothing.
    assert_eq!(hbar(-3, 10, 8), "");
    // Three quarters of a single cell.
    assert_eq!(hbar(3, 4, 1), "▊");
}

#[test]
fn paint_wraps_only_when_enabled() {
    assert_eq!(paint("up", Color::Green, true), "\x1b[32mup\x1b[0m");
    assert_eq!(paint("up", Color::Green, false), "up");
    assert_eq!(bold("Title", true), "\x1b[1mTitle\x1b[0m");
    assert_eq!(bold("Title", false), "Title");
}
