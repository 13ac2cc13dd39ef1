use game_of_life::{Color, Framebuffer};

#[test]
fn colors_have_their_channels() {
    assert_eq!(Color::black(), Color { r: 0, g: 0, b: 0 });
    assert_eq!(Color::white(), Color { r: 255, g: 255, b: 255 });
    assert_ne!(Color::black(), Color::white());
}

#[test]
fn new_framebuffer_is_black() {
    let fb = Framebuffer::new(4, 3);
    for y in 0..3 {
        for x in 0..4 {
            assert_eq!(fb.get_color(x, y), Color::black());
        }
    }
}

#[test]
fn point_sets_one_pixel() {
    let mut fb = Framebuffer::new(4, 3);
    fb.point(2, 1, Color::white());
    for y in 0..3 {
        for x in 0..4 {
            let expected = if (x, y) == (2, 1) { Color::white() } else { Color::black() };
            assert_eq!(fb.get_color(x, y), expected);
        }
    }
}

#[test]
fn point_out_of_range_changes_nothing() {
    let mut fb = Framebuffer::new(4, 3);
    fb.point(1, 1, Color::white());
    fb.point(4, 0, Color::white());
    fb.point(0, 3, Color::white());
    fb.point(usize::MAX, usize::MAX, Color::white());
    for y in 0..3 {
        for x in 0..4 {
            let expected = if (x, y) == (1, 1) { Color::white() } else { Color::black() };
            assert_eq!(fb.get_color(x, y), expected);
        }
    }
}

#[test]
fn get_color_out_of_range_is_black() {
    let mut fb = Framebuffer::new(4, 3);
    for y in 0..3 {
        for x in 0..4 {
            fb.point(x, y, Color::white());
        }
    }
    assert_eq!(fb.get_color(4, 0), Color::black());
    assert_eq!(fb.get_color(0, 3), Color::black());
    assert_eq!(fb.get_color(usize::MAX, 0), Color::black());
}

#[test]
fn display_writes_clear_sequence_then_rows() {
    let mut fb = Framebuffer::new(3, 2);
    fb.point(0, 0, Color::white());
    fb.point(2, 1, Color::white());
    let text = fb.display();
    assert_eq!(text, "\u{1b}[2J\u{1b}[1;1H\u{2588}\u{2588}    \n    \u{2588}\u{2588}\n");
}

#[test]
fn display_treats_other_colors_as_blank() {
    let mut fb = Framebuffer::new(1, 1);
    fb.point(0, 0, Color { r: 255, g: 255, b: 254 });
    assert_eq!(fb.display(), "\u{1b}[2J\u{1b}[1;1H  \n");
}

#[test]
fn display_of_empty_buffer_is_only_the_clear_sequence() {
    let fb = Framebuffer::new(0, 0);
    assert_eq!(fb.display(), "\u{1b}[2J\u{1b}[1;1H");
}
