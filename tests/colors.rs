use term2d::color::Color;
use term2d::rgba::Rgba;

#[test]
fn it_constructs_rgba_from_hex_string() {
    let color = Rgba::from_hex("012345");
    assert_eq!(color, Rgba { r: 1, g: 35, b: 69, a: 255 });

    let color = Rgba::from_hex("678901");
    assert_eq!(color, Rgba { r: 103, g: 137, b: 01, a: 255 });

    let color = Rgba::from_hex("abcdef");
    assert_eq!(color, Rgba { r: 171, g: 205, b: 239, a: 255 });

    let color = Rgba::from_hex("ABCDEF");
    assert_eq!(color, Rgba { r: 171, g: 205, b: 239, a: 255 });
}

#[test]
fn blend_with_opaque_source_gives_the_source() {
    let src = Rgba::new(10, 20, 30, 255);
    for dst in [Rgba::black(), Rgba::white(), Rgba::new(1, 2, 3, 0), Rgba::new(200, 100, 50, 77)] {
        assert_eq!(src.blend(&dst), src);
    }
}

#[test]
fn blend_with_transparent_source_keeps_the_destination() {
    let src = Rgba::new(10, 20, 30, 0);
    for dst in [Rgba::black(), Rgba::white(), Rgba::new(1, 2, 3, 0), Rgba::new(200, 100, 50, 77)] {
        assert_eq!(src.blend(&dst), dst);
    }
}

#[test]
fn blend_interpolates_and_makes_the_result_opaque() {
    let green = Rgba::new(0, 255, 0, 128);
    assert_eq!(green.blend(&Rgba::red()), Rgba::new(127, 128, 0, 255));
    let white = Rgba::new(255, 255, 255, 254);
    assert_eq!(white.blend(&Rgba::white()), Rgba::new(255, 255, 255, 255));
    let half = Rgba::new(255, 0, 255, 1);
    assert_eq!(half.blend(&Rgba::new(0, 255, 0, 9)), Rgba::new(1, 254, 1, 255));
}

#[test]
fn blend_channels_stay_in_range_for_extremes() {
    for a in [1u8, 2, 127, 128, 253, 254] {
        let r = Rgba::new(255, 0, 255, a).blend(&Rgba::new(255, 255, 0, 255));
        assert_eq!(r.r, 255);
        assert_eq!(r.a, 255);
    }
}

#[test]
fn fade_moves_towards_the_target_without_overshooting() {
    let mut c = Rgba::new(0, 100, 200, 7);
    c.fade(&Rgba::new(10, 100, 190, 255), 3);
    assert_eq!(c, Rgba::new(3, 100, 197, 7));
    c.fade(&Rgba::new(10, 100, 190, 255), 100);
    assert_eq!(c, Rgba::new(10, 100, 190, 7));
}

#[test]
fn fade_saturates_for_a_negative_speed() {
    let mut c = Rgba::new(1, 254, 5, 255);
    c.fade(&Rgba::new(50, 0, 5, 255), -10);
    assert_eq!(c, Rgba::new(0, 255, 5, 255));
}

#[test]
fn named_colors() {
    assert_eq!(Rgba::transparent(), Rgba::new(0, 0, 0, 0));
    assert_eq!(Rgba::black(), Rgba::new(0, 0, 0, 255));
    assert_eq!(Rgba::white(), Rgba::new(255, 255, 255, 255));
    assert_eq!(Rgba::red(), Rgba::new(255, 0, 0, 255));
    assert_eq!(Rgba::green(), Rgba::new(0, 255, 0, 255));
    assert_eq!(Rgba::blue(), Rgba::new(0, 0, 255, 255));
    assert_eq!(Rgba::yellow(), Rgba::new(255, 255, 0, 255));
    assert_eq!(Rgba::cyan(), Rgba::new(0, 255, 255, 255));
    assert_eq!(Rgba::violet(), Rgba::new(255, 0, 255, 255));
    assert_eq!(Rgba::orange(), Rgba::new(255, 128, 0, 255));
    assert_eq!(Rgba::default(), Rgba::black());
}

#[test]
fn ansi_sequences_of_colors() {
    assert_eq!(Rgba::new(1, 22, 255, 0).fg_ansi(), "\x1b[38;2;1;22;255m");
    assert_eq!(Rgba::new(0, 128, 7, 9).bg_ansi(), "\x1b[48;2;0;128;7m");
    let c = Color { bg: Rgba::green(), fg: Rgba::red() };
    assert_eq!(c.ansi(), "\x1b[38;2;255;0;0;48;2;0;255;0m");
    assert_eq!(Color::default(), Color { bg: Rgba::black(), fg: Rgba::black() });
    assert_eq!(Color::text(), Color { bg: Rgba::black(), fg: Rgba::new(200, 200, 200, 255) });
}

#[test]
fn cursor_goto_addresses_row_then_column() {
    assert_eq!(term2d::ansiesc::cursor_goto(1, 9), "\x1b[9;1H");
    assert_eq!(term2d::ansiesc::cursor_goto(120, 45), "\x1b[45;120H");
    assert_eq!(term2d::ansiesc::cursor_goto(-3, 0), "\x1b[0;-3H");
}
