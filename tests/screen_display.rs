use term2d::ansiesc::cursor_goto;
use term2d::color::Color;
use term2d::point::Point;
use term2d::rgba::Rgba;
use term2d::screen::{Pixel, Screen};

fn black_black() -> String {
    Color { bg: Rgba::black(), fg: Rgba::black() }.ansi()
}

fn blank_row(row: i32) -> String {
    format!("{}{}         ", cursor_goto(1, row), black_black())
}

#[test]
fn it_displays_an_empty_screen() {
    let black_black = black_black();
    let screen = Screen::new(9, 9);
    let s = screen.display();

    let mut t = String::new();
    t.push_str(&format!("{}{black_black}         ", cursor_goto(1, 1)));
    t.push_str(&format!("{}{black_black}         ", cursor_goto(1, 2)));
    t.push_str(&format!("{}{black_black}         ", cursor_goto(1, 3)));
    t.push_str(&format!("{}{black_black}         ", cursor_goto(1, 4)));
    t.push_str(&format!("{}{black_black}         ", cursor_goto(1, 5)));
    t.push_str(&format!("{}{black_black}         ", cursor_goto(1, 6)));
    t.push_str(&format!("{}{black_black}         ", cursor_goto(1, 7)));
    t.push_str(&format!("{}{black_black}         ", cursor_goto(1, 8)));
    t.push_str(&format!("{}{black_black}         ", cursor_goto(1, 9)));

    assert_eq!(s, t);
}

#[test]
fn it_displays_a_screen_with_two_pixels_and_only_bg_color_changes() {
    let black_black = black_black();
    let green_bg = Rgba::green().bg_ansi();
    let black_bg = Rgba::black().bg_ansi();

    let mut screen = Screen::new(9, 9);
    screen.draw_pixel(&Point::new(3, 3), &Rgba::green());
    screen.draw_pixel(&Point::new(4, 3), &Rgba::green());
    let s = screen.display();

    let mut t = String::new();
    t.push_str(&format!("{}{black_black}         ", cursor_goto(1, 1)));
    t.push_str(&format!("{}{black_black}         ", cursor_goto(1, 2)));
    t.push_str(&format!("{}{black_black}         ", cursor_goto(1, 3)));
    t.push_str(&format!("{}{black_black}   {green_bg}  {black_bg}    ", cursor_goto(1, 4)));
    t.push_str(&format!("{}{black_black}         ", cursor_goto(1, 5)));
    t.push_str(&format!("{}{black_black}         ", cursor_goto(1, 6)));
    t.push_str(&format!("{}{black_black}         ", cursor_goto(1, 7)));
    t.push_str(&format!("{}{black_black}         ", cursor_goto(1, 8)));
    t.push_str(&format!("{}{black_black}         ", cursor_goto(1, 9)));

    assert_eq!(s, t);
}

#[test]
fn it_displays_a_screen_with_two_chars_and_fg_and_bg_color_changes() {
    let black_black = black_black();
    let green_red = Color { bg: Rgba::green(), fg: Rgba::red() }.ansi();

    let mut screen = Screen::new(9, 9);
    screen.draw_char(&Point::new(3, 3), &Color { bg: Rgba::green(), fg: Rgba::red() }, '#');
    screen.draw_char(&Point::new(4, 3), &Color { bg: Rgba::green(), fg: Rgba::red() }, '#');
    let s = screen.display();

    let mut t = String::new();
    t.push_str(&format!("{}{black_black}         ", cursor_goto(1, 1)));
    t.push_str(&format!("{}{black_black}         ", cursor_goto(1, 2)));
    t.push_str(&format!("{}{black_black}         ", cursor_goto(1, 3)));
    t.push_str(&format!("{}{black_black}   {green_red}##{black_black}    ", cursor_goto(1, 4)));
    t.push_str(&format!("{}{black_black}         ", cursor_goto(1, 5)));
    t.push_str(&format!("{}{black_black}         ", cursor_goto(1, 6)));
    t.push_str(&format!("{}{black_black}         ", cursor_goto(1, 7)));
    t.push_str(&format!("{}{black_black}         ", cursor_goto(1, 8)));
    t.push_str(&format!("{}{black_black}         ", cursor_goto(1, 9)));

    assert_eq!(s, t);
}

#[test]
fn it_displays_a_screen_with_three_differently_colored_chars() {
    let black_black = black_black();
    let green_red = Color { bg: Rgba::green(), fg: Rgba::red() }.ansi();
    let blue_fg = Rgba::blue().fg_ansi();
    let yellow_bg = Rgba::yellow().bg_ansi();

    let mut screen = Screen::new(9, 9);
    screen.draw_char(&Point::new(3, 3), &Color { bg: Rgba::green(), fg: Rgba::red() }, '#');
    screen.draw_char(&Point::new(4, 3), &Color { bg: Rgba::green(), fg: Rgba::blue() }, '#');
    screen.draw_char(&Point::new(5, 3), &Color { bg: Rgba::yellow(), fg: Rgba::blue() }, '#');
    let s = screen.display();

    let mut t = String::new();
    t.push_str(&format!("{}{black_black}         ", cursor_goto(1, 1)));
    t.push_str(&format!("{}{black_black}         ", cursor_goto(1, 2)));
    t.push_str(&format!("{}{black_black}         ", cursor_goto(1, 3)));
    t.push_str(&format!(
        "{}{black_black}   {green_red}#{blue_fg}#{yellow_bg}#{black_black}   ",
        cursor_goto(1, 4)
    ));
    t.push_str(&format!("{}{black_black}         ", cursor_goto(1, 5)));
    t.push_str(&format!("{}{black_black}         ", cursor_goto(1, 6)));
    t.push_str(&format!("{}{black_black}         ", cursor_goto(1, 7)));
    t.push_str(&format!("{}{black_black}         ", cursor_goto(1, 8)));
    t.push_str(&format!("{}{black_black}         ", cursor_goto(1, 9)));

    assert_eq!(s, t);
}

#[test]
fn two_adjacent_cells_of_one_color_share_one_escape() {
    let mut screen = Screen::new(4, 1);
    let c = Color { bg: Rgba::blue(), fg: Rgba::white() };
    screen.draw_char(&Point::new(1, 0), &c, 'a');
    screen.draw_char(&Point::new(2, 0), &c, 'b');
    let expected = format!(
        "{}{} {}ab{} ",
        cursor_goto(1, 1),
        black_black(),
        c.ansi(),
        black_black()
    );
    assert_eq!(screen.display(), expected);
}

#[test]
fn display_of_a_screen_without_columns_moves_the_cursor_only() {
    let screen = Screen::new(0, 2);
    assert_eq!(screen.display(), format!("{}{}", cursor_goto(1, 1), cursor_goto(1, 2)));
}

#[test]
fn drawing_off_the_screen_is_dropped() {
    let mut screen = Screen::new(9, 9);
    screen.draw_pixel(&Point::new(9, 0), &Rgba::green());
    screen.draw_pixel(&Point::new(-1, 3), &Rgba::green());
    screen.draw_char(&Point::new(0, 9), &Color::text(), 'x');
    screen.draw_text(&Point::new(7, 2), &Color::text(), "abcdef");
    let mut t = String::new();
    for row in 1..=9 {
        if row == 3 {
            t.push_str(&format!(
                "{}{}       {}ab",
                cursor_goto(1, 3),
                black_black(),
                Rgba::new(200, 200, 200, 255).fg_ansi()
            ));
        } else {
            t.push_str(&blank_row(row));
        }
    }
    assert_eq!(screen.display(), t);
}

#[test]
fn draw_char_blends_both_colors_of_the_cell() {
    let mut screen = Screen::new(2, 2);
    screen.draw_char(&Point::new(1, 1), &Color { bg: Rgba::red(), fg: Rgba::white() }, 'q');
    screen.draw_char(&Point::new(1, 1), &Color { bg: Rgba::new(0, 255, 0, 128), fg: Rgba::transparent() }, 'z');
    let p = screen.get_pixel(3);
    assert_eq!(p.ch, 'z');
    assert_eq!(p.color.bg, Rgba::new(127, 128, 0, 255));
    assert_eq!(p.color.fg, Rgba::white());
    assert_eq!(screen.get_color(&Point::new(1, 1)), p.color);
}

#[test]
fn clear_and_resize_give_blank_cells() {
    let mut screen = Screen::new(3, 3);
    screen.draw_text(&Point::new(0, 1), &Color::text(), "\u{2580}\u{2580}");
    assert_eq!(screen.get_pixel(4).ch, '\u{2580}');
    screen.clear();
    assert_eq!(screen.get_pixel(4), Pixel::default());
    screen.resize(5, 2);
    assert_eq!(screen.get_size(), Point::new(5, 2));
    assert_eq!(screen.get_pixel(9), Pixel::default());
    assert_eq!(Pixel::from('x'), Pixel { ch: 'x', color: Color::text() });
}
