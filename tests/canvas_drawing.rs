use term2d::canvas::{Addressing, Canvas, HALF_BLOCK};
use term2d::circle::Circle;
use term2d::color::Color;
use term2d::image::Image;
use term2d::point::Point;
use term2d::polygon::Polygon;
use term2d::rect::Rect;
use term2d::rgba::Rgba;
use term2d::screen::Pixel;
use term2d::video::Video;

fn cell(canvas: &Canvas, x: usize, y: usize) -> Pixel {
    let cols = canvas.screen().get_size().x as usize;
    canvas.screen().get_pixel(y * cols + x)
}

fn changed_cells(canvas: &Canvas) -> usize {
    let size = canvas.screen().get_size();
    let n = (size.x * size.y) as usize;
    (0..n).filter(|&i| canvas.screen().get_pixel(i) != Pixel::default()).count()
}

fn painted(canvas: &Canvas, x: usize, y: usize) -> bool {
    cell(canvas, x, y) != Pixel::default()
}

#[test]
fn half_block_rows_share_a_cell() {
    let mut canvas = Canvas::new(Addressing::HalfBlock, 4, 3);
    assert_eq!(canvas.get_size(), Point::new(4, 6));
    canvas.draw_pixel(&Point::new(2, 0), &Rgba::red());
    let c = cell(&canvas, 2, 0);
    assert_eq!(c.ch, HALF_BLOCK);
    assert_eq!(c.color.fg, Rgba::red());
    assert_eq!(c.color.bg, Rgba::black());
    canvas.draw_pixel(&Point::new(2, 1), &Rgba::blue());
    let c = cell(&canvas, 2, 0);
    assert_eq!(c.color.fg, Rgba::red());
    assert_eq!(c.color.bg, Rgba::blue());
    canvas.draw_pixel(&Point::new(2, 2), &Rgba::green());
    let c = cell(&canvas, 2, 1);
    assert_eq!(c.ch, HALF_BLOCK);
    assert_eq!(c.color.fg, Rgba::green());
    assert_eq!(changed_cells(&canvas), 2);
}

#[test]
fn half_block_pixels_off_the_canvas_are_dropped() {
    let mut canvas = Canvas::new(Addressing::HalfBlock, 4, 3);
    canvas.draw_pixel(&Point::new(0, -1), &Rgba::red());
    canvas.draw_pixel(&Point::new(0, 6), &Rgba::red());
    canvas.draw_pixel(&Point::new(4, 0), &Rgba::red());
    canvas.draw_char(&Point::new(1, -1), &Color::text(), 'x');
    assert_eq!(changed_cells(&canvas), 0);
}

#[test]
fn full_block_pixel_paints_the_background() {
    let mut canvas = Canvas::new(Addressing::FullBlock, 3, 3);
    assert_eq!(canvas.get_size(), Point::new(3, 3));
    canvas.draw_pixel(&Point::new(1, 2), &Rgba::yellow());
    let c = cell(&canvas, 1, 2);
    assert_eq!(c.ch, ' ');
    assert_eq!(c.color.bg, Rgba::yellow());
    assert_eq!(c.color.fg, Rgba::black());
}

#[test]
fn text_in_half_block_addressing_uses_the_cell_row() {
    let mut canvas = Canvas::new(Addressing::HalfBlock, 5, 2);
    canvas.draw_text(&Point::new(1, 3), &Color::text(), "hi");
    assert_eq!(cell(&canvas, 1, 1).ch, 'h');
    assert_eq!(cell(&canvas, 2, 1).ch, 'i');
    canvas.draw_pixel(&Point::new(0, 0), &Rgba::red());
    canvas.draw_text_transparent(&Point::new(0, 0), &Rgba::white(), "o");
    let c = cell(&canvas, 0, 0);
    assert_eq!(c.ch, 'o');
    assert_eq!(c.color.fg, Rgba::white());
    assert_eq!(c.color.bg, Rgba::black());
}

#[test]
fn line_visits_both_end_points() {
    let mut canvas = Canvas::new(Addressing::FullBlock, 10, 10);
    canvas.draw_line(&Point::new(1, 8), &Point::new(7, 2), &Rgba::red());
    assert!(painted(&canvas, 1, 8));
    assert!(painted(&canvas, 7, 2));
    assert_eq!(changed_cells(&canvas), 7);

    let mut canvas = Canvas::new(Addressing::FullBlock, 10, 10);
    canvas.draw_line(&Point::new(0, 0), &Point::new(9, 3), &Rgba::red());
    assert!(painted(&canvas, 0, 0));
    assert!(painted(&canvas, 9, 3));
    assert_eq!(changed_cells(&canvas), 10);

    let mut canvas = Canvas::new(Addressing::FullBlock, 10, 10);
    canvas.draw_line(&Point::new(4, 4), &Point::new(4, 4), &Rgba::red());
    assert_eq!(changed_cells(&canvas), 1);
}

#[test]
fn line_follows_bresenham() {
    let mut canvas = Canvas::new(Addressing::FullBlock, 6, 3);
    canvas.draw_line(&Point::new(0, 0), &Point::new(5, 2), &Rgba::red());
    let expected = [(0, 0), (1, 0), (2, 1), (3, 1), (4, 2), (5, 2)];
    for (x, y) in expected {
        assert!(painted(&canvas, x, y));
    }
    assert_eq!(changed_cells(&canvas), 6);
}

#[test]
fn rect_fill_touches_every_cell_of_the_rect() {
    let mut canvas = Canvas::new(Addressing::FullBlock, 10, 10);
    canvas.draw_rect_fill(&Rect::new(2, 3, 5, 4), &Rgba::red());
    assert_eq!(changed_cells(&canvas), 20);
    assert!(painted(&canvas, 2, 3));
    assert!(painted(&canvas, 6, 6));
    assert!(!painted(&canvas, 7, 6));
}

#[test]
fn rect_outline_touches_the_border_cells() {
    let mut canvas = Canvas::new(Addressing::FullBlock, 10, 10);
    canvas.draw_rect(&Rect::new(2, 3, 5, 4), &Rgba::red());
    assert_eq!(changed_cells(&canvas), 2 * 5 + 2 * 4 - 4);
    assert!(!painted(&canvas, 3, 4));
    let mut canvas = Canvas::new(Addressing::FullBlock, 10, 10);
    canvas.draw_rect(&Rect::new(0, 0, 2, 2), &Rgba::red());
    assert_eq!(changed_cells(&canvas), 4);
}

#[test]
fn green_over_red_blends() {
    let mut canvas = Canvas::new(Addressing::FullBlock, 10, 10);
    canvas.clear();
    canvas.draw_rect_fill(&Rect::new(0, 0, 4, 4), &Rgba::new(255, 0, 0, 255));
    canvas.draw_rect_fill(&Rect::new(0, 0, 4, 4), &Rgba::new(0, 255, 0, 128));
    let c = cell(&canvas, 0, 0);
    assert_eq!(c.color.bg, Rgba::new(127, 128, 0, 255));
    assert_ne!(c.color.bg, Rgba::green());

    let mut canvas = Canvas::new(Addressing::HalfBlock, 10, 10);
    canvas.clear();
    canvas.draw_rect_fill(&Rect::new(0, 0, 4, 4), &Rgba::new(255, 0, 0, 255));
    canvas.draw_rect_fill(&Rect::new(0, 0, 4, 4), &Rgba::new(0, 255, 0, 128));
    let c = cell(&canvas, 0, 0);
    assert_eq!(c.color.fg, Rgba::new(127, 128, 0, 255));
    assert_eq!(c.color.bg, Rgba::new(127, 128, 0, 255));
}

#[test]
fn circle_outline_and_fill() {
    let mut canvas = Canvas::new(Addressing::FullBlock, 11, 11);
    canvas.draw_circle(&Circle::new(5, 5, 3), &Rgba::red());
    for (x, y) in [(8, 5), (2, 5), (5, 8), (5, 2)] {
        assert!(painted(&canvas, x, y));
    }
    assert!(!painted(&canvas, 5, 5));

    let mut canvas = Canvas::new(Addressing::FullBlock, 11, 11);
    canvas.draw_circle_fill(&Circle::new(5, 5, 3), &Rgba::red());
    assert!(painted(&canvas, 5, 5));
    assert!(painted(&canvas, 3, 5));
    assert!(!painted(&canvas, 2, 5));
    assert!(!painted(&canvas, 8, 5));
    assert_eq!(changed_cells(&canvas), 25);

    let mut canvas = Canvas::new(Addressing::FullBlock, 11, 11);
    canvas.draw_circle(&Circle::new(5, 5, -1), &Rgba::red());
    canvas.draw_circle_fill(&Circle::new(5, 5, 0), &Rgba::red());
    assert_eq!(changed_cells(&canvas), 0);
}

#[test]
fn polygon_outline_and_fill() {
    let tri = Polygon::new(vec![Point::new(0, 0), Point::new(6, 0), Point::new(0, 6)]);
    assert_eq!(*tri.boundary(), Rect::new(0, 0, 6, 6));
    assert_eq!(*tri.center(), Point::new(3, 3));
    assert!(tri.is_inside(&Point::new(1, 1)));
    assert!(!tri.is_inside(&Point::new(5, 5)));

    let mut canvas = Canvas::new(Addressing::FullBlock, 8, 8);
    canvas.draw_polygon(&tri, &Rgba::red());
    assert!(painted(&canvas, 0, 0));
    assert!(painted(&canvas, 6, 0));
    assert!(painted(&canvas, 0, 6));
    assert!(painted(&canvas, 3, 3));
    assert!(!painted(&canvas, 1, 1));

    let mut canvas = Canvas::new(Addressing::FullBlock, 8, 8);
    canvas.draw_polygon_fill(&tri, &Rgba::red());
    assert!(painted(&canvas, 1, 1));
    assert!(!painted(&canvas, 5, 5));

    let line = Polygon::new(vec![Point::new(0, 0), Point::new(5, 5)]);
    let mut canvas = Canvas::new(Addressing::FullBlock, 8, 8);
    canvas.draw_polygon(&line, &Rgba::red());
    canvas.draw_polygon_fill(&line, &Rgba::red());
    canvas.draw_polygon(&Polygon::new(Vec::new()), &Rgba::red());
    assert_eq!(changed_cells(&canvas), 0);
}

#[test]
fn star_and_moving_polygons() {
    let star = Polygon::new_star();
    assert_eq!(star.vertices().len(), 10);
    assert_eq!(star.vertices()[0], Point::new(13, -4));
    assert_eq!(star.vertices()[8], Point::new(0, -14));
    assert_eq!(*star.boundary(), Rect::new(-13, -14, 26, 25));
    assert_eq!(*star.center(), Point::new(0, 0));
    assert!(star.is_inside(&Point::new(0, 0)));
    assert!(!star.is_inside(&Point::new(12, 10)));

    let mut star = star;
    star += &Point::new(20, 20);
    assert_eq!(*star.center(), Point::new(20, 20));
    assert_eq!(*star.boundary(), Rect::new(7, 6, 26, 25));
    assert_eq!(star.vertices()[0], Point::new(33, 16));

    let moved = star.with_vertices(vec![Point::new(1, 2), Point::new(4, -1), Point::new(3, 3)]);
    assert_eq!(*moved.center(), Point::new(20, 20));
    assert_eq!(*moved.boundary(), Rect::new(1, -1, 3, 4));
    assert_eq!(Polygon::calc_boundary(&vec![Point::new(5, 5)]), Rect::new(5, 5, 0, 0));
}

#[test]
fn rect_geometry() {
    let r = Rect::new(1, 2, 3, 4);
    assert!(r.contains(&Point::new(1, 2)));
    assert!(r.contains(&Point::new(3, 5)));
    assert!(!r.contains(&Point::new(4, 5)));
    assert!(!r.contains(&Point::new(3, 6)));
    assert_eq!(Rect::from(Point::new(7, 8)), Rect::new(0, 0, 7, 8));
    assert_eq!(Rect::from(&Point::new(7, 8)), Rect::new(0, 0, 7, 8));
    assert_eq!(r + Point::new(1, 1), Rect::new(2, 3, 3, 4));
    assert_eq!(&r + &Point::new(-1, 0), Rect::new(0, 2, 3, 4));
    let mut m = r;
    m += Point::new(2, 2);
    m += &Point::new(1, 0);
    assert_eq!(m, Rect::new(4, 4, 3, 4));
    assert_eq!(Circle::new(1, 2, 3), Circle { pos: Point::new(1, 2), radius: 3 });
}

fn two_by_two(first: u8) -> Vec<u8> {
    let mut bytes = Vec::new();
    for i in 0..4u8 {
        bytes.extend_from_slice(&[first + i, 0, 0, 255]);
    }
    bytes
}

#[test]
fn images_are_read_mirrored_and_drawn() {
    let mut bytes = two_by_two(10);
    bytes.push(99);
    let img = Image::from_raw(2, 2, bytes);
    assert_eq!(img.size, Point::new(2, 2));
    assert_eq!(img.pixels.len(), 4);
    assert_eq!(img.pixels[1], Rgba::new(11, 0, 0, 255));

    let m = img.mirror_y();
    assert_eq!(m.pixels, vec![img.pixels[1], img.pixels[0], img.pixels[3], img.pixels[2]]);

    let mut canvas = Canvas::new(Addressing::FullBlock, 4, 4);
    canvas.draw_image(&Point::new(1, 1), &img);
    assert_eq!(cell(&canvas, 1, 1).color.bg, Rgba::new(10, 0, 0, 255));
    assert_eq!(cell(&canvas, 2, 2).color.bg, Rgba::new(13, 0, 0, 255));
    assert_eq!(changed_cells(&canvas), 4);
}

#[test]
fn video_frame_advances_once_per_draw() {
    let raw = vec![(2, 2, two_by_two(10)), (2, 2, two_by_two(20)), (2, 2, two_by_two(30))];
    let mut video = Video::from_raw(raw);
    assert_eq!(video.frame, 0);
    assert_eq!(video.images.len(), 3);
    let mut canvas = Canvas::new(Addressing::FullBlock, 4, 4);
    for n in 1..=7usize {
        canvas.draw_video(&Point::new(0, 0), &mut video);
        assert_eq!(video.frame, n % 3);
    }
    assert_eq!(cell(&canvas, 0, 0).color.bg, Rgba::new(10, 0, 0, 255));

    let mirrored = video.mirror_y();
    assert_eq!(mirrored.frame, 0);
    assert_eq!(mirrored.images[2].pixels[0], Rgba::new(31, 0, 0, 255));

    let mut empty = Video::from_raw(Vec::new());
    canvas.draw_video(&Point::new(0, 0), &mut empty);
    assert_eq!(empty.frame, 0);
}

#[test]
fn canvas_resize_clear_and_display() {
    let mut canvas = Canvas::new(Addressing::HalfBlock, 2, 1);
    canvas.draw_pixel(&Point::new(0, 0), &Rgba::red());
    let out = canvas.display();
    assert!(out.starts_with("\x1b[1;1H"));
    assert!(out.contains('\u{2580}'));
    canvas.clear();
    assert_eq!(changed_cells(&canvas), 0);
    canvas.resize(3, 4);
    assert_eq!(canvas.get_size(), Point::new(3, 8));
}

#[test]
fn translucent_rect_outline_paints_each_corner_once() {
    let half_green = Rgba::new(0, 255, 0, 128);
    let once = Rgba::new(0, 128, 0, 255);
    let mut canvas = Canvas::new(Addressing::FullBlock, 10, 10);
    canvas.draw_rect(&Rect::new(1, 1, 4, 3), &half_green);
    for (x, y) in [(1, 1), (4, 1), (1, 3), (4, 3), (2, 1), (1, 2), (4, 2), (3, 3)] {
        assert_eq!(cell(&canvas, x, y).color.bg, once);
    }
    assert!(!painted(&canvas, 2, 2));
    assert_eq!(changed_cells(&canvas), 2 * 4 + 2 * 3 - 4);
}

#[test]
fn thin_rect_outlines_paint_each_cell_once() {
    let half_green = Rgba::new(0, 255, 0, 128);
    let once = Rgba::new(0, 128, 0, 255);
    let mut canvas = Canvas::new(Addressing::FullBlock, 6, 6);
    canvas.draw_rect(&Rect::new(0, 0, 1, 3), &half_green);
    canvas.draw_rect(&Rect::new(2, 4, 3, 1), &half_green);
    for (x, y) in [(0, 0), (0, 1), (0, 2), (2, 4), (3, 4), (4, 4)] {
        assert_eq!(cell(&canvas, x, y).color.bg, once);
    }
    assert_eq!(changed_cells(&canvas), 6);
    canvas.draw_rect(&Rect::new(0, 0, 0, 3), &half_green);
    canvas.draw_rect(&Rect::new(0, 0, 3, -1), &half_green);
    assert_eq!(changed_cells(&canvas), 6);
}

#[test]
fn zero_radius_circle_draws_nothing() {
    let mut canvas = Canvas::new(Addressing::FullBlock, 5, 5);
    canvas.draw_circle(&Circle::new(2, 2, 0), &Rgba::red());
    canvas.draw_circle_fill(&Circle::new(2, 2, 0), &Rgba::red());
    assert_eq!(changed_cells(&canvas), 0);
}

#[test]
fn translucent_circle_outline_paints_each_point_once() {
    let half_green = Rgba::new(0, 255, 0, 128);
    let once = Rgba::new(0, 128, 0, 255);
    let mut canvas = Canvas::new(Addressing::FullBlock, 11, 11);
    canvas.draw_circle(&Circle::new(5, 5, 3), &half_green);
    for (x, y) in [(8, 5), (2, 5), (5, 8), (5, 2), (7, 7), (3, 3)] {
        assert_eq!(cell(&canvas, x, y).color.bg, once);
    }
    let mut canvas = Canvas::new(Addressing::FullBlock, 5, 5);
    canvas.draw_circle(&Circle::new(2, 2, 1), &half_green);
    for (x, y) in [(3, 2), (1, 2), (2, 3), (2, 1), (3, 3), (1, 3), (1, 1), (3, 1)] {
        assert_eq!(cell(&canvas, x, y).color.bg, once);
    }
    assert_eq!(changed_cells(&canvas), 8);
}
