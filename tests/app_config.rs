use term2d::ansiesc::{CLEAR_ALL, COLOR_RESET, CURSOR_GOTO_1_1, CURSOR_SHOW};
use term2d::config::{App, Config};

#[test]
fn default_config_ends_with_the_reset_sequence() {
    let c = Config::default();
    assert_eq!(c.fps, 10);
    assert_eq!(c.screen_drop_strings, vec![COLOR_RESET, CLEAR_ALL, CURSOR_GOTO_1_1, CURSOR_SHOW]);
    assert_eq!(c.screen_drop_strings.concat(), "\x1b[0m\x1b[2J\x1b[1;1H\x1b[?25h");
}

#[test]
fn tick_period_follows_the_frame_rate() {
    let mut c = Config::default();
    assert_eq!(c.tick_period_millis(), Some(100));
    c.fps = 0;
    assert_eq!(c.tick_period_millis(), None);
    c.fps = 3;
    assert_eq!(c.tick_period_millis(), Some(333));
}

#[test]
fn app_counts_frames() {
    let mut app = App::new(Config::default());
    assert_eq!(app.frame_count, 0);
    app.count_frame();
    app.count_frame();
    assert_eq!(app.frame_count, 2);
}
