use vstd::prelude::*;

use crate::ansiesc::{CLEAR_ALL, COLOR_RESET, CURSOR_GOTO_1_1, CURSOR_SHOW};

verus! {

/// How an application runs: its frame rate and what is written to the terminal when it ends.
pub struct Config {
    /// Periodic ticks per second; 0 turns the periodic tick off.
    pub fps: u16,
    /// Written, in order, as the last thing before the terminal is released.
    pub screen_drop_strings: Vec<String>,
}

impl Default for Config {
    /// Ten ticks per second; on shutdown the colors are reset, the screen is cleared, the
    /// cursor goes home and is shown again.
    fn default() -> (c: Config)
        ensures
            c.fps == 10,
            c.screen_drop_strings@.len() == 4,
            c.screen_drop_strings@[0]@ == COLOR_RESET@,
            c.screen_drop_strings@[1]@ == CLEAR_ALL@,
            c.screen_drop_strings@[2]@ == CURSOR_GOTO_1_1@,
            c.screen_drop_strings@[3]@ == CURSOR_SHOW@,
    {
        let mut v: Vec<String> = Vec::new();
        v.push(COLOR_RESET.to_owned());
        v.push(CLEAR_ALL.to_owned());
        v.push(CURSOR_GOTO_1_1.to_owned());
        v.push(CURSOR_SHOW.to_owned());
        Config { fps: 10, screen_drop_strings: v }
    }
}

impl Config {
    /// The time between two periodic ticks in whole milliseconds, or none when the periodic
    /// tick is off.
    pub fn tick_period_millis(&self) -> (r: Option<u64>)
        ensures
            self.fps == 0 ==> r is None,
            self.fps > 0 ==> r == Some((1000int / self.fps as int) as u64),
    {
        if self.fps == 0 {
            None
        } else {
            Some(1000 / self.fps as u64)
        }
    }
}

/// The state of a running application: its configuration and the frames drawn so far.
pub struct App {
    pub config: Config,
    pub frame_count: u64,
}

impl App {
    /// An application that has drawn no frame yet.
    pub fn new(config: Config) -> (a: App)
        ensures
            a.frame_count == 0,
            a.config.fps == config.fps,
            a.config.screen_drop_strings == config.screen_drop_strings,
    {
        App { config, frame_count: 0 }
    }

    /// Counts one more drawn frame.
    pub fn count_frame(&mut self)
        requires
            old(self).frame_count < u64::MAX,
        ensures
            final(self).frame_count == old(self).frame_count + 1,
            final(self).config.fps == old(self).config.fps,
            final(self).config.screen_drop_strings == old(self).config.screen_drop_strings,
    {
        self.frame_count = self.frame_count + 1;
    }
}

} // verus!
