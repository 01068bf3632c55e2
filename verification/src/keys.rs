//! What every key does.

use crate::app::{following, quarter_more, App, AppState, Cmd, Key, Mode, MIDDLE};
use crate::geometry::lemma_half_view;
use crate::input::grow_quarter;
use crate::units::{least, max, min, most, ONE};
use vstd::prelude::*;

verus! {

/// The character keys of the comparison, one by one.
proof fn lemma_char_keyed(s: AppState, c: char)
    ensures
        c == 'V' ==> s.char_keyed(c) == (AppState { mode: s.mode.turned(-1), ..s }),
        c == 'v' ==> s.char_keyed(c) == (AppState { mode: s.mode.turned(1), ..s }),
        '1' <= c && c <= '9' && c as int - '1' as int >= s.videos.len() ==> s.char_keyed(c) == s,
        '1' <= c && c <= '9' && (c as int - '1' as int) < s.videos.len() ==> s.char_keyed(c)
            == s.selected(c as int - '1' as int),
        c == 'q' || c == 'Q' ==> s.char_keyed(c) == (AppState {
            cmds: s.cmds.push(Cmd::Quit),
            ..s
        }),
        c == 'f' || c == 'F' ==> s.char_keyed(c) == s.fullscreen_toggled(),
        c == 'z' || c == 'Z' ==> s.char_keyed(c) == (AppState {
            zoom: ONE,
            center: (MIDDLE, MIDDLE),
            ..s
        }),
        c == '[' ==> s.char_keyed(c) == (AppState {
            speed: most(quarter_more(s.speed as int, false), ONE as int / 4) as i64,
            ..s
        }),
        c == ']' ==> s.char_keyed(c) == (AppState {
            speed: least(quarter_more(s.speed as int, true), 4 * ONE) as i64,
            ..s
        }),
        c == ',' || c == '<' ==> s.char_keyed(c) == s.stepped(false),
        c == '.' || c == '>' ==> s.char_keyed(c) == s.stepped(true),
        c == '-' ==> s.char_keyed(c) == s.adjusted(false),
        c == '=' || c == '+' ==> s.char_keyed(c) == s.adjusted(true),
        !AppState::is_compare_char(c) ==> s.char_keyed(c) == s,
{
    reveal(AppState::char_keyed);
}

impl App {
    fn escape(&mut self)
        requires
            old(self)@.wf(),
        ensures
            final(self)@ == old(self)@.escaped(),
            final(self)@.wf(),
    {
        proof {
            reveal(AppState::escaped);
        }
        if self.fullscreen {
            self.toggle_fullscreen();
        } else {
            self.quit();
        }
    }

    fn toggle_fullscreen(&mut self)
        requires
            old(self)@.wf(),
        ensures
            final(self)@ == old(self)@.fullscreen_toggled(),
            final(self)@.wf(),
    {
        proof {
            reveal(AppState::fullscreen_toggled);
        }
        self.fullscreen = !self.fullscreen;
        self.cmds.push(Cmd::ToggleFullscreen);
    }

    fn launch_key(&mut self, k: Key)
        requires
            old(self)@.wf(),
        ensures
            final(self)@ == old(self)@.launch_keyed(k),
            final(self)@.wf(),
    {
        proof {
            reveal(AppState::launch_keyed);
        }
        match k {
            Key::Escape => {
                self.escape();
            },
            Key::Char(c) => {
                if c == 'q' || c == 'Q' {
                    self.quit();
                } else if c == 'f' || c == 'F' {
                    self.toggle_fullscreen();
                }
            },
            _ => {},
        }
    }

    fn toggle_mask(&mut self)
        requires
            old(self)@.wf(),
            old(self)@.is_ready(),
        ensures
            final(self)@ == old(self)@.mask_toggled(),
            final(self)@.wf(),
    {
        proof {
            reveal(AppState::mask_toggled);
        }
        let ghost before = self@;
        self.mask_mode = !self.mask_mode;
        self.painting = false;
        self.stroke_last = None;
        self.drag = None;
        self.scrubbing = false;
        if self.mask_mode {
            self.playing = false;
            self.ensure_mask();
        }
    }

    /// Returns whether the key was one of mask painting's own.
    fn mask_key(&mut self, k: Key) -> (r: bool)
        requires
            old(self)@.wf(),
            old(self)@.mask_mode,
        ensures
            r == AppState::is_mask_key(k),
            r ==> final(self)@ == old(self)@.mask_keyed(k),
            !r ==> final(self)@ == old(self)@,
            final(self)@.wf(),
    {
        proof {
            reveal(AppState::mask_keyed);
        }
        match k {
            Key::Escape => {
                self.mask_mode = false;
                self.mouse_up();
                true
            },
            Key::Char(c) => {
                if c == '+' || c == '=' {
                    self.resize_brush(true);
                    true
                } else if c == '-' || c == '_' {
                    self.resize_brush(false);
                    true
                } else if c == 's' || c == 'S' {
                    self.save_mask();
                    true
                } else {
                    false
                }
            },
            _ => false,
        }
    }

    pub(crate) fn toggle_playing(&mut self)
        requires
            old(self)@.wf(),
        ensures
            final(self)@ == (AppState { playing: !old(self)@.playing, ..old(self)@ }),
            final(self)@.wf(),
    {
        self.playing = !self.playing;
    }

    fn toggle_ui(&mut self)
        requires
            old(self)@.wf(),
        ensures
            final(self)@ == (AppState { show_ui: !old(self)@.show_ui, ..old(self)@ }),
            final(self)@.wf(),
    {
        self.show_ui = !self.show_ui;
    }

    fn set_speed(&mut self, speed: i64)
        requires
            old(self)@.wf(),
            ONE / 4 <= speed <= 4 * ONE,
        ensures
            final(self)@ == (AppState { speed, ..old(self)@ }),
            final(self)@.wf(),
    {
        self.speed = speed;
    }

    fn set_mode(&mut self, mode: Mode)
        requires
            old(self)@.wf(),
        ensures
            final(self)@ == (AppState { mode, ..old(self)@ }),
            final(self)@.wf(),
    {
        self.mode = mode;
    }

    fn quit(&mut self)
        requires
            old(self)@.wf(),
        ensures
            final(self)@ == (AppState { cmds: old(self)@.cmds.push(Cmd::Quit), ..old(self)@ }),
            final(self)@.wf(),
    {
        self.cmds.push(Cmd::Quit);
    }

    fn reset_zoom(&mut self)
        requires
            old(self)@.wf(),
        ensures
            final(self)@ == (AppState { zoom: ONE, center: (MIDDLE, MIDDLE), ..old(self)@ }),
            final(self)@.wf(),
    {
        proof {
            lemma_half_view(ONE as int);
        }
        self.zoom = ONE;
        self.center = (MIDDLE, MIDDLE);
    }

    /// The keys that pick a clip.
    fn clip_char(&mut self, c: char)
        requires
            old(self)@.wf(),
            old(self)@.is_ready(),
            '1' <= c && c <= '9',
        ensures
            final(self)@ == old(self)@.char_keyed(c),
            final(self)@.wf(),
    {
        proof {
            lemma_char_keyed(self@, c);
        }
        let idx: usize = (c as u32 - '1' as u32) as usize;
        if idx < self.videos.len() {
            self.select(idx);
        }
    }

    /// The keys that turn to another view.
    fn cycle_char(&mut self, c: char)
        requires
            old(self)@.wf(),
            c == 'v' || c == 'V',
        ensures
            final(self)@ == old(self)@.char_keyed(c),
            final(self)@.wf(),
    {
        proof {
            lemma_char_keyed(self@, c);
        }
        let mode = self.mode.cycle(if c == 'v' { 1 } else { -1 });
        self.set_mode(mode);
    }

    /// The keys of the window and the zoom; returns whether `c` was one.
    fn window_char(&mut self, c: char) -> (r: bool)
        requires
            old(self)@.wf(),
        ensures
            r ==> final(self)@ == old(self)@.char_keyed(c),
            !r ==> final(self)@ == old(self)@,
            r == (c == 'f' || c == 'F' || c == 'z' || c == 'Z'),
            final(self)@.wf(),
    {
        proof {
            lemma_char_keyed(self@, c);
        }
        if c == 'f' || c == 'F' {
            self.toggle_fullscreen();
            return true;
        }
        if c == 'z' || c == 'Z' {
            self.reset_zoom();
            return true;
        }
        false
    }

    /// The keys that move the clock; returns whether `c` was one.
    fn clock_char(&mut self, c: char) -> (r: bool)
        requires
            old(self)@.wf(),
        ensures
            r ==> final(self)@ == old(self)@.char_keyed(c),
            !r ==> final(self)@ == old(self)@,
            r == (c == '[' || c == ']' || c == ',' || c == '<' || c == '.' || c == '>'),
            final(self)@.wf(),
    {
        proof {
            lemma_char_keyed(self@, c);
        }
        if c == '[' {
            self.set_speed(max(grow_quarter(self.speed, false), ONE / 4));
            return true;
        }
        if c == ']' {
            self.set_speed(min(grow_quarter(self.speed, true), 4 * ONE));
            return true;
        }
        if c == ',' || c == '<' {
            self.step(false);
            return true;
        }
        if c == '.' || c == '>' {
            self.step(true);
            return true;
        }
        false
    }

    fn char_key(&mut self, c: char)
        requires
            old(self)@.wf(),
            old(self)@.is_ready(),
        ensures
            final(self)@ == old(self)@.char_keyed(c),
            final(self)@.wf(),
    {
        if '1' <= c && c <= '9' {
            self.clip_char(c);
            return;
        }
        if c == 'v' || c == 'V' {
            self.cycle_char(c);
            return;
        }
        if self.window_char(c) || self.clock_char(c) {
            return;
        }
        proof {
            lemma_char_keyed(self@, c);
        }
        if c == 'q' || c == 'Q' {
            self.quit();
        } else if c == '-' {
            self.adjust_param(false);
        } else if c == '=' || c == '+' {
            self.adjust_param(true);
        }
    }

    pub fn key(&mut self, k: Key)
        requires
            old(self)@.wf(),
        ensures
            final(self)@ == old(self)@.keyed(k),
            final(self)@.wf(),
    {
        if !self.ready() {
            self.launch_key(k);
            return;
        }
        if k == Key::Char('m') || k == Key::Char('M') {
            self.toggle_mask();
            return;
        }
        if self.mask_mode {
            if self.mask_key(k) {
                return;
            }
            self.stroke_last = None;
        }
        self.compare_key(k);
    }

    fn compare_key(&mut self, k: Key)
        requires
            old(self)@.wf(),
            old(self)@.is_ready(),
        ensures
            final(self)@ == old(self)@.compare_keyed(k),
            final(self)@.wf(),
    {
        let ghost s = self@;
        match k {
            Key::Enter => {
                assert(s.compare_keyed(k) == s.selected(following(s.active as int, s.videos.len() as int))) by {
                    reveal(AppState::compare_keyed);
                }
                let next: usize = if self.active + 1 < self.videos.len() {
                    self.active + 1
                } else {
                    0
                };
                self.select(next);
                return;
            },
            Key::Space => {
                assert(s.compare_keyed(k) == (AppState { playing: !s.playing, ..s })) by {
                    reveal(AppState::compare_keyed);
                }
                self.toggle_playing();
                return;
            },
            Key::Tab => {
                assert(s.compare_keyed(k) == (AppState { show_ui: !s.show_ui, ..s })) by {
                    reveal(AppState::compare_keyed);
                }
                self.toggle_ui();
                return;
            },
            Key::Left => {
                assert(s.compare_keyed(k) == s.nudged(-ONE as int)) by {
                    reveal(AppState::compare_keyed);
                }
                self.seek_by(-ONE);
                return;
            },
            Key::Right => {
                assert(s.compare_keyed(k) == s.nudged(ONE as int)) by {
                    reveal(AppState::compare_keyed);
                }
                self.seek_by(ONE);
                return;
            },
            Key::Escape => {
                assert(s.compare_keyed(k) == s.escaped()) by {
                    reveal(AppState::compare_keyed);
                }
                self.escape();
                return;
            },
            Key::Backspace => {
                assert(s.compare_keyed(k) == (AppState { speed: ONE, ..s })) by {
                    reveal(AppState::compare_keyed);
                }
                self.set_speed(ONE);
                return;
            },
            Key::Char(c) => {
                assert(s.compare_keyed(k) == s.char_keyed(c)) by {
                    reveal(AppState::compare_keyed);
                }
                self.char_key(c);
            },
        }
    }
}

} // verus!
