//! Decisions of the interactive session: picking the camera at startup,
//! reacting to input events, and the status line.
//!
//! The application owns the terminal, the capture thread and the files; it
//! feeds events in here and carries out the commands that come back.

use vstd::prelude::*;
use crate::camera::CameraInfo;
use crate::config::AppConfig;
use crate::color::{depth_cycle, depth_index};
use crate::menu::{MenuState, MenuView, KeyEvent, KeyCode, Action, ActionView, key_outcome, MOD_CONTROL};
use crate::render::{RenderConfig, mode_cycle, mode_index, BRIGHTNESS_MIN, BRIGHTNESS_MAX, CONTRAST_MIN,
    CONTRAST_MAX};
use crate::style::{style_cycle, style_index};
use crate::text::{chars_of, string_of, trim, trim_range, push_str, push_char, push_decimal, push_repeat, decimal};

verus! {

// ---- camera choice ----

/// Why a typed camera selection was rejected.
#[derive(Clone, Copy, PartialEq, Eq, Debug, Structural)]
pub enum PickError {
    /// Not a number.
    InvalidSelection,
    /// A number outside `1..=cameras.len()`.
    OutOfRange(usize),
}

pub open spec fn is_digit(c: char) -> bool {
    '0' <= c && c <= '9'
}

/// Value of a string of decimal digits.
pub open spec fn digits_value(s: Seq<char>) -> int
    decreases s.len(),
{
    if s.len() == 0 {
        0
    } else {
        digits_value(s.drop_last()) * 10 + (s.last() as int - '0' as int)
    }
}

/// `usize::from_str`: an optional `+`, then one or more decimal digits,
/// with a value that fits.
pub open spec fn parse_usize_spec(s: Seq<char>) -> Option<usize> {
    let d = digits_part(s);
    if d.len() > 0 && (forall|i: int| 0 <= i < d.len() ==> is_digit(#[trigger] d[i])) && digits_value(d)
        <= usize::MAX {
        Some(digits_value(d) as usize)
    } else {
        None
    }
}

proof fn lemma_digits_value_nonneg(s: Seq<char>)
    requires
        forall|i: int| 0 <= i < s.len() ==> is_digit(#[trigger] s[i]),
    ensures
        digits_value(s) >= 0,
    decreases s.len(),
{
    if s.len() > 0 {
        lemma_digits_value_nonneg(s.drop_last());
    }
}

proof fn lemma_digits_value_grows(s: Seq<char>)
    requires
        forall|i: int| 0 <= i < s.len() ==> is_digit(#[trigger] s[i]),
        s.len() > 0,
    ensures
        digits_value(s) >= digits_value(s.drop_last()),
{
    lemma_digits_value_nonneg(s.drop_last());
}

/// The digits part of a number (after an optional `+`).
pub open spec fn digits_part(s: Seq<char>) -> Seq<char> {
    if s.len() > 0 && s[0] == '+' { s.skip(1) } else { s }
}

pub fn parse_usize(s: &Vec<char>) -> (r: Option<usize>)
    ensures
        r == parse_usize_spec(s@),
{
    let start: usize = if s.len() > 0 && s[0] == '+' { 1 } else { 0 };
    let ghost d = digits_part(s@);
    assert(d =~= s@.skip(start as int));
    if start >= s.len() {
        return None;
    }
    let mut value: usize = 0;
    let mut i = start;
    while i < s.len()
        invariant
            start <= i <= s@.len(),
            d == digits_part(s@),
            d =~= s@.skip(start as int),
            d.len() == s@.len() - start,
            forall|k: int| 0 <= k < i - start ==> is_digit(#[trigger] d[k]),
            value as int == digits_value(d.take(i - start)),
        decreases s.len() - i,
    {
        let c = s[i];
        assert(d[i - start] == c);
        if !('0' <= c && c <= '9') {
            assert(!is_digit(d[i - start]));
            assert(!(forall|k: int| 0 <= k < d.len() ==> is_digit(#[trigger] d[k])));
            return None;
        }
        let dv = (c as u32 - '0' as u32) as usize;
        assert(d.take(i - start + 1).drop_last() =~= d.take(i - start));
        assert(forall|k: int| 0 <= k < i - start + 1 ==> is_digit(#[trigger] d[k]));
        assert(digits_value(d.take(i - start + 1)) == value * 10 + dv);
        let m = match value.checked_mul(10) {
            Some(m) => m,
            None => {
                proof {
                    lemma_value_prefix_overflows(d, i - start + 1);
                }
                return None;
            },
        };
        value = match m.checked_add(dv) {
            Some(v) => v,
            None => {
                proof {
                    lemma_value_prefix_overflows(d, i - start + 1);
                }
                return None;
            },
        };
        i = i + 1;
    }
    assert(d.take(i - start) =~= d);
    Some(value)
}

/// Once a digit prefix is too large, so is the whole digit string.
proof fn lemma_value_prefix_overflows(d: Seq<char>, n: int)
    requires
        0 < n <= d.len(),
        forall|k: int| 0 <= k < n ==> is_digit(#[trigger] d[k]),
        digits_value(d.take(n)) > usize::MAX,
    ensures
        (forall|i: int| 0 <= i < d.len() ==> is_digit(#[trigger] d[i])) ==> digits_value(d) > usize::MAX,
    decreases d.len() - n,
{
    if n < d.len() {
        if forall|i: int| 0 <= i < d.len() ==> is_digit(#[trigger] d[i]) {
            assert(d.take(n + 1).drop_last() =~= d.take(n));
            lemma_digits_value_grows(d.take(n + 1));
            lemma_value_prefix_overflows(d, n + 1);
        }
    } else {
        assert(d.take(n) =~= d);
    }
}

/// With exactly one camera there is nothing to ask.
pub fn single_camera(cameras: &Vec<CameraInfo>) -> (r: Option<u32>)
    ensures
        cameras@.len() == 1 ==> r == Some(cameras@[0].index),
        cameras@.len() != 1 ==> r is None,
{
    if cameras.len() == 1 {
        Some(cameras[0].index)
    } else {
        None
    }
}

/// The camera chosen by the line the user typed at the prompt: empty picks
/// the first camera, `k` picks the k-th (1-based).
pub open spec fn camera_choice_spec(cameras: Seq<CameraInfo>, line: Seq<char>) -> Result<u32, PickError> {
    let t = trim(line);
    if t.len() == 0 {
        Ok(cameras[0].index)
    } else {
        match parse_usize_spec(t) {
            None => Err(PickError::InvalidSelection),
            Some(k) => if k < 1 || k > cameras.len() {
                Err(PickError::OutOfRange(k))
            } else {
                Ok(cameras[k - 1].index)
            },
        }
    }
}

pub fn parse_camera_choice(cameras: &Vec<CameraInfo>, line: &str) -> (r: Result<u32, PickError>)
    requires
        cameras@.len() > 0,
    ensures
        r == camera_choice_spec(cameras@, line@),
{
    let cs = chars_of(line);
    let t = trim_range(&cs, 0, cs.len());
    assert(cs@.subrange(0, cs@.len() as int) =~= line@);
    if t.len() == 0 {
        return Ok(cameras[0].index);
    }
    match parse_usize(&t) {
        None => Err(PickError::InvalidSelection),
        Some(k) => {
            if k < 1 || k > cameras.len() {
                Err(PickError::OutOfRange(k))
            } else {
                Ok(cameras[k - 1].index)
            }
        },
    }
}

// ---- input events ----

/// An input event, as the terminal reports it (key presses only).
#[derive(Clone, Copy, PartialEq, Eq, Debug, Structural)]
pub enum Event {
    Key(KeyEvent),
    Resize,
    Other,
}

/// What the application must carry out after an event.
#[derive(Clone, Debug)]
pub enum Command {
    Nothing,
    Quit,
    /// Clear the terminal before the next frame.
    ClearScreen,
    /// Save a screenshot of the current frame.
    Screenshot,
    /// Restart the capture on this camera.
    SwitchCamera(u32),
    /// Normalize this typed path, store it in the config and save the config.
    SaveScreenshotDir(String),
}

pub enum CommandView {
    Nothing,
    Quit,
    ClearScreen,
    Screenshot,
    SwitchCamera(u32),
    SaveScreenshotDir(Seq<char>),
}

impl View for Command {
    type V = CommandView;

    open spec fn view(&self) -> CommandView {
        match self {
            Command::Nothing => CommandView::Nothing,
            Command::Quit => CommandView::Quit,
            Command::ClearScreen => CommandView::ClearScreen,
            Command::Screenshot => CommandView::Screenshot,
            Command::SwitchCamera(i) => CommandView::SwitchCamera(*i),
            Command::SaveScreenshotDir(s) => CommandView::SaveScreenshotDir(s@),
        }
    }
}

/// Everything the input handling decides on.
pub struct Session {
    pub in_menu: bool,
    pub current_camera: u32,
    pub cfg: RenderConfig,
    pub menu: MenuState,
}

pub struct SessionView {
    pub in_menu: bool,
    pub current_camera: u32,
    pub cfg: RenderConfig,
    pub menu: MenuView,
}

impl View for Session {
    type V = SessionView;

    open spec fn view(&self) -> SessionView {
        SessionView { in_menu: self.in_menu, current_camera: self.current_camera, cfg: self.cfg, menu: self.menu@ }
    }
}

pub open spec fn clamp_int(v: int, lo: int, hi: int) -> int {
    if v < lo {
        lo
    } else if v > hi {
        hi
    } else {
        v
    }
}

/// The session invariant: a valid menu row, a camera list whose positions
/// fit in `i32`, a resolvable color depth and sliders in range.
pub open spec fn session_wf(s: SessionView) -> bool {
    &&& s.menu.selected < 10
    &&& s.menu.cameras.len() <= i32::MAX
    &&& s.cfg.wf()
    &&& BRIGHTNESS_MIN <= s.cfg.brightness <= BRIGHTNESS_MAX
    &&& CONTRAST_MIN <= s.cfg.contrast <= CONTRAST_MAX
}

/// Applies a menu action to the session.
pub open spec fn apply_action(s: SessionView, a: ActionView) -> (SessionView, CommandView) {
    match a {
        ActionView::Nothing => (s, CommandView::Nothing),
        ActionView::Close => (SessionView { in_menu: false, ..s }, CommandView::ClearScreen),
        ActionView::Quit => (s, CommandView::Quit),
        ActionView::SwitchCamera(idx) => if idx != s.current_camera {
            (SessionView { current_camera: idx, ..s }, CommandView::SwitchCamera(idx))
        } else {
            (s, CommandView::Nothing)
        },
        ActionView::CycleStyle(d) => (
            SessionView { cfg: RenderConfig { style: style_cycle(s.cfg.style, d as int), ..s.cfg }, ..s },
            CommandView::Nothing,
        ),
        ActionView::CycleMode(d) => (
            SessionView { cfg: RenderConfig { mode: mode_cycle(s.cfg.mode, d as int), ..s.cfg }, ..s },
            CommandView::ClearScreen,
        ),
        ActionView::CycleDepth(d) => (
            SessionView { cfg: RenderConfig { depth: depth_cycle(s.cfg.depth, d as int), ..s.cfg }, ..s },
            CommandView::ClearScreen,
        ),
        ActionView::ToggleMirror => (
            SessionView { cfg: RenderConfig { mirror: !s.cfg.mirror, ..s.cfg }, ..s },
            CommandView::Nothing,
        ),
        ActionView::AdjustBrightness(d) => (
            SessionView {
                cfg: RenderConfig {
                    brightness: clamp_int(s.cfg.brightness + d, BRIGHTNESS_MIN as int, BRIGHTNESS_MAX as int) as i32,
                    ..s.cfg
                },
                ..s
            },
            CommandView::Nothing,
        ),
        ActionView::AdjustContrast(d) => (
            SessionView {
                cfg: RenderConfig {
                    contrast: clamp_int(s.cfg.contrast + d, CONTRAST_MIN as int, CONTRAST_MAX as int) as i32,
                    ..s.cfg
                },
                ..s
            },
            CommandView::Nothing,
        ),
        ActionView::SetScreenshotDir(t) => (s, CommandView::SaveScreenshotDir(t)),
    }
}

/// The session's reaction to one event: Space takes a screenshot (unless a
/// path is being typed), keys go to the menu while it is open, Esc opens
/// it, `q` or Ctrl-C quits, and a resize clears the screen.
pub open spec fn step_spec(s: SessionView, ev: Event) -> (SessionView, CommandView) {
    match ev {
        Event::Key(k) => if k.code == KeyCode::Char(' ') && s.menu.editor is None {
            (s, CommandView::Screenshot)
        } else if s.in_menu {
            let (m, a) = key_outcome(s.menu, k);
            apply_action(SessionView { menu: m, ..s }, a)
        } else {
            match k.code {
                KeyCode::Esc => (
                    SessionView { in_menu: true, menu: MenuView { current_camera: s.current_camera, ..s.menu }, ..s },
                    CommandView::Nothing,
                ),
                KeyCode::Char(c) => if c == 'q' || (c == 'c' && k.modifiers == MOD_CONTROL) {
                    (s, CommandView::Quit)
                } else {
                    (s, CommandView::Nothing)
                },
                _ => (s, CommandView::Nothing),
            }
        },
        Event::Resize => (s, CommandView::ClearScreen),
        Event::Other => (s, CommandView::Nothing),
    }
}

/// Opening the menu with Esc and closing it again with Esc leaves the
/// session as it was, but for the menu's record of the current camera; the
/// close asks for a cleared screen.
pub proof fn law_menu_open_close(s: SessionView, esc: KeyEvent)
    requires
        !s.in_menu,
        s.menu.editor is None,
        esc.code == KeyCode::Esc,
    ensures
        ({
            let (s1, c1) = step_spec(s, Event::Key(esc));
            let (s2, c2) = step_spec(s1, Event::Key(esc));
            &&& s1.in_menu
            &&& c1 == CommandView::Nothing
            &&& c2 == CommandView::ClearScreen
            &&& s2 == (SessionView { menu: MenuView { current_camera: s.current_camera, ..s.menu }, ..s })
        }),
{
}

/// Outside the menu, `q` with any modifiers, and Ctrl-C, quit and leave the
/// session as it was.
pub proof fn law_quit_outside_menu(s: SessionView, k: KeyEvent)
    requires
        !s.in_menu,
        k.code == KeyCode::Char('q') || (k.code == KeyCode::Char('c') && k.modifiers == MOD_CONTROL),
    ensures
        step_spec(s, Event::Key(k)) == (s, CommandView::Quit),
{
}

/// In the menu with no path being typed, `q` with any modifiers, and
/// Ctrl-C, quit and leave the session as it was.
pub proof fn law_quit_in_menu(s: SessionView, k: KeyEvent)
    requires
        s.in_menu,
        s.menu.editor is None,
        k.code == KeyCode::Char('q') || (k.code == KeyCode::Char('c') && k.modifiers == MOD_CONTROL),
    ensures
        step_spec(s, Event::Key(k)) == (s, CommandView::Quit),
{
    assert(SessionView { menu: s.menu, ..s } == s);
}

/// In the menu, on the brightness row Left lowers brightness by 5
/// hundredths and Right or Enter raises it, never past -100 or 100; on the
/// contrast row they move contrast by one tenth within 1..=30. Nothing else
/// in the session changes and no command is issued.
pub proof fn law_slider_steps(s: SessionView, k: KeyEvent)
    requires
        session_wf(s),
        s.in_menu,
        s.menu.editor is None,
        s.menu.selected == 5 || s.menu.selected == 6,
        k.code == KeyCode::Left || k.code == KeyCode::Right || k.code == KeyCode::Enter,
    ensures
        ({
            let (s2, c) = step_spec(s, Event::Key(k));
            let up = k.code != KeyCode::Left;
            let b = s.cfg.brightness as int;
            let t = s.cfg.contrast as int;
            &&& c == CommandView::Nothing
            &&& s.menu.selected == 5 ==> s2 == (SessionView {
                cfg: RenderConfig {
                    brightness: (if up {
                        if b + 5 > 100 { 100 } else { b + 5 }
                    } else {
                        if b - 5 < -100 { -100 } else { b - 5 }
                    }) as i32,
                    ..s.cfg
                },
                ..s
            })
            &&& s.menu.selected == 6 ==> s2 == (SessionView {
                cfg: RenderConfig {
                    contrast: (if up {
                        if t + 1 > 30 { 30 } else { t + 1 }
                    } else {
                        if t - 1 < 1 { 1 } else { t - 1 }
                    }) as i32,
                    ..s.cfg
                },
                ..s
            })
        }),
{
}

fn clamp_i32(v: i32, lo: i32, hi: i32) -> (r: i32)
    requires
        lo <= hi,
    ensures
        r as int == clamp_int(v as int, lo as int, hi as int),
{
    if v < lo {
        lo
    } else if v > hi {
        hi
    } else {
        v
    }
}

/// Directions that menu actions carry are single steps.
proof fn lemma_action_dirs(m: MenuView, k: KeyEvent)
    ensures
        ({
            let a = key_outcome(m, k).1;
            &&& a matches ActionView::CycleStyle(d) ==> d == 1 || d == -1
            &&& a matches ActionView::CycleMode(d) ==> d == 1 || d == -1
            &&& a matches ActionView::CycleDepth(d) ==> d == 1 || d == -1
            &&& a matches ActionView::AdjustBrightness(d) ==> d == 5 || d == -5
            &&& a matches ActionView::AdjustContrast(d) ==> d == 1 || d == -1
        }),
{
}

impl Session {
    pub fn step(&mut self, ev: Event) -> (c: Command)
        requires
            session_wf(old(self)@),
        ensures
            (final(self)@, c@) == step_spec(old(self)@, ev),
            session_wf(final(self)@),
    {
        match ev {
            Event::Key(k) => {
                if k.code == KeyCode::Char(' ') && !self.menu.is_editing_text() {
                    return Command::Screenshot;
                }
                if self.in_menu {
                    proof {
                        lemma_action_dirs(self.menu@, k);
                    }
                    let action = self.menu.on_key(k);
                    self.apply(action)
                } else {
                    match k.code {
                        KeyCode::Esc => {
                            self.in_menu = true;
                            self.menu.set_current_camera(self.current_camera);
                            Command::Nothing
                        },
                        KeyCode::Char(c) => {
                            if c == 'q' || (c == 'c' && k.modifiers == MOD_CONTROL) {
                                Command::Quit
                            } else {
                                Command::Nothing
                            }
                        },
                        _ => Command::Nothing,
                    }
                }
            },
            Event::Resize => Command::ClearScreen,
            Event::Other => Command::Nothing,
        }
    }

    fn apply(&mut self, a: Action) -> (c: Command)
        requires
            old(self).cfg.wf(),
            BRIGHTNESS_MIN <= old(self).cfg.brightness <= BRIGHTNESS_MAX,
            CONTRAST_MIN <= old(self).cfg.contrast <= CONTRAST_MAX,
            a@ matches ActionView::CycleStyle(d) ==> d == 1 || d == -1,
            a@ matches ActionView::CycleMode(d) ==> d == 1 || d == -1,
            a@ matches ActionView::CycleDepth(d) ==> d == 1 || d == -1,
            a@ matches ActionView::AdjustBrightness(d) ==> d == 5 || d == -5,
            a@ matches ActionView::AdjustContrast(d) ==> d == 1 || d == -1,
        ensures
            (final(self)@, c@) == apply_action(old(self)@, a@),
    {
        match a {
            Action::Nothing => Command::Nothing,
            Action::Close => {
                self.in_menu = false;
                Command::ClearScreen
            },
            Action::Quit => Command::Quit,
            Action::SwitchCamera(idx) => {
                if idx != self.current_camera {
                    self.current_camera = idx;
                    Command::SwitchCamera(idx)
                } else {
                    Command::Nothing
                }
            },
            Action::CycleStyle(d) => {
                self.cfg.style = self.cfg.style.cycle(d);
                Command::Nothing
            },
            Action::CycleMode(d) => {
                self.cfg.mode = self.cfg.mode.cycle(d);
                Command::ClearScreen
            },
            Action::CycleDepth(d) => {
                self.cfg.depth = self.cfg.depth.cycle(d);
                Command::ClearScreen
            },
            Action::ToggleMirror => {
                self.cfg.mirror = !self.cfg.mirror;
                Command::Nothing
            },
            Action::AdjustBrightness(d) => {
                self.cfg.brightness = clamp_i32(self.cfg.brightness + d, BRIGHTNESS_MIN, BRIGHTNESS_MAX);
                Command::Nothing
            },
            Action::AdjustContrast(d) => {
                self.cfg.contrast = clamp_i32(self.cfg.contrast + d, CONTRAST_MIN, CONTRAST_MAX);
                Command::Nothing
            },
            Action::SetScreenshotDir(t) => Command::SaveScreenshotDir(t),
        }
    }
}

// ---- status line ----

/// Status line after a typed screenshot path was saved.
pub open spec fn dir_saved_text(dir: Seq<char>) -> Seq<char> {
    "screenshot path saved: "@ + dir
}

/// Status line after a typed screenshot path could not be used or saved.
pub open spec fn dir_failed_text(why: Seq<char>) -> Seq<char> {
    "screenshot path failed: "@ + why
}

impl Session {
    /// Settles a `SaveScreenshotDir` command once the new config was built
    /// and its file write tried: `Ok` carries the config that was written,
    /// `Err` why it was not. On success the config and the menu take the new
    /// directory; on failure both stay as they were. Returns the status line.
    pub fn commit_screenshot_dir(&mut self, config: &mut AppConfig, outcome: Result<AppConfig, String>) -> (status: String)
        ensures
            match outcome {
                Ok(next) => {
                    &&& final(config).path_spec() == next.path_spec()
                    &&& final(config).dir_spec() == next.dir_spec()
                    &&& final(self)@ == (SessionView {
                        menu: MenuView { screenshot_dir: next.dir_spec(), ..old(self)@.menu },
                        ..old(self)@
                    })
                    &&& status@ == dir_saved_text(next.dir_spec())
                },
                Err(why) => {
                    &&& *final(config) == *old(config)
                    &&& final(self)@ == old(self)@
                    &&& status@ == dir_failed_text(why@)
                },
            },
            session_wf(old(self)@) ==> session_wf(final(self)@),
    {
        let mut status = String::new();
        match outcome {
            Ok(next) => {
                *config = next;
                let dir = config.dir();
                self.menu.set_screenshot_dir(string_of(&chars_of(dir)));
                push_str(&mut status, "screenshot path saved: ");
                push_str(&mut status, config.dir());
            },
            Err(why) => {
                push_str(&mut status, "screenshot path failed: ");
                push_str(&mut status, why.as_str());
            },
        }
        status
    }
}

/// The status line: `text` cut to the terminal width and padded to it, in
/// reverse video on the bottom row.
pub open spec fn status_text(text: Seq<char>, cols: int, rows: int) -> Seq<char> {
    if cols == 0 || rows == 0 {
        Seq::empty()
    } else {
        let shown = if text.len() <= cols { text } else { text.take(cols) };
        "\x1b["@ + decimal(rows as nat) + ";1H\x1b[7m"@ + shown + Seq::new((cols - shown.len()) as nat, |i: int| ' ')
            + "\x1b[0m"@
    }
}

pub fn draw_status(text: &str, cols: u16, rows: u16, buf: &mut String)
    ensures
        final(buf)@ == old(buf)@ + status_text(text@, cols as int, rows as int),
{
    if cols == 0 || rows == 0 {
        assert(final(buf)@ =~= old(buf)@ + status_text(text@, cols as int, rows as int));
        return;
    }
    let ghost start = buf@;
    let width = cols as usize;
    let cs = chars_of(text);
    let shown = if cs.len() <= width { cs.len() } else { width };
    push_str(buf, "\x1b[");
    push_decimal(buf, rows as u64);
    push_str(buf, ";1H\x1b[7m");
    let ghost before = buf@;
    let mut k: usize = 0;
    while k < shown
        invariant
            k <= shown,
            shown <= cs@.len(),
            cs@ == text@,
            buf@ == before + text@.take(k as int),
        decreases shown - k,
    {
        push_char(buf, cs[k]);
        k = k + 1;
        assert(buf@ =~= before + text@.take(k as int));
    }
    push_repeat(buf, ' ', width - shown);
    push_str(buf, "\x1b[0m");
    assert(text@.len() <= width ==> text@.take(shown as int) =~= text@);
    assert(buf@ =~= start + status_text(text@, cols as int, rows as int));
}

} // verus!
