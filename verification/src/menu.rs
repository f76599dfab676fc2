//! The options overlay: key handling (a small state machine) and drawing.

use vstd::prelude::*;
use crate::camera::CameraInfo;
use crate::color::wrap_index;
use crate::text::{push_char, push_str, push_decimal, push_decimal_padded, push_repeat, decimal, decimal_padded};
use crate::render::{RenderConfig, mode_label};
use crate::style::style_label;
use crate::color::{ColorDepth, depth_label};

verus! {

/// Key codes the menu distinguishes.
#[derive(Clone, Copy, PartialEq, Eq, Debug, Structural)]
pub enum KeyCode {
    Esc,
    Up,
    Down,
    Left,
    Right,
    Enter,
    Backspace,
    Char(char),
    Other,
}

/// Modifier bits, laid out as the terminal backend reports them.
pub const MOD_SHIFT: u8 = 0b0000_0001;
pub const MOD_CONTROL: u8 = 0b0000_0010;
pub const MOD_ALT: u8 = 0b0000_0100;

/// A key press: its code and the set of held modifiers.
#[derive(Clone, Copy, PartialEq, Eq, Debug, Structural)]
pub struct KeyEvent {
    pub code: KeyCode,
    pub modifiers: u8,
}

pub open spec fn has_mod(k: KeyEvent, m: u8) -> bool {
    k.modifiers & m != 0
}

/// What the application should do after a key press in the menu.
/// Brightness steps are in hundredths, contrast steps in tenths.
#[derive(Clone, Debug)]
pub enum Action {
        Nothing,
    Close,
    Quit,
    SwitchCamera(u32),
    CycleStyle(i32),
    CycleMode(i32),
    CycleDepth(i32),
    ToggleMirror,
    AdjustBrightness(i32),
    AdjustContrast(i32),
    SetScreenshotDir(String),
}

/// `Action` with its text as a character sequence.
pub enum ActionView {
    Nothing,
    Close,
    Quit,
    SwitchCamera(u32),
    CycleStyle(i32),
    CycleMode(i32),
    CycleDepth(i32),
    ToggleMirror,
    AdjustBrightness(i32),
    AdjustContrast(i32),
    SetScreenshotDir(Seq<char>),
}

impl View for Action {
    type V = ActionView;

    open spec fn view(&self) -> ActionView {
        match self {
            Action::Nothing => ActionView::Nothing,
            Action::Close => ActionView::Close,
            Action::Quit => ActionView::Quit,
            Action::SwitchCamera(i) => ActionView::SwitchCamera(*i),
            Action::CycleStyle(d) => ActionView::CycleStyle(*d),
            Action::CycleMode(d) => ActionView::CycleMode(*d),
            Action::CycleDepth(d) => ActionView::CycleDepth(*d),
            Action::ToggleMirror => ActionView::ToggleMirror,
            Action::AdjustBrightness(d) => ActionView::AdjustBrightness(*d),
            Action::AdjustContrast(d) => ActionView::AdjustContrast(*d),
            Action::SetScreenshotDir(s) => ActionView::SetScreenshotDir(s@),
        }
    }
}

pub const ITEM_COUNT: usize = 10;

pub open spec fn item_label(i: int) -> Seq<char> {
    if i == 0 {
        "Camera source"@
    } else if i == 1 {
        "Style"@
    } else if i == 2 {
        "Render mode"@
    } else if i == 3 {
        "Color depth"@
    } else if i == 4 {
        "Mirror"@
    } else if i == 5 {
        "Brightness"@
    } else if i == 6 {
        "Contrast"@
    } else if i == 7 {
        "Screenshot path"@
    } else if i == 8 {
        "Close menu (Esc)"@
    } else {
        "Quit (q)"@
    }
}

pub fn item(i: usize) -> (s: &'static str)
    requires
        i < ITEM_COUNT,
    ensures
        s@ == item_label(i as int),
{
    if i == 0 {
        "Camera source"
    } else if i == 1 {
        "Style"
    } else if i == 2 {
        "Render mode"
    } else if i == 3 {
        "Color depth"
    } else if i == 4 {
        "Mirror"
    } else if i == 5 {
        "Brightness"
    } else if i == 6 {
        "Contrast"
    } else if i == 7 {
        "Screenshot path"
    } else if i == 8 {
        "Close menu (Esc)"
    } else {
        "Quit (q)"
    }
}

pub struct MenuState {
    pub selected: usize,
    pub cameras: Vec<CameraInfo>,
    pub current_camera: u32,
    pub screenshot_dir: String,
    /// The text typed into the screenshot-path editor while it is open.
    pub path_editor: Option<String>,
}

/// The menu state with its text as character sequences.
pub struct MenuView {
    pub selected: usize,
    pub cameras: Seq<CameraInfo>,
    pub current_camera: u32,
    pub screenshot_dir: Seq<char>,
    pub editor: Option<Seq<char>>,
}

impl View for MenuState {
    type V = MenuView;

    open spec fn view(&self) -> MenuView {
        MenuView {
            selected: self.selected,
            cameras: self.cameras@,
            current_camera: self.current_camera,
            screenshot_dir: self.screenshot_dir@,
            editor: match self.path_editor {
                Some(s) => Some(s@),
                None => None,
            },
        }
    }
}

/// Position of the first camera with the given index, or 0 when none has it.
pub open spec fn camera_pos(cams: Seq<CameraInfo>, idx: u32, from: int) -> int
    decreases cams.len() - from,
{
    if from >= cams.len() {
        0
    } else if cams[from].index == idx {
        from
    } else {
        camera_pos(cams, idx, from + 1)
    }
}

proof fn lemma_camera_pos_bound(cams: Seq<CameraInfo>, idx: u32, from: int)
    requires
        0 <= from,
        cams.len() > 0,
    ensures
        0 <= camera_pos(cams, idx, from) < cams.len(),
    decreases cams.len() - from,
{
    if from < cams.len() && cams[from].index != idx {
        lemma_camera_pos_bound(cams, idx, from + 1);
    }
}

/// Left/right (`dir`) on the selected row.
pub open spec fn adjust_outcome(m: MenuView, dir: int) -> (MenuView, ActionView) {
    let s = m.selected;
    if s == 0 {
        if m.cameras.len() == 0 {
            (m, ActionView::Nothing)
        } else {
            let next = (camera_pos(m.cameras, m.current_camera, 0) + dir) % (m.cameras.len() as int);
            let idx = m.cameras[next].index;
            (MenuView { current_camera: idx, ..m }, ActionView::SwitchCamera(idx))
        }
    } else if s == 1 {
        (m, ActionView::CycleStyle(dir as i32))
    } else if s == 2 {
        (m, ActionView::CycleMode(dir as i32))
    } else if s == 3 {
        (m, ActionView::CycleDepth(dir as i32))
    } else if s == 4 {
        (m, ActionView::ToggleMirror)
    } else if s == 5 {
        (m, ActionView::AdjustBrightness((dir * 5) as i32))
    } else if s == 6 {
        (m, ActionView::AdjustContrast(dir as i32))
    } else if s == 7 {
        (MenuView { editor: Some(m.screenshot_dir), ..m }, ActionView::Nothing)
    } else if s == 8 {
        (m, ActionView::Close)
    } else if s == 9 {
        (m, ActionView::Quit)
    } else {
        (m, ActionView::Nothing)
    }
}

/// A key while the screenshot path is being typed.
pub open spec fn editor_outcome(m: MenuView, key: KeyEvent) -> (MenuView, ActionView) {
    let text = m.editor.unwrap();
    if key.code == KeyCode::Char('c') && has_mod(key, MOD_CONTROL) {
        (MenuView { editor: None, ..m }, ActionView::Quit)
    } else {
        match key.code {
            KeyCode::Esc => (MenuView { editor: None, ..m }, ActionView::Nothing),
            KeyCode::Enter => (MenuView { editor: None, ..m }, ActionView::SetScreenshotDir(text)),
            KeyCode::Backspace => (
                MenuView { editor: Some(if text.len() > 0 { text.drop_last() } else { text }), ..m },
                ActionView::Nothing,
            ),
            KeyCode::Char(c) => if !has_mod(key, MOD_CONTROL) && !has_mod(key, MOD_ALT) {
                (MenuView { editor: Some(text.push(c)), ..m }, ActionView::Nothing)
            } else {
                (m, ActionView::Nothing)
            },
            _ => (m, ActionView::Nothing),
        }
    }
}

/// The menu's answer to a key press.
pub open spec fn key_outcome(m: MenuView, key: KeyEvent) -> (MenuView, ActionView) {
    if m.editor is Some {
        editor_outcome(m, key)
    } else {
        match key.code {
            KeyCode::Esc => (m, ActionView::Close),
            KeyCode::Char(c) => if c == 'q' || (c == 'c' && key.modifiers == MOD_CONTROL) {
                (m, ActionView::Quit)
            } else {
                (m, ActionView::Nothing)
            },
            KeyCode::Up => (
                MenuView { selected: ((m.selected + 10 - 1) % 10) as usize, ..m },
                ActionView::Nothing,
            ),
            KeyCode::Down => (MenuView { selected: ((m.selected + 1) % 10) as usize, ..m }, ActionView::Nothing),
            KeyCode::Left => adjust_outcome(m, -1),
            KeyCode::Right | KeyCode::Enter => adjust_outcome(m, 1),
            _ => (m, ActionView::Nothing),
        }
    }
}

/// Up then Down (or Down then Up) returns to the same row, and the
/// selection always stays on one of the rows.
pub proof fn law_menu_up_down(m: MenuView, up: KeyEvent, down: KeyEvent)
    requires
        m.editor is None,
        m.selected < 10,
        up.code == KeyCode::Up,
        down.code == KeyCode::Down,
    ensures
        key_outcome(key_outcome(m, up).0, down).0.selected == m.selected,
        key_outcome(key_outcome(m, down).0, up).0.selected == m.selected,
        key_outcome(m, up).0.selected < 10,
        key_outcome(m, down).0.selected < 10,
{
}

/// Esc while typing a path drops the typed text and changes nothing else.
pub proof fn law_editor_cancel(m: MenuView, esc: KeyEvent)
    requires
        m.editor is Some,
        esc.code == KeyCode::Esc,
    ensures
        key_outcome(m, esc).0 == (MenuView { editor: None, ..m }),
        key_outcome(m, esc).1 == ActionView::Nothing,
{
}

/// Backspace removes the character just typed.
pub proof fn law_editor_type_then_backspace(m: MenuView, c: char, typed: KeyEvent, back: KeyEvent)
    requires
        m.editor is Some,
        typed.code == KeyCode::Char(c),
        !has_mod(typed, MOD_CONTROL),
        !has_mod(typed, MOD_ALT),
        back.code == KeyCode::Backspace,
    ensures
        key_outcome(key_outcome(m, typed).0, back).0 == m,
{
    let t = m.editor.unwrap();
    assert(t.push(c).drop_last() =~= t);
}

/// The menu after the keys are pressed one after another.
pub open spec fn feed(m: MenuView, keys: Seq<KeyEvent>) -> MenuView
    decreases keys.len(),
{
    if keys.len() == 0 {
        m
    } else {
        feed(key_outcome(m, keys[0]).0, keys.skip(1))
    }
}

/// `k` types the character `c`: no Control or Alt held.
pub open spec fn types_char(k: KeyEvent, c: char) -> bool {
    k.code == KeyCode::Char(c) && !has_mod(k, MOD_CONTROL) && !has_mod(k, MOD_ALT)
}

/// Each key in the path editor, but for Enter, Esc and Ctrl-C, answers
/// nothing and keeps the editor open: a typed character is appended,
/// Backspace drops the last character (an empty text stays empty), and a
/// character with Control or Alt held leaves the text as it was.
pub proof fn law_editor_key(m: MenuView, key: KeyEvent)
    requires
        m.editor is Some,
        key.code != KeyCode::Enter,
        key.code != KeyCode::Esc,
        !(key.code == KeyCode::Char('c') && has_mod(key, MOD_CONTROL)),
    ensures
        key_outcome(m, key).1 == ActionView::Nothing,
        key_outcome(m, key).0.editor is Some,
        key_outcome(m, key).0 == (MenuView { editor: key_outcome(m, key).0.editor, ..m }),
        key.code matches KeyCode::Char(c) ==> key_outcome(m, key).0.editor == Some(
            if types_char(key, c) { m.editor.unwrap().push(c) } else { m.editor.unwrap() },
        ),
        key.code == KeyCode::Backspace ==> key_outcome(m, key).0.editor == Some(
            if m.editor.unwrap().len() > 0 { m.editor.unwrap().drop_last() } else { m.editor.unwrap() },
        ),
{
}

/// Typing the characters of `s` into the path editor appends `s` to its
/// text, and Enter then proposes that text as the screenshot directory.
pub proof fn law_editor_typing(m: MenuView, s: Seq<char>, keys: Seq<KeyEvent>, enter: KeyEvent)
    requires
        m.editor is Some,
        keys.len() == s.len(),
        forall|i: int| 0 <= i < keys.len() ==> types_char(#[trigger] keys[i], s[i]),
        enter.code == KeyCode::Enter,
    ensures
        feed(m, keys) == (MenuView { editor: Some(m.editor.unwrap() + s), ..m }),
        key_outcome(feed(m, keys), enter) == (
            MenuView { editor: None, ..m },
            ActionView::SetScreenshotDir(m.editor.unwrap() + s),
        ),
    decreases keys.len(),
{
    let t = m.editor.unwrap();
    if keys.len() == 0 {
        assert(t + s =~= t);
    } else {
        assert(types_char(keys[0], s[0]));
        let m1 = key_outcome(m, keys[0]).0;
        assert(m1 == (MenuView { editor: Some(t.push(s[0])), ..m }));
        assert forall|i: int| 0 <= i < keys.skip(1).len() implies types_char(#[trigger] keys.skip(1)[i], s.skip(1)[i]) by {
            assert(types_char(keys[i + 1], s[i + 1]));
        }
        law_editor_typing(m1, s.skip(1), keys.skip(1), enter);
        assert(t.push(s[0]) + s.skip(1) =~= t + s);
    }
}

/// On the screenshot-path row, Right or Enter opens the path editor on the
/// current directory; Esc, Enter and Ctrl-C close it again, and only Enter
/// proposes the typed text.
pub proof fn law_editor_open_close(m: MenuView, open: KeyEvent, key: KeyEvent)
    requires
        m.editor is None,
        m.selected == 7,
        open.code == KeyCode::Right || open.code == KeyCode::Enter,
        key.code == KeyCode::Esc || key.code == KeyCode::Enter || (key.code == KeyCode::Char('c') && has_mod(
            key,
            MOD_CONTROL,
        )),
    ensures
        key_outcome(m, open) == (MenuView { editor: Some(m.screenshot_dir), ..m }, ActionView::Nothing),
        key_outcome(key_outcome(m, open).0, key).0 == m,
        key_outcome(key_outcome(m, open).0, key).1 == (if key.code == KeyCode::Enter {
            ActionView::SetScreenshotDir(m.screenshot_dir)
        } else if key.code == KeyCode::Esc {
            ActionView::Nothing
        } else {
            ActionView::Quit
        }),
{
}

/// With no path being typed, changing the value of the last two rows acts
/// on the application: "Close menu (Esc)" closes the menu and "Quit (q)"
/// quits, in either direction and with Enter, and the menu is left as it
/// was.
pub proof fn law_menu_exit_rows(m: MenuView, key: KeyEvent)
    requires
        m.editor is None,
        m.selected == 8 || m.selected == 9,
        key.code == KeyCode::Left || key.code == KeyCode::Right || key.code == KeyCode::Enter,
    ensures
        key_outcome(m, key).0 == m,
        m.selected == 8 ==> key_outcome(m, key).1 == ActionView::Close,
        m.selected == 9 ==> key_outcome(m, key).1 == ActionView::Quit,
{
}

/// With no path being typed, `q` (with any modifiers) and Ctrl-C quit and
/// Esc closes the menu, leaving the menu as it was.
pub proof fn law_menu_quit_keys(m: MenuView, key: KeyEvent)
    requires
        m.editor is None,
        key.code == KeyCode::Char('q') || key.code == KeyCode::Esc || (key.code == KeyCode::Char('c')
            && key.modifiers == MOD_CONTROL),
    ensures
        key_outcome(m, key).0 == m,
        key_outcome(m, key).1 == (if key.code == KeyCode::Esc { ActionView::Close } else { ActionView::Quit }),
{
}

/// With no path being typed, Left steps the selected row's value back and
/// Right or Enter forward: the style, render mode and color depth cycle by
/// one, the mirror toggles, brightness moves by 5 hundredths and contrast
/// by one tenth; the menu itself is unchanged.
pub proof fn law_menu_value_rows(m: MenuView, key: KeyEvent)
    requires
        m.editor is None,
        1 <= m.selected <= 6,
        key.code == KeyCode::Left || key.code == KeyCode::Right || key.code == KeyCode::Enter,
    ensures
        ({
            let d: i32 = if key.code == KeyCode::Left { -1i32 } else { 1i32 };
            &&& key_outcome(m, key).0 == m
            &&& key_outcome(m, key).1 == (if m.selected == 1 {
                ActionView::CycleStyle(d)
            } else if m.selected == 2 {
                ActionView::CycleMode(d)
            } else if m.selected == 3 {
                ActionView::CycleDepth(d)
            } else if m.selected == 4 {
                ActionView::ToggleMirror
            } else if m.selected == 5 {
                ActionView::AdjustBrightness((5 * d) as i32)
            } else {
                ActionView::AdjustContrast(d)
            })
        }),
{
}

/// On the camera row with cameras listed, Left selects the camera before
/// the current one in the list and Right or Enter the one after it,
/// wrapping around at either end; the menu records it as current.
pub proof fn law_menu_camera_row(m: MenuView, key: KeyEvent)
    requires
        m.editor is None,
        m.selected == 0,
        m.cameras.len() > 0,
        key.code == KeyCode::Left || key.code == KeyCode::Right || key.code == KeyCode::Enter,
    ensures
        ({
            let n = m.cameras.len() as int;
            let p = camera_pos(m.cameras, m.current_camera, 0);
            let next = if key.code == KeyCode::Left {
                if p == 0 { n - 1 } else { p - 1 }
            } else {
                if p == n - 1 { 0 } else { p + 1 }
            };
            &&& 0 <= p < n
            &&& key_outcome(m, key).1 == ActionView::SwitchCamera(m.cameras[next].index)
            &&& key_outcome(m, key).0 == (MenuView { current_camera: m.cameras[next].index, ..m })
        }),
{
    lemma_camera_pos_bound(m.cameras, m.current_camera, 0);
    let n = m.cameras.len() as int;
    let p = camera_pos(m.cameras, m.current_camera, 0);
    if key.code == KeyCode::Left {
        if p == 0 {
            assert((p - 1) % n == n - 1) by (nonlinear_arith)
                requires p == 0, n > 0;
        } else {
            assert((p - 1) % n == p - 1) by (nonlinear_arith)
                requires 0 < p < n;
        }
    } else {
        if p == n - 1 {
            assert((p + 1) % n == 0) by (nonlinear_arith)
                requires p == n - 1, n > 0;
        } else {
            assert((p + 1) % n == p + 1) by (nonlinear_arith)
                requires 0 <= p < n - 1;
        }
    }
}

/// Opening the path editor starts from the current directory, and confirming
/// it untouched proposes that same directory.
pub proof fn law_editor_open_confirm(m: MenuView, enter: KeyEvent)
    requires
        m.editor is None,
        m.selected == 7,
        enter.code == KeyCode::Enter,
    ensures
        key_outcome(m, enter).0.editor == Some(m.screenshot_dir),
        key_outcome(key_outcome(m, enter).0, enter).1 == ActionView::SetScreenshotDir(m.screenshot_dir),
        key_outcome(key_outcome(m, enter).0, enter).0 == m,
{
}

/// `String::pop`: removes and returns the last character, if any.
#[verifier::external_body]
fn pop_char(s: &mut String) -> (c: Option<char>)
    ensures
        old(s)@.len() == 0 ==> c is None && final(s)@ == old(s)@,
        old(s)@.len() > 0 ==> c == Some(old(s)@.last()) && final(s)@ == old(s)@.drop_last(),
{
    s.pop()
}

/// `String::clone`.
fn clone_string(s: &String) -> (r: String)
    ensures
        r@ == s@,
{
    s.clone()
}

impl MenuState {
    pub fn new(cameras: Vec<CameraInfo>, current_camera: u32, screenshot_dir: String) -> (m: Self)
        ensures
            m@.selected == 0,
            m@.cameras == cameras@,
            m@.current_camera == current_camera,
            m@.screenshot_dir == screenshot_dir@,
            m@.editor is None,
    {
        MenuState { selected: 0, cameras, current_camera, screenshot_dir, path_editor: None }
    }

    pub fn set_screenshot_dir(&mut self, screenshot_dir: String)
        ensures
            final(self)@ == (MenuView { screenshot_dir: screenshot_dir@, ..old(self)@ }),
    {
        self.screenshot_dir = screenshot_dir;
    }

    /// Whether the screenshot path is being typed.
    pub fn is_editing_text(&self) -> (b: bool)
        ensures
            b == (self@.editor is Some),
    {
        self.path_editor.is_some()
    }

    /// Records which camera the capture runs on.
    pub fn set_current_camera(&mut self, idx: u32)
        ensures
            final(self)@ == (MenuView { current_camera: idx, ..old(self)@ }),
    {
        self.current_camera = idx;
    }

    pub fn on_key(&mut self, key: KeyEvent) -> (a: Action)
        requires
            old(self)@.editor is None && key.code == KeyCode::Up ==> old(self)@.selected + 10 <= usize::MAX,
            old(self)@.editor is None && key.code == KeyCode::Down ==> old(self)@.selected + 1 <= usize::MAX,
            old(self)@.editor is None && old(self)@.selected == 0 && (key.code == KeyCode::Left
                || key.code == KeyCode::Right || key.code == KeyCode::Enter) ==> old(self)@.cameras.len() <= i32::MAX,
        ensures
            (final(self)@, a@) == key_outcome(old(self)@, key),
    {
        if self.path_editor.is_some() {
            return self.on_path_editor_key(key);
        }
        match key.code {
            KeyCode::Esc => Action::Close,
            KeyCode::Char(c) => {
                if c == 'q' || (c == 'c' && key.modifiers == MOD_CONTROL) {
                    Action::Quit
                } else {
                    Action::Nothing
                }
            },
            KeyCode::Up => {
                self.selected = (self.selected + ITEM_COUNT - 1) % ITEM_COUNT;
                Action::Nothing
            },
            KeyCode::Down => {
                self.selected = (self.selected + 1) % ITEM_COUNT;
                Action::Nothing
            },
            KeyCode::Left => self.adjust(-1),
            KeyCode::Right | KeyCode::Enter => self.adjust(1),
            _ => Action::Nothing,
        }
    }

    fn on_path_editor_key(&mut self, key: KeyEvent) -> (a: Action)
        requires
            old(self)@.editor is Some,
        ensures
            (final(self)@, a@) == editor_outcome(old(self)@, key),
    {
        if key.code == KeyCode::Char('c') && key.modifiers & MOD_CONTROL != 0 {
            self.path_editor = None;
            return Action::Quit;
        }
        match key.code {
            KeyCode::Esc => {
                self.path_editor = None;
                Action::Nothing
            },
            KeyCode::Enter => {
                let value = match self.path_editor.take() {
                    Some(v) => v,
                    None => String::new(),
                };
                Action::SetScreenshotDir(value)
            },
            KeyCode::Backspace => {
                let mut text = match self.path_editor.take() {
                    Some(v) => v,
                    None => String::new(),
                };
                let _ = pop_char(&mut text);
                self.path_editor = Some(text);
                Action::Nothing
            },
            KeyCode::Char(c) => {
                if key.modifiers & MOD_CONTROL == 0 && key.modifiers & MOD_ALT == 0 {
                    let mut text = match self.path_editor.take() {
                        Some(v) => v,
                        None => String::new(),
                    };
                    push_char(&mut text, c);
                    self.path_editor = Some(text);
                }
                Action::Nothing
            },
            _ => Action::Nothing,
        }
    }

    fn camera_position(&self) -> (p: usize)
        ensures
            p as int == camera_pos(self.cameras@, self.current_camera, 0),
    {
        let mut i: usize = 0;
        while i < self.cameras.len()
            invariant
                i <= self.cameras@.len(),
                camera_pos(self.cameras@, self.current_camera, 0) == camera_pos(self.cameras@, self.current_camera, i as int),
            decreases self.cameras.len() - i,
        {
            if self.cameras[i].index == self.current_camera {
                return i;
            }
            i = i + 1;
        }
        0
    }

    fn adjust(&mut self, dir: i32) -> (a: Action)
        requires
            dir == 1 || dir == -1,
            old(self)@.editor is None,
            old(self)@.selected == 0 ==> old(self)@.cameras.len() <= i32::MAX,
        ensures
            (final(self)@, a@) == adjust_outcome(old(self)@, dir as int),
    {
        let s = self.selected;
        if s == 0 {
            if self.cameras.len() == 0 {
                return Action::Nothing;
            }
            let cur = self.camera_position();
            proof {
                lemma_camera_pos_bound(self.cameras@, self.current_camera, 0);
            }
            let n = self.cameras.len() as i32;
            let next = wrap_index(cur as i32 + dir, n) as usize;
            let idx = self.cameras[next].index;
            self.current_camera = idx;
            Action::SwitchCamera(idx)
        } else if s == 1 {
            Action::CycleStyle(dir)
        } else if s == 2 {
            Action::CycleMode(dir)
        } else if s == 3 {
            Action::CycleDepth(dir)
        } else if s == 4 {
            Action::ToggleMirror
        } else if s == 5 {
            Action::AdjustBrightness(dir * 5)
        } else if s == 6 {
            Action::AdjustContrast(dir)
        } else if s == 7 {
            self.path_editor = Some(clone_string(&self.screenshot_dir));
            Action::Nothing
        } else if s == 8 {
            Action::Close
        } else if s == 9 {
            Action::Quit
        } else {
            Action::Nothing
        }
    }
}

// ---- drawing ----

pub const TITLE_COLS: u16 = 50;
pub const MENU_HEIGHT: u16 = 18;

pub open spec fn title_line_1() -> Seq<char> {
    "▀█▀ █▀▀ █▀▄ █▄▀▄█ █ █▄ █ ▄▀█ █   ▄▄▄ ▄▀▀ ▄▀█ █▄▀▄█"@
}

pub open spec fn title_line_2() -> Seq<char> {
    " █  █▄▄ █▀▄ █ ▀ █ █ █ ▀█ █▀█ █▄▄ ▀▀▀ ▀▄▄ █▀█ █ ▀ █"@
}

pub open spec fn hint_text(editing: bool) -> Seq<char> {
    if editing {
        "type path · Enter save · Esc cancel · Backspace delete"@
    } else {
        "↑↓ select · ←→ change · Enter apply · Space screenshot · Esc close · q quit"@
    }
}

pub open spec fn footer_text(version: Seq<char>) -> Seq<char> {
    "v"@ + version + " · © 2026 terminal-cam"@
}

pub open spec fn rep(c: char, n: int) -> Seq<char> {
    Seq::new(n as nat, |i: int| c)
}

/// Escape that moves the cursor to 1-based row `y`, column `x`.
pub open spec fn cursor_to(y: int, x: int) -> Seq<char> {
    "\x1b["@ + decimal(y as nat) + ";"@ + decimal(x as nat) + "H"@
}

pub open spec fn max_int(a: int, b: int) -> int {
    if a >= b { a } else { b }
}

/// Overlay width: fits the title, the hint and the footer with padding, at
/// least 64 columns.
pub open spec fn menu_width(hint_len: int, footer_len: int) -> int {
    max_int(max_int(max_int(hint_len + 6, TITLE_COLS + 6), footer_len + 6), 64)
}

/// `(x0, y0, width, height)` of the overlay, 0-based, centered in the terminal.
pub open spec fn menu_rect_spec(editing: bool, version: Seq<char>, cols: int, rows: int) -> (int, int, int, int) {
    let width = menu_width(hint_text(editing).len() as int, footer_text(version).len() as int);
    let x0 = (if cols > width { cols - width } else { 0 }) / 2;
    let y0 = (if rows > MENU_HEIGHT { rows - MENU_HEIGHT } else { 0 }) / 2;
    (x0, y0, width, MENU_HEIGHT as int)
}

/// Name of the first camera with the given index.
pub open spec fn camera_name(cams: Seq<CameraInfo>, idx: u32, from: int) -> Option<Seq<char>>
    decreases cams.len() - from,
{
    if from >= cams.len() {
        None
    } else if cams[from].index == idx {
        Some(cams[from].name@)
    } else {
        camera_name(cams, idx, from + 1)
    }
}

pub open spec fn abs_int(v: int) -> int {
    if v < 0 { -v } else { v }
}

/// A hundredths value printed with an explicit sign and two decimals.
pub open spec fn signed_hundredths(v: int) -> Seq<char> {
    (if v < 0 { "-"@ } else { "+"@ }) + decimal((abs_int(v) / 100) as nat) + "."@
        + decimal_padded((abs_int(v) % 100) as nat, 2)
}

/// A tenths value printed with one decimal.
pub open spec fn tenths(v: int) -> Seq<char> {
    (if v < 0 { "-"@ } else { Seq::empty() }) + decimal((abs_int(v) / 10) as nat) + "."@ + decimal(
        (abs_int(v) % 10) as nat,
    )
}

#[verifier::opaque]
pub open spec fn item_value(m: MenuView, cfg: RenderConfig, i: int) -> Seq<char> {
    if i == 0 {
        match camera_name(m.cameras, m.current_camera, 0) {
            Some(n) => n,
            None => "(none)"@,
        }
    } else if i == 1 {
        style_label(cfg.style)
    } else if i == 2 {
        mode_label(cfg.mode)
    } else if i == 3 {
        if cfg.depth == ColorDepth::Auto {
            "auto · "@ + depth_label(cfg.effective_depth_spec())
        } else {
            depth_label(cfg.depth)
        }
    } else if i == 4 {
        if cfg.mirror { "on"@ } else { "off"@ }
    } else if i == 5 {
        signed_hundredths(cfg.brightness as int)
    } else if i == 6 {
        tenths(cfg.contrast as int)
    } else if i == 7 {
        match m.editor {
            Some(t) => t + "_"@,
            None => m.screenshot_dir,
        }
    } else {
        Seq::empty()
    }
}

/// `s` left-aligned in a field of `w` characters.
pub open spec fn pad_right(s: Seq<char>, w: int) -> Seq<char> {
    if s.len() < w { s + rep(' ', w - s.len()) } else { s }
}

pub open spec fn item_line(m: MenuView, cfg: RenderConfig, i: int) -> Seq<char> {
    let marker = if i == m.selected { "▸"@ } else { " "@ };
    let value = item_value(m, cfg, i);
    if value.len() == 0 {
        " "@ + marker + " "@ + item_label(i)
    } else {
        " "@ + marker + " "@ + pad_right(item_label(i), 18) + " "@ + value
    }
}

/// Row of item `i`: the line cut to the interior width and padded to it,
/// highlighted when selected.
#[verifier::opaque]
pub open spec fn item_row(m: MenuView, cfg: RenderConfig, i: int, x0: int, y0: int, interior: int) -> Seq<char> {
    let line = item_line(m, cfg, i);
    let trimmed = if line.len() <= interior { line } else { line.take(interior) };
    cursor_to(y0 + 5 + i, x0 + 3) + (if i == m.selected { "\x1b[7m"@ } else { Seq::empty() }) + trimmed + rep(
        ' ',
        interior - trimmed.len(),
    ) + "\x1b[0m"@
}

pub open spec fn item_rows(m: MenuView, cfg: RenderConfig, from: int, x0: int, y0: int, interior: int) -> Seq<char>
    decreases 10 - from,
{
    if from >= 10 {
        Seq::empty()
    } else {
        item_row(m, cfg, from, x0, y0, interior) + item_rows(m, cfg, from + 1, x0, y0, interior)
    }
}

pub open spec fn side_rows(from: int, x0: int, y0: int, width: int) -> Seq<char>
    decreases MENU_HEIGHT - 1 - from,
{
    if from >= MENU_HEIGHT - 1 {
        Seq::empty()
    } else {
        cursor_to(y0 + 1 + from, x0 + 1) + "│"@ + rep(' ', width - 2) + "│"@ + side_rows(from + 1, x0, y0, width)
    }
}

pub open spec fn border_text(x0: int, y0: int, width: int) -> Seq<char> {
    cursor_to(y0 + 1, x0 + 1) + "╭"@ + rep('─', width - 2) + "╮"@ + side_rows(1, x0, y0, width)
        + cursor_to(y0 + MENU_HEIGHT, x0 + 1) + "╰"@ + rep('─', width - 2) + "╯"@
}

pub open spec fn title_text(tx: int, y0: int) -> Seq<char> {
    cursor_to(y0 + 2, tx + 1) + "\x1b[1m"@ + title_line_1() + "\x1b[0m"@
        + cursor_to(y0 + 3, tx + 1) + "\x1b[1m"@ + title_line_2() + "\x1b[0m"@
}

pub open spec fn dim_line(y: int, x: int, text: Seq<char>) -> Seq<char> {
    cursor_to(y, x) + "\x1b[2m"@ + text + "\x1b[0m"@
}

/// The complete overlay text.
pub open spec fn menu_text(m: MenuView, cfg: RenderConfig, cols: int, rows: int, version: Seq<char>) -> Seq<char> {
    let hint = hint_text(m.editor is Some);
    let footer = footer_text(version);
    let (x0, y0, width, height) = menu_rect_spec(m.editor is Some, version, cols, rows);
    let tx = x0 + (width - TITLE_COLS) / 2;
    let hx = x0 + (if width > hint.len() { width - hint.len() } else { 0 }) / 2;
    let fx = x0 + (if width > footer.len() { width - footer.len() } else { 0 }) / 2;
    "\x1b[0m"@ + border_text(x0, y0, width) + title_text(tx, y0) + item_rows(m, cfg, 0, x0, y0, width - 4)
        + dim_line(y0 + height - 2, hx + 1, hint) + dim_line(y0 + height - 1, fx + 1, footer)
}

/// Character counts of the fixed texts.
pub proof fn lemma_menu_text_lens(version: Seq<char>)
    ensures
        hint_text(true).len() == 54,
        hint_text(false).len() == 75,
        footer_text(version).len() == version.len() + 23,
{
    reveal_strlit("type path · Enter save · Esc cancel · Backspace delete");
    reveal_strlit("↑↓ select · ←→ change · Enter apply · Space screenshot · Esc close · q quit");
    reveal_strlit("v");
    reveal_strlit(" · © 2026 terminal-cam");
}

fn push_cursor(buf: &mut String, y: u64, x: u64)
    ensures
        final(buf)@ == old(buf)@ + cursor_to(y as int, x as int),
{
    push_str(buf, "\x1b[");
    push_decimal(buf, y);
    push_str(buf, ";");
    push_decimal(buf, x);
    push_str(buf, "H");
    assert(final(buf)@ =~= old(buf)@ + cursor_to(y as int, x as int));
}

fn push_signed_hundredths(buf: &mut String, v: i32)
    ensures
        final(buf)@ == old(buf)@ + signed_hundredths(v as int),
{
    let ghost start = buf@;
    let a: u64 = if v < 0 { (-(v as i64)) as u64 } else { v as u64 };
    push_str(buf, if v < 0 { "-" } else { "+" });
    push_decimal(buf, a / 100);
    push_str(buf, ".");
    push_decimal_padded(buf, a % 100, 2);
    assert(buf@ =~= start + signed_hundredths(v as int));
}

fn push_tenths(buf: &mut String, v: i32)
    ensures
        final(buf)@ == old(buf)@ + tenths(v as int),
{
    let ghost start = buf@;
    let a: u64 = if v < 0 { (-(v as i64)) as u64 } else { v as u64 };
    if v < 0 {
        push_str(buf, "-");
    }
    push_decimal(buf, a / 10);
    push_str(buf, ".");
    push_decimal(buf, a % 10);
    assert(buf@ =~= start + tenths(v as int));
}

/// Appends the characters of `src` to `dst`.
fn push_string(dst: &mut String, src: &String)
    ensures
        final(dst)@ == old(dst)@ + src@,
{
    push_str(dst, src.as_str());
}

impl MenuState {
    fn camera_name_of(&self, out: &mut String)
        ensures
            final(out)@ == old(out)@ + match camera_name(self@.cameras, self@.current_camera, 0) {
                Some(n) => n,
                None => "(none)"@,
            },
    {
        let mut i: usize = 0;
        while i < self.cameras.len()
            invariant
                i <= self.cameras@.len(),
                out@ == old(out)@,
                camera_name(self@.cameras, self@.current_camera, 0) == camera_name(self@.cameras, self@.current_camera, i as int),
                self@.cameras == self.cameras@,
                self@.current_camera == self.current_camera,
            decreases self.cameras.len() - i,
        {
            if self.cameras[i].index == self.current_camera {
                push_string(out, &self.cameras[i].name);
                assert(self.cameras@[i as int].name@ == self.cameras[i as int].name@);
                return;
            }
            i = i + 1;
        }
        push_str(out, "(none)");
    }

    fn push_item_value(&self, cfg: &RenderConfig, i: usize, out: &mut String)
        requires
            i < ITEM_COUNT,
        ensures
            final(out)@ == old(out)@ + item_value(self@, *cfg, i as int),
    {
        let ghost start = out@;
        reveal(item_value);
        if i == 0 {
            self.camera_name_of(out);
        } else if i == 1 {
            push_str(out, cfg.style.label());
        } else if i == 2 {
            push_str(out, cfg.mode.label());
        } else if i == 3 {
            if cfg.depth == ColorDepth::Auto {
                push_str(out, "auto · ");
                push_str(out, cfg.effective_depth().label());
            } else {
                push_str(out, cfg.depth.label());
            }
        } else if i == 4 {
            push_str(out, if cfg.mirror { "on" } else { "off" });
        } else if i == 5 {
            push_signed_hundredths(out, cfg.brightness);
        } else if i == 6 {
            push_tenths(out, cfg.contrast);
        } else if i == 7 {
            match &self.path_editor {
                Some(t) => {
                    push_string(out, t);
                    push_str(out, "_");
                },
                None => push_string(out, &self.screenshot_dir),
            }
        }
        assert(out@ =~= start + item_value(self@, *cfg, i as int));
    }

    #[verifier::rlimit(80)]
    fn push_item_row(&self, cfg: &RenderConfig, i: usize, x0: u16, y0: u16, interior: usize, buf: &mut String)
        requires
            i < ITEM_COUNT,
            y0 <= 32767,
            x0 <= 32767,
        ensures
            final(buf)@ == old(buf)@ + item_row(self@, *cfg, i as int, x0 as int, y0 as int, interior as int),
    {
        let ghost start = buf@;
        let mut value = String::new();
        self.push_item_value(cfg, i, &mut value);
        let selected = i == self.selected;
        let mut line = String::new();
        push_str(&mut line, " ");
        push_str(&mut line, if selected { "▸" } else { " " });
        push_str(&mut line, " ");
        let label = item(i);
        push_str(&mut line, label);
        if value.as_str().unicode_len() != 0 {
            let label_len = label.unicode_len();
            if label_len < 18 {
                push_repeat(&mut line, ' ', 18 - label_len);
            }
            push_str(&mut line, " ");
            push_string(&mut line, &value);
        }
        let ghost full = line@;
        assert(full =~= item_line(self@, *cfg, i as int));
        push_cursor(buf, y0 as u64 + 5 + i as u64, x0 as u64 + 3);
        if selected {
            push_str(buf, "\x1b[7m");
        }
        let line_len = line.as_str().unicode_len();
        let shown = if line_len <= interior { line_len } else { interior };
        let mut k: usize = 0;
        let ghost before = buf@;
        while k < shown
            invariant
                k <= shown,
                shown <= line@.len(),
                line@ == full,
                buf@ == before + full.take(k as int),
            decreases shown - k,
        {
            let c = line.as_str().get_char(k);
            push_char(buf, c);
            k = k + 1;
            assert(buf@ =~= before + full.take(k as int));
        }
        push_repeat(buf, ' ', interior - shown);
        push_str(buf, "\x1b[0m");
        assert(full.len() <= interior ==> full.take(shown as int) =~= full);
        reveal(item_row);
        assert(buf@ =~= start + item_row(self@, *cfg, i as int, x0 as int, y0 as int, interior as int));
    }
}

/// Where the overlay goes, as `(x, y, width, height)` 0-based: the caller
/// leaves this rectangle out of the camera frame underneath.
pub fn menu_rect(state: &MenuState, cols: u16, rows: u16, version: &str) -> (r: (u16, u16, u16, u16))
    requires
        version@.len() + 29 <= 65535,
    ensures
        (r.0 as int, r.1 as int, r.2 as int, r.3 as int) == menu_rect_spec(
            state@.editor is Some,
            version@,
            cols as int,
            rows as int,
        ),
        r.2 >= 64,
        r.2 <= version@.len() + 29 || r.2 <= 81,
{
    let hint = if state.is_editing_text() {
        "type path · Enter save · Esc cancel · Backspace delete"
    } else {
        "↑↓ select · ←→ change · Enter apply · Space screenshot · Esc close · q quit"
    };
    proof {
        lemma_menu_text_lens(version@);
    }
    let hint_cols = hint.unicode_len() as u16;
    let footer_cols = (version.unicode_len() + 23) as u16;
    let a = if hint_cols + 6 >= TITLE_COLS + 6 { hint_cols + 6 } else { TITLE_COLS + 6 };
    let b = if a >= footer_cols + 6 { a } else { footer_cols + 6 };
    let width: u16 = if b >= 64 { b } else { 64 };
    let x0 = cols.saturating_sub(width) / 2;
    let y0 = rows.saturating_sub(MENU_HEIGHT) / 2;
    (x0, y0, width, MENU_HEIGHT)
}

fn push_border(buf: &mut String, x0: u16, y0: u16, width: u16)
    requires
        x0 <= 32767,
        y0 <= 32767,
        width >= 64,
    ensures
        final(buf)@ == old(buf)@ + border_text(x0 as int, y0 as int, width as int),
{
    let ghost start = buf@;
    push_cursor(buf, y0 as u64 + 1, x0 as u64 + 1);
    push_str(buf, "╭");
    push_repeat(buf, '─', (width - 2) as usize);
    push_str(buf, "╮");
    let ghost before_sides = buf@;
    let mut row: u16 = 1;
    while row < MENU_HEIGHT - 1
        invariant
            1 <= row <= MENU_HEIGHT - 1,
            y0 <= 32767,
            x0 <= 32767,
            width >= 64,
            buf@ + side_rows(row as int, x0 as int, y0 as int, width as int)
                == before_sides + side_rows(1, x0 as int, y0 as int, width as int),
        decreases MENU_HEIGHT - 1 - row,
    {
        let ghost pre = buf@;
        push_cursor(buf, y0 as u64 + 1 + row as u64, x0 as u64 + 1);
        push_str(buf, "│");
        push_repeat(buf, ' ', (width - 2) as usize);
        push_str(buf, "│");
        assert(buf@ + side_rows(row + 1, x0 as int, y0 as int, width as int)
            =~= pre + side_rows(row as int, x0 as int, y0 as int, width as int));
        row = row + 1;
    }
    push_cursor(buf, y0 as u64 + MENU_HEIGHT as u64, x0 as u64 + 1);
    push_str(buf, "╰");
    push_repeat(buf, '─', (width - 2) as usize);
    push_str(buf, "╯");
    assert(buf@ =~= start + border_text(x0 as int, y0 as int, width as int));
}

fn push_title(buf: &mut String, tx: u16, y0: u16)
    requires
        y0 <= 32767,
    ensures
        final(buf)@ == old(buf)@ + title_text(tx as int, y0 as int),
{
    let ghost start = buf@;
    push_cursor(buf, y0 as u64 + 2, tx as u64 + 1);
    push_str(buf, "\x1b[1m");
    push_str(buf, "▀█▀ █▀▀ █▀▄ █▄▀▄█ █ █▄ █ ▄▀█ █   ▄▄▄ ▄▀▀ ▄▀█ █▄▀▄█");
    push_str(buf, "\x1b[0m");
    push_cursor(buf, y0 as u64 + 3, tx as u64 + 1);
    push_str(buf, "\x1b[1m");
    push_str(buf, " █  █▄▄ █▀▄ █ ▀ █ █ █ ▀█ █▀█ █▄▄ ▀▀▀ ▀▄▄ █▀█ █ ▀ █");
    push_str(buf, "\x1b[0m");
    assert(buf@ =~= start + title_text(tx as int, y0 as int));
}

fn push_dim_line(buf: &mut String, y: u64, x: u64, text: &str)
    ensures
        final(buf)@ == old(buf)@ + dim_line(y as int, x as int, text@),
{
    let ghost start = buf@;
    push_cursor(buf, y, x);
    push_str(buf, "\x1b[2m");
    push_str(buf, text);
    push_str(buf, "\x1b[0m");
    assert(buf@ =~= start + dim_line(y as int, x as int, text@));
}

impl MenuState {
    fn push_items(&self, cfg: &RenderConfig, x0: u16, y0: u16, interior: usize, buf: &mut String)
        requires
            y0 <= 32767,
            x0 <= 32767,
        ensures
            final(buf)@ == old(buf)@ + item_rows(self@, *cfg, 0, x0 as int, y0 as int, interior as int),
    {
        let ghost start = buf@;
        let mut i: usize = 0;
        while i < ITEM_COUNT
            invariant
                i <= ITEM_COUNT,
                y0 <= 32767,
                x0 <= 32767,
                buf@ + item_rows(self@, *cfg, i as int, x0 as int, y0 as int, interior as int)
                    == start + item_rows(self@, *cfg, 0, x0 as int, y0 as int, interior as int),
            decreases ITEM_COUNT - i,
        {
            let ghost pre = buf@;
            self.push_item_row(cfg, i, x0, y0, interior, buf);
            assert(buf@ + item_rows(self@, *cfg, i + 1, x0 as int, y0 as int, interior as int)
                =~= pre + item_rows(self@, *cfg, i as int, x0 as int, y0 as int, interior as int));
            i = i + 1;
        }
        assert(buf@ =~= start + item_rows(self@, *cfg, 0, x0 as int, y0 as int, interior as int));
    }
}

/// Appends the options overlay to `buf`, for a `cols` x `rows` terminal.
/// `version` is the program version shown in the footer.
#[verifier::rlimit(80)]
pub fn draw(state: &MenuState, cfg: &RenderConfig, cols: u16, rows: u16, version: &str, buf: &mut String)
    requires
        version@.len() + 29 <= 65535,
    ensures
        final(buf)@ == old(buf)@ + menu_text(state@, *cfg, cols as int, rows as int, version@),
{
    let ghost start = buf@;
    let editing = state.is_editing_text();
    let hint = if editing {
        "type path · Enter save · Esc cancel · Backspace delete"
    } else {
        "↑↓ select · ←→ change · Enter apply · Space screenshot · Esc close · q quit"
    };
    proof {
        lemma_menu_text_lens(version@);
    }
    assert(hint@ == hint_text(editing));
    let hint_cols = hint.unicode_len() as u16;
    assert(hint_cols as int == hint_text(editing).len());
    let mut footer = String::new();
    push_str(&mut footer, "v");
    push_str(&mut footer, version);
    push_str(&mut footer, " · © 2026 terminal-cam");
    assert(footer@ =~= footer_text(version@));
    let footer_cols = footer.as_str().unicode_len() as u16;
    assert(footer_cols as int == footer_text(version@).len());
    let (x0, y0, width, height) = menu_rect(state, cols, rows, version);
    let ghost rect = menu_rect_spec(editing, version@, cols as int, rows as int);
    assert(x0 as int == rect.0 && y0 as int == rect.1 && width as int == rect.2 && height as int == rect.3);

    push_str(buf, "\x1b[0m");
    push_border(buf, x0, y0, width);
    let tx = x0 + (width - TITLE_COLS) / 2;
    push_title(buf, tx, y0);
    state.push_items(cfg, x0, y0, (width - 4) as usize, buf);
    let ghost mid = buf@;
    assert(mid =~= start + "\x1b[0m"@ + border_text(x0 as int, y0 as int, width as int) + title_text(tx as int, y0 as int)
        + item_rows(state@, *cfg, 0, x0 as int, y0 as int, width - 4));
    let hx = x0 + width.saturating_sub(hint_cols) / 2;
    push_dim_line(buf, y0 as u64 + height as u64 - 2, hx as u64 + 1, hint);
    let fx = x0 + width.saturating_sub(footer_cols) / 2;
    push_dim_line(buf, y0 as u64 + height as u64 - 1, fx as u64 + 1, footer.as_str());
    assert(buf@ =~= mid + dim_line(y0 + height - 2, hx + 1, hint@) + dim_line(y0 + height - 1, fx + 1, footer@));
}

} // verus!
