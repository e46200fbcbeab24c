//! Actions an agent asks of a desktop, their results, and the stub OS
//! backends that answer them.

use vstd::prelude::*;
use crate::text::{int_decimal, push_decimal_i64};

verus! {

/// Width in pixels of the screen the stub backends report.
pub const SCREEN_WIDTH: u32 = 1280;
/// Height in pixels of the screen the stub backends report.
pub const SCREEN_HEIGHT: u32 = 720;

/// A captured screen image.
#[derive(Debug, Clone)]
pub struct Screenshot {
    pub width: u32,
    pub height: u32,
    pub rgba: Vec<u8>,
}

/// Mouse button.
#[derive(Debug, Clone, Copy, PartialEq, Eq, Structural)]
pub enum Button {
    Left,
    Right,
    Middle,
}

/// Key codes are platform-agnostic strings: "enter", "tab", "esc",
/// "shift", "ctrl", "alt", "cmd", or a single character like "a".
#[derive(Debug, Clone)]
pub enum Action {
    Screenshot,
    MouseMove { x: i32, y: i32 },
    MouseClick { x: i32, y: i32, button: Button },
    MouseScroll { dx: i32, dy: i32 },
    KeyTap { key: String },
    TypeText { text: String },
    FocusWindow { title: String },
}

/// What a backend answers to an action: a screenshot, plain success, or
/// a failure with its message.
#[derive(Debug, Clone)]
pub enum ActionResult {
    Screenshot(Screenshot),
    Success,
    Failure(String),
}

/// The text that `format!("{:?}", s)` produces for the string `s`.
pub uninterp spec fn debug_str(s: Seq<char>) -> Seq<char>;

/// Renders `s` the way `Debug` does for strings (quoted, with escapes).
/// Trusted: `<str as Debug>::fmt` through `format!`; the contract only
/// names the result as a function of the string's characters.
#[verifier::external_body]
fn debug_quoted(s: &str) -> (r: String)
    ensures
        r@ == debug_str(s@),
{
    format!("{:?}", s)
}

/// How `Debug` renders a mouse button.
pub open spec fn button_name(b: Button) -> Seq<char> {
    match b {
        Button::Left => "Left"@,
        Button::Right => "Right"@,
        Button::Middle => "Middle"@,
    }
}

fn button_str(b: Button) -> (s: &'static str)
    ensures
        s@ == button_name(b),
{
    match b {
        Button::Left => "Left",
        Button::Right => "Right",
        Button::Middle => "Middle",
    }
}

/// A black screenshot of the stub screen.
pub open spec fn is_blank_screen(s: Screenshot) -> bool {
    &&& s.width == SCREEN_WIDTH
    &&& s.height == SCREEN_HEIGHT
    &&& s.rgba@.len() == s.width * s.height * 4
    &&& forall|i: int| 0 <= i < s.rgba@.len() ==> #[trigger] s.rgba@[i] == 0u8
}

/// The error message a stub backend named `backend` gives for an action it
/// cannot perform.
pub open spec fn stub_message(backend: Seq<char>, action: Action) -> Seq<char> {
    match action {
        Action::Screenshot => Seq::empty(),
        Action::MouseMove { x, y } => backend + " mouse_move stub x="@ + int_decimal(x as int)
            + " y="@ + int_decimal(y as int),
        Action::MouseClick { x, y, button } => backend + " mouse_click stub x="@ + int_decimal(
            x as int,
        ) + " y="@ + int_decimal(y as int) + " button="@ + button_name(button),
        Action::MouseScroll { dx, dy } => backend + " scroll stub dx="@ + int_decimal(dx as int)
            + " dy="@ + int_decimal(dy as int),
        Action::KeyTap { key } => backend + " key_tap stub "@ + key@,
        Action::TypeText { text } => backend + " type_text stub "@ + debug_str(text@),
        Action::FocusWindow { title } => backend + " focus_window stub "@ + debug_str(title@),
    }
}

/// What a stub backend named `backend` answers to `action`: a black
/// screenshot of the stub screen, or an error naming the action.
pub open spec fn stub_answer(backend: Seq<char>, action: Action, r: ActionResult) -> bool {
    match action {
        Action::Screenshot => r matches ActionResult::Screenshot(s) && is_blank_screen(s),
        _ => r matches ActionResult::Failure(m) && m@ == stub_message(backend, action),
    }
}

/// A black 1280x720 screenshot.
pub fn blank_screenshot() -> (s: Screenshot)
    ensures
        is_blank_screen(s),
{
    let n: usize = 1280 * 720 * 4;
    let rgba = vec![0u8; n];
    Screenshot { width: SCREEN_WIDTH, height: SCREEN_HEIGHT, rgba }
}

/// The stub answer of the backend named `backend` to `action`.
fn stub_execute(backend: &str, action: &Action) -> (r: ActionResult)
    ensures
        stub_answer(backend@, *action, r),
{
    match action {
        Action::Screenshot => ActionResult::Screenshot(blank_screenshot()),
        Action::MouseMove { x, y } => {
            let mut m = String::from_str(backend);
            m.append(" mouse_move stub x=");
            push_decimal_i64(&mut m, *x as i64);
            m.append(" y=");
            push_decimal_i64(&mut m, *y as i64);
            ActionResult::Failure(m)
        },
        Action::MouseClick { x, y, button } => {
            let mut m = String::from_str(backend);
            m.append(" mouse_click stub x=");
            push_decimal_i64(&mut m, *x as i64);
            m.append(" y=");
            push_decimal_i64(&mut m, *y as i64);
            m.append(" button=");
            m.append(button_str(*button));
            ActionResult::Failure(m)
        },
        Action::MouseScroll { dx, dy } => {
            let mut m = String::from_str(backend);
            m.append(" scroll stub dx=");
            push_decimal_i64(&mut m, *dx as i64);
            m.append(" dy=");
            push_decimal_i64(&mut m, *dy as i64);
            ActionResult::Failure(m)
        },
        Action::KeyTap { key } => {
            let mut m = String::from_str(backend);
            m.append(" key_tap stub ");
            m.append(key.as_str());
            ActionResult::Failure(m)
        },
        Action::TypeText { text } => {
            let mut m = String::from_str(backend);
            m.append(" type_text stub ");
            let q = debug_quoted(text.as_str());
            m.append(q.as_str());
            ActionResult::Failure(m)
        },
        Action::FocusWindow { title } => {
            let mut m = String::from_str(backend);
            m.append(" focus_window stub ");
            let q = debug_quoted(title.as_str());
            m.append(q.as_str());
            ActionResult::Failure(m)
        },
    }
}

/// macOS backend skeleton: answers with a black 1280x720 screenshot and
/// reports every other action as unsupported.
pub struct MacosDriver;

impl MacosDriver {
    /// Backend name.
    pub fn name(&self) -> (n: &'static str)
        ensures
            n@ == "macos"@,
    {
        "macos"
    }

    /// Execute an action.
    pub fn execute(&self, action: &Action) -> (r: ActionResult)
        ensures
            stub_answer("macos"@, *action, r),
    {
        stub_execute("macos", action)
    }

    /// The current screen size in pixels.
    pub fn screen_size(&self) -> (wh: (u32, u32))
        ensures
            wh == (SCREEN_WIDTH, SCREEN_HEIGHT),
    {
        (SCREEN_WIDTH, SCREEN_HEIGHT)
    }
}

/// Windows backend skeleton: answers with a black 1280x720 screenshot and
/// reports every other action as unsupported.
pub struct WindowsDriver;

impl WindowsDriver {
    /// Backend name.
    pub fn name(&self) -> (n: &'static str)
        ensures
            n@ == "windows"@,
    {
        "windows"
    }

    /// Execute an action.
    pub fn execute(&self, action: &Action) -> (r: ActionResult)
        ensures
            stub_answer("windows"@, *action, r),
    {
        stub_execute("windows", action)
    }

    /// The current screen size in pixels.
    pub fn screen_size(&self) -> (wh: (u32, u32))
        ensures
            wh == (SCREEN_WIDTH, SCREEN_HEIGHT),
    {
        (SCREEN_WIDTH, SCREEN_HEIGHT)
    }
}

} // verus!
