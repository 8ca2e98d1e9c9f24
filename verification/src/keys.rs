//! The reader window's keyboard: which action a key press asks for, the
//! scrolling that goes on while a movement key is held, and the double
//! press of `g`.
use vstd::prelude::*;

use crate::reading::ReadingMode;

verus! {

/// The keys the window reacts to; every other key is `Other`.
#[derive(Debug, Clone, Copy, PartialEq, Eq, Structural)]
pub enum Key {
    LowerM,
    UpperM,
    LowerJ,
    UpperJ,
    LowerK,
    UpperK,
    LowerL,
    LowerH,
    LowerO,
    LowerQ,
    UpperQ,
    LowerF,
    UpperF,
    LowerB,
    UpperB,
    LowerD,
    LowerU,
    LowerG,
    UpperG,
    Question,
    Slash,
    BracketLeft,
    BracketRight,
    Space,
    Left,
    Right,
    Up,
    Down,
    PageUp,
    PageDown,
    Other,
}

/// A direction and speed of scrolling while a key is held.
#[derive(Debug, Clone, Copy, PartialEq, Eq, Structural)]
pub enum ScrollDir {
    FineDown,
    FineUp,
    FastDown,
    FastUp,
}

impl ScrollDir {
    /// Pixels scrolled for one step: 40 for fine, 160 for fast, negative
    /// upwards.
    pub fn delta(&self) -> (d: i32)
        ensures
            d == (match self {
                ScrollDir::FineDown => 40i32,
                ScrollDir::FineUp => -40i32,
                ScrollDir::FastDown => 160i32,
                ScrollDir::FastUp => -160i32,
            }),
    {
        match self {
            ScrollDir::FineDown => 40,
            ScrollDir::FineUp => -40,
            ScrollDir::FastDown => 160,
            ScrollDir::FastUp => -160,
        }
    }
}

/// A scroll by a share of the visible height.
#[derive(Debug, Clone, Copy, PartialEq, Eq, Structural)]
pub enum ScreenStep {
    /// Nine tenths of a screen down.
    NineTenthsDown,
    /// Nine tenths of a screen up.
    NineTenthsUp,
    /// Half a screen down.
    HalfDown,
    /// Half a screen up.
    HalfUp,
}

/// What a key press asks the window to do.
#[derive(Debug, Clone, Copy, PartialEq, Eq, Structural)]
pub enum KeyAction {
    ToggleReadingMode,
    NextPage,
    PrevPage,
    HoldScroll(ScrollDir),
    OpenFile,
    Quit,
    ShowShortcuts,
    ToggleFullscreen,
    ScrollScreen(ScreenStep),
    JumpToEnd,
    PressG,
    PrevChapter,
    NextChapter,
    Pass,
}

/// The scrolling a key asks for in the vertical layout, when it is one of
/// the movement keys: `J`, shifted `j` or shifted Down scroll fast down;
/// `j` or Down fine down; likewise `K`, `k` and Up upwards. Never with
/// Control.
pub open spec fn vertical_scroll(key: Key, ctrl: bool, shift: bool) -> Option<ScrollDir> {
    if ctrl {
        None
    } else if key == Key::UpperJ || (key == Key::Down && shift) || (key == Key::LowerJ && shift) {
        Some(ScrollDir::FastDown)
    } else if key == Key::LowerJ || key == Key::Down {
        Some(ScrollDir::FineDown)
    } else if key == Key::UpperK || (key == Key::Up && shift) || (key == Key::LowerK && shift) {
        Some(ScrollDir::FastUp)
    } else if key == Key::LowerK || key == Key::Up {
        Some(ScrollDir::FineUp)
    } else {
        None
    }
}

/// The action for a key that neither switches the layout nor moves
/// through pages.
pub open spec fn command_action(key: Key, ctrl: bool, shift: bool) -> KeyAction {
    if ctrl && key == Key::LowerO {
        KeyAction::OpenFile
    } else if !ctrl && (key == Key::LowerQ || key == Key::UpperQ) {
        KeyAction::Quit
    } else if !ctrl && (key == Key::Question || (key == Key::Slash && shift)) {
        KeyAction::ShowShortcuts
    } else if !ctrl && (key == Key::LowerF || key == Key::UpperF) && !shift {
        KeyAction::ToggleFullscreen
    } else if ctrl && (key == Key::LowerF || key == Key::UpperF) {
        KeyAction::ScrollScreen(ScreenStep::NineTenthsDown)
    } else if ctrl && (key == Key::LowerB || key == Key::UpperB) {
        KeyAction::ScrollScreen(ScreenStep::NineTenthsUp)
    } else if key == Key::LowerD {
        KeyAction::ScrollScreen(ScreenStep::HalfDown)
    } else if key == Key::LowerU {
        KeyAction::ScrollScreen(ScreenStep::HalfUp)
    } else if key == Key::UpperG {
        KeyAction::JumpToEnd
    } else if key == Key::LowerG {
        KeyAction::PressG
    } else if key == Key::LowerH || key == Key::BracketLeft || key == Key::Left || key == Key::PageUp {
        KeyAction::PrevChapter
    } else if key == Key::LowerL || key == Key::BracketRight || key == Key::Right || key
        == Key::PageDown {
        KeyAction::NextChapter
    } else if key == Key::Space {
        if shift {
            KeyAction::ScrollScreen(ScreenStep::NineTenthsUp)
        } else {
            KeyAction::ScrollScreen(ScreenStep::NineTenthsDown)
        }
    } else {
        KeyAction::Pass
    }
}

/// The action a key press asks for: `m` switches the layout; side by side,
/// `j`, `J`, `l`, Right and Page Down step to the next page and `k`, `K`,
/// `h`, Left and Page Up to the previous one; in the vertical strip the
/// movement keys scroll while held; any other key is a command. Only `o`,
/// `f` and `b` act with Control.
pub open spec fn key_action(key: Key, ctrl: bool, shift: bool, mode: ReadingMode) -> KeyAction {
    if !ctrl && (key == Key::LowerM || key == Key::UpperM) {
        KeyAction::ToggleReadingMode
    } else if mode == ReadingMode::ContinuousHorizontal && !ctrl && (key == Key::LowerJ || key
        == Key::UpperJ || key == Key::LowerL || key == Key::Right || key == Key::PageDown) {
        KeyAction::NextPage
    } else if mode == ReadingMode::ContinuousHorizontal && !ctrl && (key == Key::LowerK || key
        == Key::UpperK || key == Key::LowerH || key == Key::Left || key == Key::PageUp) {
        KeyAction::PrevPage
    } else if mode == ReadingMode::ContinuousVertical && vertical_scroll(key, ctrl, shift) is Some {
        KeyAction::HoldScroll(vertical_scroll(key, ctrl, shift).unwrap())
    } else {
        command_action(key, ctrl, shift)
    }
}

/// Side by side and without Control, `j`, `J`, `l`, Right and Page Down
/// step to the next page, and `k`, `K`, `h`, Left and Page Up to the
/// previous one, whether Shift is held or not; `m` switches the layout in
/// either layout.
pub proof fn lemma_side_by_side_paging(shift: bool)
    ensures
        key_action(Key::Right, false, shift, ReadingMode::ContinuousHorizontal) == KeyAction::NextPage,
        key_action(Key::PageDown, false, shift, ReadingMode::ContinuousHorizontal) == KeyAction::NextPage,
        key_action(Key::LowerJ, false, shift, ReadingMode::ContinuousHorizontal) == KeyAction::NextPage,
        key_action(Key::UpperJ, false, shift, ReadingMode::ContinuousHorizontal) == KeyAction::NextPage,
        key_action(Key::LowerL, false, shift, ReadingMode::ContinuousHorizontal) == KeyAction::NextPage,
        key_action(Key::Left, false, shift, ReadingMode::ContinuousHorizontal) == KeyAction::PrevPage,
        key_action(Key::PageUp, false, shift, ReadingMode::ContinuousHorizontal) == KeyAction::PrevPage,
        key_action(Key::LowerK, false, shift, ReadingMode::ContinuousHorizontal) == KeyAction::PrevPage,
        key_action(Key::UpperK, false, shift, ReadingMode::ContinuousHorizontal) == KeyAction::PrevPage,
        key_action(Key::LowerH, false, shift, ReadingMode::ContinuousHorizontal) == KeyAction::PrevPage,
        key_action(Key::LowerM, false, shift, ReadingMode::ContinuousHorizontal) == KeyAction::ToggleReadingMode,
        key_action(Key::LowerM, false, shift, ReadingMode::ContinuousVertical) == KeyAction::ToggleReadingMode,
{
}

/// In the vertical strip without Control, `j` and Down scroll down and `k`
/// and Up scroll up, fast with Shift; Right, Page Down, `l` and `]` go to
/// the next chapter and Left, Page Up, `h` and `[` to the previous one.
pub proof fn lemma_vertical_movement(shift: bool)
    ensures
        key_action(Key::LowerJ, false, shift, ReadingMode::ContinuousVertical) == KeyAction::HoldScroll(
            if shift {
                ScrollDir::FastDown
            } else {
                ScrollDir::FineDown
            },
        ),
        key_action(Key::Down, false, shift, ReadingMode::ContinuousVertical) == KeyAction::HoldScroll(
            if shift {
                ScrollDir::FastDown
            } else {
                ScrollDir::FineDown
            },
        ),
        key_action(Key::LowerK, false, shift, ReadingMode::ContinuousVertical) == KeyAction::HoldScroll(
            if shift {
                ScrollDir::FastUp
            } else {
                ScrollDir::FineUp
            },
        ),
        key_action(Key::Up, false, shift, ReadingMode::ContinuousVertical) == KeyAction::HoldScroll(
            if shift {
                ScrollDir::FastUp
            } else {
                ScrollDir::FineUp
            },
        ),
        key_action(Key::Right, false, shift, ReadingMode::ContinuousVertical) == KeyAction::NextChapter,
        key_action(Key::PageDown, false, shift, ReadingMode::ContinuousVertical) == KeyAction::NextChapter,
        key_action(Key::LowerL, false, shift, ReadingMode::ContinuousVertical) == KeyAction::NextChapter,
        key_action(Key::BracketRight, false, shift, ReadingMode::ContinuousVertical) == KeyAction::NextChapter,
        key_action(Key::Left, false, shift, ReadingMode::ContinuousVertical) == KeyAction::PrevChapter,
        key_action(Key::PageUp, false, shift, ReadingMode::ContinuousVertical) == KeyAction::PrevChapter,
        key_action(Key::LowerH, false, shift, ReadingMode::ContinuousVertical) == KeyAction::PrevChapter,
        key_action(Key::BracketLeft, false, shift, ReadingMode::ContinuousVertical) == KeyAction::PrevChapter,
{
}

fn vertical_scroll_exec(key: Key, ctrl: bool, shift: bool) -> (r: Option<ScrollDir>)
    ensures
        r == vertical_scroll(key, ctrl, shift),
{
    if ctrl {
        None
    } else if key == Key::UpperJ || (key == Key::Down && shift) || (key == Key::LowerJ && shift) {
        Some(ScrollDir::FastDown)
    } else if key == Key::LowerJ || key == Key::Down {
        Some(ScrollDir::FineDown)
    } else if key == Key::UpperK || (key == Key::Up && shift) || (key == Key::LowerK && shift) {
        Some(ScrollDir::FastUp)
    } else if key == Key::LowerK || key == Key::Up {
        Some(ScrollDir::FineUp)
    } else {
        None
    }
}

fn command_action_exec(key: Key, ctrl: bool, shift: bool) -> (a: KeyAction)
    ensures
        a == command_action(key, ctrl, shift),
{
    if ctrl && key == Key::LowerO {
        KeyAction::OpenFile
    } else if !ctrl && (key == Key::LowerQ || key == Key::UpperQ) {
        KeyAction::Quit
    } else if !ctrl && (key == Key::Question || (key == Key::Slash && shift)) {
        KeyAction::ShowShortcuts
    } else if !ctrl && (key == Key::LowerF || key == Key::UpperF) && !shift {
        KeyAction::ToggleFullscreen
    } else if ctrl && (key == Key::LowerF || key == Key::UpperF) {
        KeyAction::ScrollScreen(ScreenStep::NineTenthsDown)
    } else if ctrl && (key == Key::LowerB || key == Key::UpperB) {
        KeyAction::ScrollScreen(ScreenStep::NineTenthsUp)
    } else if key == Key::LowerD {
        KeyAction::ScrollScreen(ScreenStep::HalfDown)
    } else if key == Key::LowerU {
        KeyAction::ScrollScreen(ScreenStep::HalfUp)
    } else if key == Key::UpperG {
        KeyAction::JumpToEnd
    } else if key == Key::LowerG {
        KeyAction::PressG
    } else if key == Key::LowerH || key == Key::BracketLeft || key == Key::Left || key == Key::PageUp {
        KeyAction::PrevChapter
    } else if key == Key::LowerL || key == Key::BracketRight || key == Key::Right || key
        == Key::PageDown {
        KeyAction::NextChapter
    } else if key == Key::Space {
        if shift {
            KeyAction::ScrollScreen(ScreenStep::NineTenthsUp)
        } else {
            KeyAction::ScrollScreen(ScreenStep::NineTenthsDown)
        }
    } else {
        KeyAction::Pass
    }
}

/// The action a key press asks for, as `key_action` gives it.
pub fn decide_key(key: Key, ctrl: bool, shift: bool, mode: ReadingMode) -> (a: KeyAction)
    ensures
        a == key_action(key, ctrl, shift, mode),
{
    if !ctrl && (key == Key::LowerM || key == Key::UpperM) {
        return KeyAction::ToggleReadingMode;
    }
    if mode == ReadingMode::ContinuousHorizontal {
        if !ctrl && (key == Key::LowerJ || key == Key::UpperJ || key == Key::LowerL || key == Key::Right
            || key == Key::PageDown) {
            return KeyAction::NextPage;
        }
        if !ctrl && (key == Key::LowerK || key == Key::UpperK || key == Key::LowerH || key == Key::Left
            || key == Key::PageUp) {
            return KeyAction::PrevPage;
        }
    } else {
        match vertical_scroll_exec(key, ctrl, shift) {
            Some(d) => {
                return KeyAction::HoldScroll(d);
            },
            None => {},
        }
    }
    command_action_exec(key, ctrl, shift)
}

/// Whether releasing `key` stops held scrolling: `j`, `J`, `k`, `K`, Up and
/// Down do.
pub open spec fn stops_scrolling(key: Key) -> bool {
    key == Key::LowerJ || key == Key::UpperJ || key == Key::Down || key == Key::LowerK || key
        == Key::UpperK || key == Key::Up
}

/// Scrolling while a movement key is held: the direction held, and whether
/// the repeat timer runs.
pub struct HeldScroll {
    pub held: Option<ScrollDir>,
    pub repeating: bool,
}

impl HeldScroll {
    /// Nothing held.
    pub fn new() -> (h: HeldScroll)
        ensures
            h.held is None,
            !h.repeating,
    {
        HeldScroll { held: None, repeating: false }
    }

    /// A movement key is pressed: its direction is now held. Returns
    /// whether the repeat timer starts (with a first full step), which is
    /// when it was not running.
    pub fn press(&mut self, dir: ScrollDir) -> (start: bool)
        ensures
            final(self).held == Some(dir),
            final(self).repeating,
            start == !old(self).repeating,
    {
        self.held = Some(dir);
        if !self.repeating {
            self.repeating = true;
            true
        } else {
            false
        }
    }

    /// A tick of the repeat timer: the direction to scroll a step in while
    /// a key is held; when none is, the timer stops.
    pub fn tick(&mut self) -> (step: Option<ScrollDir>)
        ensures
            step == old(self).held,
            final(self).held == old(self).held,
            final(self).repeating == (old(self).repeating && old(self).held is Some),
    {
        match self.held {
            Some(d) => Some(d),
            None => {
                self.repeating = false;
                None
            },
        }
    }

    /// A key is released: held scrolling stops when it is a movement key.
    pub fn release(&mut self, key: Key)
        ensures
            final(self).held == (if stops_scrolling(key) {
                None
            } else {
                old(self).held
            }),
            final(self).repeating == old(self).repeating,
    {
        if key == Key::LowerJ || key == Key::UpperJ || key == Key::Down || key == Key::LowerK || key
            == Key::UpperK || key == Key::Up {
            self.held = None;
        }
    }
}

/// Longest time between two presses of `g` that makes them a double press,
/// in milliseconds (exclusive).
pub const DOUBLE_G_MS: u64 = 400;

/// The double press of `g`: when the last single press happened, in
/// milliseconds on a clock that only goes forward.
pub struct DoubleG {
    pub last_press_ms: Option<u64>,
}

impl DoubleG {
    /// No press yet.
    pub fn new() -> (d: DoubleG)
        ensures
            d.last_press_ms is None,
    {
        DoubleG { last_press_ms: None }
    }

    /// `g` is pressed at `now_ms`. Returns whether this completes a double
    /// press: the last press came less than 400 ms before. A double press
    /// is forgotten; a single one is remembered.
    pub fn press(&mut self, now_ms: u64) -> (double: bool)
        ensures
            double == (old(self).last_press_ms matches Some(t) && (if now_ms >= t {
                now_ms - t
            } else {
                0
            }) < DOUBLE_G_MS),
            final(self).last_press_ms == (if double {
                None
            } else {
                Some(now_ms)
            }),
    {
        let double = match self.last_press_ms {
            Some(t) => now_ms.saturating_sub(t) < DOUBLE_G_MS,
            None => false,
        };
        if double {
            self.last_press_ms = None;
        } else {
            self.last_press_ms = Some(now_ms);
        }
        double
    }
}

} // verus!
