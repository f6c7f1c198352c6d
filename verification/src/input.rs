//! Key presses, mouse events and screen areas, as the panel sees them.

use vstd::prelude::*;

verus! {

/// An area of the screen.
#[derive(Debug, Clone, Copy, PartialEq, Eq, Structural)]
pub struct Rect {
    pub x: u16,
    pub y: u16,
    pub width: u16,
    pub height: u16,
}

impl Rect {
    /// The cell at the given column and row lies in the area.
    pub open spec fn contains(self, column: u16, row: u16) -> bool {
        &&& self.x <= column < self.x + self.width
        &&& self.y <= row < self.y + self.height
    }

    /// The area's right and bottom edges are on the grid of cells.
    pub open spec fn on_grid(self) -> bool {
        &&& self.x + self.width <= u16::MAX
        &&& self.y + self.height <= u16::MAX
    }
}

/// The keys that mean something to the panel; `Other` is every other key.
#[derive(Debug, Clone, Copy, PartialEq, Eq, Structural)]
pub enum KeyCode {
    Char(char),
    Esc,
    Enter,
    Up,
    Down,
    Left,
    Right,
    PageUp,
    PageDown,
    Other,
}

/// The modifier keys held during a key press.
#[derive(Debug, Clone, Copy, PartialEq, Eq, Structural)]
pub struct KeyModifiers {
    pub shift: bool,
    pub control: bool,
    pub alt: bool,
    pub logo: bool,
}

impl KeyModifiers {
    pub open spec fn none() -> KeyModifiers {
        KeyModifiers { shift: false, control: false, alt: false, logo: false }
    }

    pub open spec fn control_only() -> KeyModifiers {
        KeyModifiers { shift: false, control: true, alt: false, logo: false }
    }

    /// Whether no modifier is held.
    pub fn is_empty(&self) -> (res: bool)
        ensures
            res == (*self == KeyModifiers::none()),
    {
        !self.shift && !self.control && !self.alt && !self.logo
    }

    /// Whether control is held, and nothing else.
    pub fn is_control(&self) -> (res: bool)
        ensures
            res == (*self == KeyModifiers::control_only()),
    {
        self.control && !self.shift && !self.alt && !self.logo
    }
}

/// A key press.
#[derive(Debug, Clone, Copy, PartialEq, Eq, Structural)]
pub struct KeyEvent {
    pub code: KeyCode,
    pub modifiers: KeyModifiers,
}

impl KeyEvent {
    /// The character typed, where the key is one and no modifier is held.
    pub open spec fn typed(self) -> Option<char> {
        match self.code {
            KeyCode::Char(ch) => if self.modifiers == KeyModifiers::none() {
                Some(ch)
            } else {
                None
            },
            _ => None,
        }
    }

    pub fn typed_char(&self) -> (res: Option<char>)
        ensures
            res == self.typed(),
    {
        match self.code {
            KeyCode::Char(ch) => {
                if self.modifiers.is_empty() {
                    Some(ch)
                } else {
                    None
                }
            },
            _ => None,
        }
    }
}

/// What a key press asks of the focused panel while no key sequence is open.
#[derive(Debug, Clone, Copy, PartialEq, Eq, Structural)]
pub enum Command {
    Unfocus,
    SelectNext,
    SelectPrevious,
    Activate,
    Narrow,
    Widen,
    Collapse,
    CollapseParent,
    StartGoto,
    HalfPageDown,
    HalfPageUp,
    PageDown,
    PageUp,
    /// Keys without a meaning are swallowed.
    Swallow,
}

/// The command bound to a key.
pub open spec fn command_of(event: KeyEvent) -> Command {
    if event.modifiers == KeyModifiers::none() {
        match event.code {
            KeyCode::Esc => Command::Unfocus,
            KeyCode::Down => Command::SelectNext,
            KeyCode::Up => Command::SelectPrevious,
            KeyCode::Enter => Command::Activate,
            KeyCode::Right => Command::Activate,
            KeyCode::Left => Command::Collapse,
            KeyCode::PageDown => Command::PageDown,
            KeyCode::PageUp => Command::PageUp,
            KeyCode::Char(ch) => if ch == 'j' {
                Command::SelectNext
            } else if ch == 'k' {
                Command::SelectPrevious
            } else if ch == 'l' {
                Command::Activate
            } else if ch == '<' {
                Command::Narrow
            } else if ch == '>' {
                Command::Widen
            } else if ch == 'h' {
                Command::Collapse
            } else if ch == 'H' {
                Command::CollapseParent
            } else if ch == 'g' {
                Command::StartGoto
            } else {
                Command::Swallow
            },
            KeyCode::Other => Command::Swallow,
        }
    } else if event.modifiers == KeyModifiers::control_only() {
        if event.code == KeyCode::Char('d') {
            Command::HalfPageDown
        } else if event.code == KeyCode::Char('u') {
            Command::HalfPageUp
        } else {
            Command::Swallow
        }
    } else {
        Command::Swallow
    }
}

impl Command {
    /// The command bound to a key.
    pub fn of(event: &KeyEvent) -> (res: Command)
        ensures
            res == command_of(*event),
    {
        if event.modifiers.is_empty() {
            match event.code {
                KeyCode::Esc => Command::Unfocus,
                KeyCode::Char('j') | KeyCode::Down => Command::SelectNext,
                KeyCode::Char('k') | KeyCode::Up => Command::SelectPrevious,
                KeyCode::Enter | KeyCode::Char('l') | KeyCode::Right => Command::Activate,
                KeyCode::Char('<') => Command::Narrow,
                KeyCode::Char('>') => Command::Widen,
                KeyCode::Char('h') | KeyCode::Left => Command::Collapse,
                KeyCode::Char('H') => Command::CollapseParent,
                KeyCode::Char('g') => Command::StartGoto,
                KeyCode::PageDown => Command::PageDown,
                KeyCode::PageUp => Command::PageUp,
                _ => Command::Swallow,
            }
        } else if event.modifiers.is_control() {
            match event.code {
                KeyCode::Char('d') => Command::HalfPageDown,
                KeyCode::Char('u') => Command::HalfPageUp,
                _ => Command::Swallow,
            }
        } else {
            Command::Swallow
        }
    }
}

#[derive(Debug, Clone, Copy, PartialEq, Eq, Structural)]
pub enum MouseButton {
    Left,
    Right,
    Middle,
}

#[derive(Debug, Clone, Copy, PartialEq, Eq, Structural)]
pub enum MouseEventKind {
    Down(MouseButton),
    Up(MouseButton),
    Drag(MouseButton),
    Moved,
    ScrollDown,
    ScrollUp,
    ScrollLeft,
    ScrollRight,
}

/// A mouse event, and the cell that it happened at.
#[derive(Debug, Clone, Copy, PartialEq, Eq, Structural)]
pub struct MouseEvent {
    pub kind: MouseEventKind,
    pub column: u16,
    pub row: u16,
}

/// Whether an event inside the panel was put to use.
#[derive(Debug, Clone, Copy, PartialEq, Eq, Structural)]
pub enum EventResult {
    Ignored,
    Consumed,
}

} // verus!
