//! Keys, mouse events and the commands they stand for.

use vstd::prelude::*;

verus! {

#[derive(Debug, Clone, Copy, PartialEq, Eq, Structural)]
pub enum KeyCode {
    Char(char),
    Enter,
    Esc,
    Tab,
    Up,
    Down,
    Left,
    Right,
    Home,
    End,
    PageUp,
    PageDown,
    /// Any other key.
    Other,
}

#[derive(Debug, Clone, Copy, PartialEq, Eq, Structural)]
pub struct KeyModifiers {
    pub shift: bool,
    pub control: bool,
    pub alt: bool,
    pub meta: bool,
}

#[derive(Debug, Clone, Copy, PartialEq, Eq, Structural)]
pub struct KeyEvent {
    pub code: KeyCode,
    pub modifiers: KeyModifiers,
}

#[derive(Debug, Clone, Copy, PartialEq, Eq, Structural)]
pub enum MouseKind {
    ScrollUp,
    ScrollDown,
    /// The left button was pressed.
    LeftDown,
    /// Any other mouse event.
    Other,
}

#[derive(Debug, Clone, Copy, PartialEq, Eq, Structural)]
pub struct MouseEvent {
    pub kind: MouseKind,
    /// Screen row of the pointer.
    pub row: u16,
}

#[derive(Debug, Clone, Copy, PartialEq, Eq, Structural)]
pub enum Event {
    Key(KeyEvent),
    Mouse(MouseEvent),
    Resize,
    /// Any other event.
    Other,
}

/// How a file is opened in the editor.
#[derive(Debug, Clone, Copy, PartialEq, Eq, Structural)]
pub enum OpenAction {
    Replace,
    HorizontalSplit,
    VerticalSplit,
}

/// Where to go from the symbol under the cursor.
#[derive(Debug, Clone, Copy, PartialEq, Eq, Structural)]
pub enum GotoKind {
    Definition,
    References,
    TypeDefinition,
}

/// What a key, or a key after a prefix key, asks of the viewer.
#[derive(Debug, Clone, Copy, PartialEq, Eq, Structural)]
pub enum Command {
    Nothing,
    Close,
    Help,
    Down,
    Up,
    Left,
    Right,
    WordForward,
    WordBack,
    PageDown,
    PageUp,
    FirstRow,
    LastRow,
    LineStart,
    LineEnd,
    FirstNonBlank,
    /// Wait for the key after the prefix key.
    Prefix(char),
    NextFile,
    PreviousFile,
    NextHunk,
    PreviousHunk,
    /// Reveal more hidden lines.
    Expand,
    /// Reveal all hidden lines.
    ExpandAll,
    ToggleSplit,
    ToggleWhitespace,
    Reload,
    /// Fold or expand a header, open a line.
    Activate,
    /// Open the file at the cursor.
    Open(OpenAction),
    /// Open the file at the cursor and go on from there.
    Goto(GotoKind),
    ToggleFold,
    FoldAll,
    UnfoldAll,
    Center,
}

/// The command only moves the cursor or the view.
pub open spec fn is_motion(command: Command) -> bool {
    match command {
        Command::Down => true,
        Command::Up => true,
        Command::Left => true,
        Command::Right => true,
        Command::WordForward => true,
        Command::WordBack => true,
        Command::PageDown => true,
        Command::PageUp => true,
        Command::FirstRow => true,
        Command::LastRow => true,
        Command::LineStart => true,
        Command::LineEnd => true,
        Command::FirstNonBlank => true,
        Command::NextFile => true,
        Command::PreviousFile => true,
        Command::NextHunk => true,
        Command::PreviousHunk => true,
        Command::Center => true,
        _ => false,
    }
}

pub open spec fn no_modifiers() -> KeyModifiers {
    KeyModifiers { shift: false, control: false, alt: false, meta: false }
}

/// The key event of a key pressed alone.
pub open spec fn plain(code: KeyCode) -> KeyEvent {
    KeyEvent { code, modifiers: no_modifiers() }
}

/// The key event of a character key pressed with Control only.
pub open spec fn control(c: char) -> KeyEvent {
    KeyEvent {
        code: KeyCode::Char(c),
        modifiers: KeyModifiers { control: true, ..no_modifiers() },
    }
}

/// Uppercase characters may arrive with an explicit Shift depending on the
/// terminal: for character keys it does not count.
pub open spec fn normalized(key: KeyEvent) -> KeyEvent {
    if key.code is Char {
        KeyEvent { modifiers: KeyModifiers { shift: false, ..key.modifiers }, ..key }
    } else {
        key
    }
}

/// The command of a character key pressed alone.
pub open spec fn char_command(c: char) -> Command {
    match c {
        'q' => Command::Close,
        '?' => Command::Help,
        'j' => Command::Down,
        'k' => Command::Up,
        'h' => Command::Left,
        'l' => Command::Right,
        'w' => Command::WordForward,
        'b' => Command::WordBack,
        'G' => Command::LastRow,
        'g' => Command::Prefix('g'),
        'z' => Command::Prefix('z'),
        ']' => Command::Prefix(']'),
        '[' => Command::Prefix('['),
        'n' => Command::NextHunk,
        'p' => Command::PreviousHunk,
        '+' => Command::Expand,
        '=' => Command::ExpandAll,
        's' => Command::ToggleSplit,
        'W' => Command::ToggleWhitespace,
        'r' => Command::Reload,
        _ => Command::Nothing,
    }
}

/// The command of a character key pressed with Control.
pub open spec fn control_command(c: char) -> Command {
    match c {
        'c' => Command::Close,
        'd' => Command::PageDown,
        'u' => Command::PageUp,
        's' => Command::Open(OpenAction::HorizontalSplit),
        'v' => Command::Open(OpenAction::VerticalSplit),
        _ => Command::Nothing,
    }
}

/// The command of a named key pressed alone.
pub open spec fn named_command(code: KeyCode) -> Command {
    match code {
        KeyCode::Esc => Command::Close,
        KeyCode::Down => Command::Down,
        KeyCode::Up => Command::Up,
        KeyCode::Left => Command::Left,
        KeyCode::Right => Command::Right,
        KeyCode::PageDown => Command::PageDown,
        KeyCode::PageUp => Command::PageUp,
        KeyCode::End => Command::LastRow,
        KeyCode::Home => Command::FirstRow,
        KeyCode::Tab => Command::NextFile,
        KeyCode::Enter => Command::Activate,
        _ => Command::Nothing,
    }
}

/// The command of a (normalized) key with no prefix key before it.
pub open spec fn key_command(key: KeyEvent) -> Command {
    match key.code {
        KeyCode::Char(c) => if key.modifiers == no_modifiers() {
            char_command(c)
        } else if key == control(c) {
            control_command(c)
        } else {
            Command::Nothing
        },
        code => if key.modifiers == no_modifiers() {
            named_command(code)
        } else if code is Tab && key.modifiers == (KeyModifiers { shift: true, ..no_modifiers() }) {
            Command::PreviousFile
        } else {
            Command::Nothing
        },
    }
}

/// The command of a character after a prefix key.
pub open spec fn prefixed_char_command(prefix: char, c: char) -> Command {
    match (prefix, c) {
        ('g', 'g') => Command::FirstRow,
        ('g', 'e') => Command::LastRow,
        ('g', 'h') => Command::LineStart,
        ('g', 'l') => Command::LineEnd,
        ('g', 's') => Command::FirstNonBlank,
        ('g', 'd') => Command::Goto(GotoKind::Definition),
        ('g', 'r') => Command::Goto(GotoKind::References),
        ('g', 'y') => Command::Goto(GotoKind::TypeDefinition),
        ('z', 'a') => Command::ToggleFold,
        ('z', 'M') => Command::FoldAll,
        ('z', 'R') => Command::UnfoldAll,
        ('z', 'z') => Command::Center,
        (']', 'c') => Command::NextHunk,
        ('[', 'c') => Command::PreviousHunk,
        (']', 'f') => Command::NextFile,
        ('[', 'f') => Command::PreviousFile,
        _ => Command::Nothing,
    }
}

/// The command of a (normalized) key after a prefix key.
pub open spec fn prefixed_command(prefix: char, key: KeyEvent) -> Command {
    match key.code {
        KeyCode::Char(c) => if key.modifiers == no_modifiers() {
            prefixed_char_command(prefix, c)
        } else {
            Command::Nothing
        },
        _ => Command::Nothing,
    }
}

fn is_plain(modifiers: KeyModifiers) -> (r: bool)
    ensures
        r == (modifiers == no_modifiers()),
{
    !modifiers.shift && !modifiers.control && !modifiers.alt && !modifiers.meta
}

/// Drops Shift from character keys.
pub fn normalize(key: KeyEvent) -> (r: KeyEvent)
    ensures
        r == normalized(key),
{
    let mut r = key;
    if let KeyCode::Char(_) = key.code {
        r.modifiers.shift = false;
    }
    r
}

fn command_for_char(c: char) -> (r: Command)
    ensures
        r == char_command(c),
{
    match c {
        'q' => Command::Close,
        '?' => Command::Help,
        'j' => Command::Down,
        'k' => Command::Up,
        'h' => Command::Left,
        'l' => Command::Right,
        'w' => Command::WordForward,
        'b' => Command::WordBack,
        'G' => Command::LastRow,
        'g' | 'z' | ']' | '[' => Command::Prefix(c),
        'n' => Command::NextHunk,
        'p' => Command::PreviousHunk,
        '+' => Command::Expand,
        '=' => Command::ExpandAll,
        's' => Command::ToggleSplit,
        'W' => Command::ToggleWhitespace,
        'r' => Command::Reload,
        _ => Command::Nothing,
    }
}

/// The command of a (normalized) key with no prefix key before it.
pub fn command_for_key(key: KeyEvent) -> (r: Command)
    ensures
        r == key_command(key),
{
    let m = key.modifiers;
    match key.code {
        KeyCode::Char(c) => {
            if is_plain(m) {
                command_for_char(c)
            } else if m.control && !m.shift && !m.alt && !m.meta {
                match c {
                    'c' => Command::Close,
                    'd' => Command::PageDown,
                    'u' => Command::PageUp,
                    's' => Command::Open(OpenAction::HorizontalSplit),
                    'v' => Command::Open(OpenAction::VerticalSplit),
                    _ => Command::Nothing,
                }
            } else {
                Command::Nothing
            }
        },
        KeyCode::Tab if m.shift && !m.control && !m.alt && !m.meta => Command::PreviousFile,
        code => {
            if !is_plain(m) {
                return Command::Nothing;
            }
            match code {
                KeyCode::Esc => Command::Close,
                KeyCode::Down => Command::Down,
                KeyCode::Up => Command::Up,
                KeyCode::Left => Command::Left,
                KeyCode::Right => Command::Right,
                KeyCode::PageDown => Command::PageDown,
                KeyCode::PageUp => Command::PageUp,
                KeyCode::End => Command::LastRow,
                KeyCode::Home => Command::FirstRow,
                KeyCode::Tab => Command::NextFile,
                KeyCode::Enter => Command::Activate,
                _ => Command::Nothing,
            }
        },
    }
}

/// The command of a (normalized) key after a prefix key.
pub fn command_after_prefix(prefix: char, key: KeyEvent) -> (r: Command)
    ensures
        r == prefixed_command(prefix, key),
{
    if !is_plain(key.modifiers) {
        return Command::Nothing;
    }
    match key.code {
        KeyCode::Char(c) => match (prefix, c) {
            ('g', 'g') => Command::FirstRow,
            ('g', 'e') => Command::LastRow,
            ('g', 'h') => Command::LineStart,
            ('g', 'l') => Command::LineEnd,
            ('g', 's') => Command::FirstNonBlank,
            ('g', 'd') => Command::Goto(GotoKind::Definition),
            ('g', 'r') => Command::Goto(GotoKind::References),
            ('g', 'y') => Command::Goto(GotoKind::TypeDefinition),
            ('z', 'a') => Command::ToggleFold,
            ('z', 'M') => Command::FoldAll,
            ('z', 'R') => Command::UnfoldAll,
            ('z', 'z') => Command::Center,
            (']', 'c') => Command::NextHunk,
            ('[', 'c') => Command::PreviousHunk,
            (']', 'f') => Command::NextFile,
            ('[', 'f') => Command::PreviousFile,
            _ => Command::Nothing,
        },
        _ => Command::Nothing,
    }
}

/// Shift makes no difference on character keys, and only there: Shift-Tab is
/// another command than Tab.
pub proof fn law_shift_is_ignored_on_characters(c: char, control: bool, alt: bool, meta: bool)
    ensures
        ({
            let bare = KeyEvent {
                code: KeyCode::Char(c),
                modifiers: KeyModifiers { shift: false, control, alt, meta },
            };
            let shifted = KeyEvent {
                code: KeyCode::Char(c),
                modifiers: KeyModifiers { shift: true, control, alt, meta },
            };
            normalized(shifted) == normalized(bare) && normalized(bare) == bare
        }),
        ({
            let tab = plain(KeyCode::Tab);
            let shifted = KeyEvent {
                code: KeyCode::Tab,
                modifiers: KeyModifiers { shift: true, ..no_modifiers() },
            };
            key_command(normalized(tab)) is NextFile && key_command(
                normalized(shifted),
            ) is PreviousFile
        }),
{
}

} // verus!
