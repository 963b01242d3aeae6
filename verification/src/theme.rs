//! The styles that the viewer is drawn in, by the theme scopes they come from.

use crate::align::OpKind;
use vstd::prelude::*;

verus! {

/// A style of the viewer.
#[derive(Debug, Clone, Copy, PartialEq, Eq, Structural)]
pub enum Role {
    Text,
    Dim,
    LineNumber,
    Plus,
    Minus,
    FileHeader,
    HunkHeader,
    Statusline,
    Cursorline,
    Cursor,
    Separator,
    Popup,
}

/// A modifier that is added to a style of the theme.
#[derive(Debug, Clone, Copy, PartialEq, Eq, Structural)]
pub enum Emphasis {
    Bold,
    Dim,
    Reversed,
}

/// What stands in for a scope that the theme does not have.
#[derive(Debug, Clone, Copy, PartialEq, Eq, Structural)]
pub enum Otherwise {
    /// What the theme gives for it.
    AsTheThemeSays,
    /// The style of comments.
    Comment,
    /// Reversed colours.
    Reversed,
}

impl Role {
    pub open spec fn scope_text(self) -> Seq<char> {
        match self {
            Role::Text => "ui.text"@,
            Role::Dim => "ui.text.inactive"@,
            Role::LineNumber => "ui.linenr"@,
            Role::Plus => "diff.plus"@,
            Role::Minus => "diff.minus"@,
            Role::FileHeader => "ui.statusline"@,
            Role::HunkHeader => "diff.delta"@,
            Role::Statusline => "ui.statusline"@,
            Role::Cursorline => "ui.cursorline.primary"@,
            Role::Cursor => "ui.cursor"@,
            Role::Separator => "ui.window"@,
            Role::Popup => "ui.popup"@,
        }
    }

    /// The theme scope of the style.
    pub fn scope(self) -> (r: &'static str)
        ensures
            r@ == self.scope_text(),
    {
        match self {
            Role::Text => "ui.text",
            Role::Dim => "ui.text.inactive",
            Role::LineNumber => "ui.linenr",
            Role::Plus => "diff.plus",
            Role::Minus => "diff.minus",
            Role::FileHeader => "ui.statusline",
            Role::HunkHeader => "diff.delta",
            Role::Statusline => "ui.statusline",
            Role::Cursorline => "ui.cursorline.primary",
            Role::Cursor => "ui.cursor",
            Role::Separator => "ui.window",
            Role::Popup => "ui.popup",
        }
    }

    /// The modifier that is added to the theme's style.
    pub fn emphasis(self) -> (r: Option<Emphasis>)
        ensures
            r == match self {
                Role::FileHeader => Some(Emphasis::Bold),
                Role::HunkHeader => Some(Emphasis::Dim),
                _ => None,
            },
    {
        match self {
            Role::FileHeader => Some(Emphasis::Bold),
            Role::HunkHeader => Some(Emphasis::Dim),
            _ => None,
        }
    }

    /// What stands in for the scope if the theme lacks it.
    pub fn otherwise(self) -> (r: Otherwise)
        ensures
            r == match self {
                Role::Dim => Otherwise::Comment,
                Role::Cursor => Otherwise::Reversed,
                _ => Otherwise::AsTheThemeSays,
            },
    {
        match self {
            Role::Dim => Otherwise::Comment,
            Role::Cursor => Otherwise::Reversed,
            _ => Otherwise::AsTheThemeSays,
        }
    }
}

/// The marker of a diff line.
pub open spec fn marker(kind: OpKind) -> char {
    match kind {
        OpKind::Context => ' ',
        OpKind::Removed => '-',
        OpKind::Added => '+',
    }
}

/// The style of a diff line.
pub open spec fn line_role(kind: OpKind) -> Role {
    match kind {
        OpKind::Context => Role::Text,
        OpKind::Removed => Role::Minus,
        OpKind::Added => Role::Plus,
    }
}

/// The style of the gutter of a diff line.
pub open spec fn gutter_role(kind: OpKind) -> Role {
    match kind {
        OpKind::Context => Role::LineNumber,
        _ => line_role(kind),
    }
}

/// The marker of a diff line, and its style.
pub fn line_style(kind: OpKind) -> (r: (char, Role))
    ensures
        r == (marker(kind), line_role(kind)),
{
    match kind {
        OpKind::Context => (' ', Role::Text),
        OpKind::Removed => ('-', Role::Minus),
        OpKind::Added => ('+', Role::Plus),
    }
}

} // verus!
