//! The classifier: the state threaded through one pass and its transition.
use vstd::prelude::*;

verus! {

/// What a symbol is, as far as the layout is concerned.
#[derive(Clone, Copy, Debug, PartialEq, Eq, Structural)]
pub enum Class {
    /// `"`
    Quote,
    /// `\`
    Backslash,
    /// A space, a tab or a line feed.
    Blank,
    /// `{` or `[`
    Open,
    /// `}` or `]`
    Close,
    /// `:`
    Colon,
    /// `,`
    Comma,
    /// Anything else.
    Other,
}

/// The state of one formatting pass.
#[derive(Clone, Copy, Debug, PartialEq, Eq, Structural)]
pub struct FormatState {
    /// The previous symbol was an unescaped backslash inside a string.
    pub escaped: bool,
    /// The pass is inside a string literal.
    pub in_string: bool,
    /// The number of open brackets not yet closed, never below zero.
    pub indent_level: usize,
    /// The previous significant symbol was `{`, `[` or `,`: a line break is
    /// owed before the next significant symbol unless that one closes.
    pub newline_requested: bool,
}

/// What to write for one input symbol.
#[derive(Clone, Copy, Debug, PartialEq, Eq, Structural)]
pub struct Action {
    /// A line break followed by this many indentation units, written first.
    pub newline_indent: Option<usize>,
    /// Whether the symbol itself is written.
    pub keep: bool,
    /// Whether a space follows the symbol.
    pub space_after: bool,
}

pub open spec fn initial_state() -> FormatState {
    FormatState { escaped: false, in_string: false, indent_level: 0, newline_requested: false }
}

pub open spec fn copy_action() -> Action {
    Action { newline_indent: None, keep: true, space_after: false }
}

/// One transition of the classifier: the next state and what to write.
pub open spec fn step(s: FormatState, c: Class) -> (FormatState, Action) {
    if s.in_string {
        let closes = c == Class::Quote && !s.escaped;
        let escapes = c == Class::Backslash && !s.escaped;
        (FormatState { escaped: escapes, in_string: !closes, ..s }, copy_action())
    } else {
        match c {
            Class::Blank => (s, Action { newline_indent: None, keep: false, space_after: false }),
            Class::Close => {
                let level = if s.indent_level == 0 { 0 } else { (s.indent_level - 1) as usize };
                (
                    FormatState { indent_level: level, newline_requested: false, ..s },
                    Action {
                        newline_indent: if s.newline_requested { None } else { Some(level) },
                        keep: true,
                        space_after: false,
                    },
                )
            },
            _ => {
                let pending = if s.newline_requested { Some(s.indent_level) } else { None };
                let level = if c == Class::Open { (s.indent_level + 1) as usize } else { s.indent_level };
                (
                    FormatState {
                        in_string: c == Class::Quote,
                        indent_level: level,
                        newline_requested: c == Class::Open || c == Class::Comma,
                        ..s
                    },
                    Action { newline_indent: pending, keep: true, space_after: c == Class::Colon },
                )
            },
        }
    }
}

impl FormatState {
    /// The state at the start of a pass.
    pub fn new() -> (r: FormatState)
        ensures
            r == initial_state(),
    {
        FormatState { escaped: false, in_string: false, indent_level: 0, newline_requested: false }
    }

    /// Takes one symbol of the given class: updates the state and says what
    /// to write for it.
    pub fn advance(&mut self, c: Class) -> (a: Action)
        requires
            old(self).indent_level < usize::MAX,
        ensures
            (*final(self), a) == step(*old(self), c),
    {
        if self.in_string {
            let mut escapes = false;
            match c {
                Class::Quote => {
                    if !self.escaped {
                        self.in_string = false;
                    }
                },
                Class::Backslash => {
                    if !self.escaped {
                        escapes = true;
                    }
                },
                _ => {},
            }
            self.escaped = escapes;
            Action { newline_indent: None, keep: true, space_after: false }
        } else {
            match c {
                Class::Blank => Action { newline_indent: None, keep: false, space_after: false },
                Class::Close => {
                    self.indent_level = self.indent_level.saturating_sub(1);
                    let newline_indent = if self.newline_requested {
                        None
                    } else {
                        Some(self.indent_level)
                    };
                    self.newline_requested = false;
                    Action { newline_indent, keep: true, space_after: false }
                },
                _ => {
                    let newline_indent = if self.newline_requested {
                        Some(self.indent_level)
                    } else {
                        None
                    };
                    let mut request = false;
                    let mut space_after = false;
                    match c {
                        Class::Quote => {
                            self.in_string = true;
                        },
                        Class::Open => {
                            self.indent_level = self.indent_level + 1;
                            request = true;
                        },
                        Class::Comma => {
                            request = true;
                        },
                        Class::Colon => {
                            space_after = true;
                        },
                        _ => {},
                    }
                    self.newline_requested = request;
                    Action { newline_indent, keep: true, space_after }
                },
            }
        }
    }
}

} // verus!
