//! The whole pass as a function of its input, over any kind of symbol.
use vstd::prelude::*;
use crate::state::{step, initial_state, Action, Class, FormatState};

verus! {

/// A kind of symbol the pass can read and write (bytes or characters).
pub trait Symbol: Sized {
    spec fn sym_class(self) -> Class;

    /// The line feed.
    spec fn newline() -> Self;

    /// The space.
    spec fn space() -> Self;

    proof fn lemma_blanks()
        ensures
            Self::newline().sym_class() == Class::Blank,
            Self::space().sym_class() == Class::Blank,
    ;
}

pub open spec fn byte_class(b: u8) -> Class {
    if b == 34 {
        Class::Quote
    } else if b == 92 {
        Class::Backslash
    } else if b == 32 || b == 9 || b == 10 {
        Class::Blank
    } else if b == 123 || b == 91 {
        Class::Open
    } else if b == 125 || b == 93 {
        Class::Close
    } else if b == 58 {
        Class::Colon
    } else if b == 44 {
        Class::Comma
    } else {
        Class::Other
    }
}

/// A character below 128 is classed as the byte of the same value; any
/// other character is `Other`.
pub open spec fn char_class(c: char) -> Class {
    if (c as u32) < 128 {
        byte_class((c as u32) as u8)
    } else {
        Class::Other
    }
}

impl Symbol for u8 {
    open spec fn sym_class(self) -> Class {
        byte_class(self)
    }

    open spec fn newline() -> u8 {
        10
    }

    open spec fn space() -> u8 {
        32
    }

    proof fn lemma_blanks() {
    }
}

impl Symbol for char {
    open spec fn sym_class(self) -> Class {
        char_class(self)
    }

    open spec fn newline() -> char {
        '\n'
    }

    open spec fn space() -> char {
        ' '
    }

    proof fn lemma_blanks() {
    }
}

/// `unit` written `n` times.
pub open spec fn repeat<T>(unit: Seq<T>, n: nat) -> Seq<T>
    decreases n,
{
    if n == 0 {
        Seq::empty()
    } else {
        repeat(unit, (n - 1) as nat) + unit
    }
}

/// What an action writes for the symbol `x`.
pub open spec fn render<T: Symbol>(a: Action, x: T, unit: Seq<T>) -> Seq<T> {
    let head = match a.newline_indent {
        Some(l) => seq![T::newline()] + repeat(unit, l as nat),
        None => Seq::empty(),
    };
    let mid = if a.keep { seq![x] } else { Seq::empty() };
    let tail = if a.space_after { seq![T::space()] } else { Seq::empty() };
    head + mid + tail
}

/// The state after reading `x` from `s`.
pub open spec fn run_from<T: Symbol>(s: FormatState, x: Seq<T>) -> FormatState
    decreases x.len(),
{
    if x.len() == 0 {
        s
    } else {
        step(run_from(s, x.drop_last()), x.last().sym_class()).0
    }
}

/// What is written while reading `x` from `s`.
pub open spec fn output_from<T: Symbol>(s: FormatState, x: Seq<T>, unit: Seq<T>) -> Seq<T>
    decreases x.len(),
{
    if x.len() == 0 {
        Seq::empty()
    } else {
        let before = run_from(s, x.drop_last());
        output_from(s, x.drop_last(), unit) + render(step(before, x.last().sym_class()).1, x.last(), unit)
    }
}

/// The state after a whole pass over `x`.
pub open spec fn run<T: Symbol>(x: Seq<T>) -> FormatState {
    run_from(initial_state(), x)
}

/// The formatted form of `x`, each indentation level written as `unit`.
pub open spec fn formatted<T: Symbol>(x: Seq<T>, unit: Seq<T>) -> Seq<T> {
    output_from(initial_state(), x, unit)
}

/// The largest indentation level that reading `x` from `s` can reach.
pub proof fn lemma_level_bound<T: Symbol>(s: FormatState, x: Seq<T>)
    ensures
        run_from(s, x).indent_level <= s.indent_level + x.len(),
    decreases x.len(),
{
    if x.len() > 0 {
        lemma_level_bound(s, x.drop_last());
    }
}

} // verus!
