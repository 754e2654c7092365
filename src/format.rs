//! Formatting whole inputs, and one byte at a time for callers that stream.
use vstd::prelude::*;
use vstd::string::*;
use vstd::utf8::encode_utf8;
use crate::text::{law_chars_match_bytes, lemma_unit_encoding};
use vstd::std_specs::iter::IteratorSpec;
use crate::model::{Symbol, byte_class, char_class, formatted, lemma_level_bound, render, repeat, run};
use crate::state::{Action, Class, FormatState, initial_state};

verus! {

/// The text written once per indentation level.
///
/// Anything can be used, though only spaces and tabs make sense.
#[derive(Debug, Copy, Clone, Eq, PartialEq, Hash)]
pub enum Indentation<'a> {
    /// Two spaces.
    Default,
    /// The given text.
    Custom(&'a str),
}

/// The indentation unit as bytes.
pub open spec fn unit_bytes(indentation: Indentation) -> Seq<u8> {
    match indentation {
        Indentation::Default => seq![32u8, 32u8],
        Indentation::Custom(s) => s.spec_bytes(),
    }
}

/// The indentation unit as characters.
pub open spec fn unit_chars(indentation: Indentation) -> Seq<char> {
    match indentation {
        Indentation::Default => seq![' ', ' '],
        Indentation::Custom(s) => s@,
    }
}

/// The characters of `s`, in order.
fn chars_of(s: &str) -> (r: Vec<char>)
    ensures
        r@ == s@,
{
    broadcast use vstd::string::axiom_spec_iter, vstd::string::next_postcondition;

    let mut it = s.chars();
    let mut v: Vec<char> = Vec::new();
    loop
        invariant
            v@ + it.remaining() == s@,
            it.decrease() is Some,
        ensures
            v@ == s@,
        decreases it.decrease()->0,
    {
        let ghost before = it.remaining();
        match it.next() {
            Some(c) => {
                proof {
                    assert(v@.push(c) + it.remaining() =~= v@ + before);
                }
                v.push(c);
            },
            None => {
                assert(v@ + before =~= v@);
                break;
            },
        }
    }
    v
}

/// Relies on `String`'s `FromIterator<char>`: the string made of the characters
/// of `v`, in order.
#[verifier::external_body]
fn string_of(v: Vec<char>) -> (r: String)
    ensures
        r@ == v@,
{
    String::from_iter(v)
}

pub fn class_of_byte(b: u8) -> (c: Class)
    ensures
        c == byte_class(b),
{
    if b == 34 {
        Class::Quote
    } else if b == 92 {
        Class::Backslash
    } else if b == 32 || b == 9 || b == 10 {
        Class::Blank
    } else if b == 123 || b == 91 {
        Class::Open
    } else if b == 125 || b == 93 {
        Class::Close
    } else if b == 58 {
        Class::Colon
    } else if b == 44 {
        Class::Comma
    } else {
        Class::Other
    }
}

pub fn class_of_char(ch: char) -> (c: Class)
    ensures
        c == char_class(ch),
{
    let code = ch as u32;
    if code < 128 {
        class_of_byte(code as u8)
    } else {
        Class::Other
    }
}

/// Appends `unit` to `out` `n` times.
fn push_repeat<T: Copy>(unit: &[T], n: usize, out: &mut Vec<T>)
    ensures
        final(out)@ == old(out)@ + repeat(unit@, n as nat),
{
    let mut k: usize = 0;
    while k < n
        invariant
            k <= n,
            out@ == old(out)@ + repeat(unit@, k as nat),
        decreases n - k,
    {
        let ghost base = out@;
        let mut j: usize = 0;
        while j < unit.len()
            invariant
                j <= unit@.len(),
                out@ == base + unit@.subrange(0, j as int),
            decreases unit@.len() - j,
        {
            out.push(unit[j]);
            proof {
                assert(unit@.subrange(0, j + 1) =~= unit@.subrange(0, j as int).push(unit@[j as int]));
            }
            j = j + 1;
        }
        proof {
            assert(unit@.subrange(0, unit@.len() as int) =~= unit@);
            assert(repeat(unit@, (k + 1) as nat) == repeat(unit@, k as nat) + unit@);
        }
        k = k + 1;
    }
}

/// Appends to `out` what `a` writes for the symbol `x`.
fn write_action<T: Symbol + Copy>(a: Action, x: T, unit: &[T], newline: T, space: T, out: &mut Vec<T>)
    requires
        newline == T::newline(),
        space == T::space(),
    ensures
        final(out)@ == old(out)@ + render(a, x, unit@),
{
    if let Some(level) = a.newline_indent {
        out.push(newline);
        push_repeat(unit, level, out);
    }
    if a.keep {
        out.push(x);
    }
    if a.space_after {
        out.push(space);
    }
    assert(out@ =~= old(out)@ + render(a, x, unit@));
}

/// Reads one byte: updates `state` and appends what is written for it to
/// `out`, each indentation level written as `unit`.
pub fn format_byte(state: &mut FormatState, b: u8, unit: &[u8], out: &mut Vec<u8>)
    requires
        old(state).indent_level < usize::MAX,
    ensures
        *final(state) == crate::state::step(*old(state), byte_class(b)).0,
        final(out)@ == old(out)@ + render(crate::state::step(*old(state), byte_class(b)).1, b, unit@),
{
    let a = state.advance(class_of_byte(b));
    write_action(a, b, unit, 10u8, 32u8, out);
}

/// The indentation unit as bytes.
pub fn indentation_bytes(indentation: Indentation) -> (r: Vec<u8>)
    ensures
        r@ == unit_bytes(indentation),
{
    match indentation {
        Indentation::Default => vec![32u8, 32u8],
        Indentation::Custom(s) => s.as_bytes_vec(),
    }
}

/// Formats a whole byte sequence.
pub fn format_bytes(input: &[u8], indentation: Indentation) -> (r: Vec<u8>)
    ensures
        r@ == formatted(input@, unit_bytes(indentation)),
{
    let unit = indentation_bytes(indentation);
    let mut state = FormatState::new();
    let mut out: Vec<u8> = Vec::new();
    let mut i: usize = 0;
    while i < input.len()
        invariant
            i <= input@.len(),
            unit@ == unit_bytes(indentation),
            state == run(input@.subrange(0, i as int)),
            out@ == formatted(input@.subrange(0, i as int), unit@),
        decreases input@.len() - i,
    {
        proof {
            lemma_level_bound(initial_state(), input@.subrange(0, i as int));
            assert(input@.subrange(0, i + 1).drop_last() =~= input@.subrange(0, i as int));
        }
        format_byte(&mut state, input[i], unit.as_slice(), &mut out);
        i = i + 1;
    }
    assert(input@.subrange(0, input@.len() as int) =~= input@);
    out
}

/// Formats a JSON text.
///
/// The text is read character by character; its UTF-8 encoding is the byte
/// pass over the encoding of `json`.
pub fn format_json(json: &str, indentation: Indentation) -> (r: String)
    ensures
        r@ == formatted(json@, unit_chars(indentation)),
        encode_utf8(r@) == formatted(json.spec_bytes(), unit_bytes(indentation)),
{
    let input = chars_of(json);
    let unit = match indentation {
        Indentation::Default => vec![' ', ' '],
        Indentation::Custom(s) => chars_of(s),
    };
    let mut state = FormatState::new();
    let mut out: Vec<char> = Vec::new();
    let mut i: usize = 0;
    while i < input.len()
        invariant
            i <= input@.len(),
            input@ == json@,
            unit@ == unit_chars(indentation),
            state == run(input@.subrange(0, i as int)),
            out@ == formatted(input@.subrange(0, i as int), unit@),
        decreases input@.len() - i,
    {
        proof {
            lemma_level_bound(initial_state(), input@.subrange(0, i as int));
            assert(input@.subrange(0, i + 1).drop_last() =~= input@.subrange(0, i as int));
        }
        let ch = input[i];
        let a = state.advance(class_of_char(ch));
        write_action(a, ch, unit.as_slice(), '\n', ' ', &mut out);
        i = i + 1;
    }
    assert(input@.subrange(0, input@.len() as int) =~= input@);
    proof {
        law_chars_match_bytes(json@, unit_chars(indentation));
        lemma_unit_encoding(indentation);
    }
    string_of(out)
}

} // verus!
