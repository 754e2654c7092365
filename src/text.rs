//! Characters and their UTF-8 bytes: formatting a text character by
//! character writes the same bytes as formatting its encoding byte by byte,
//! since only ASCII symbols are ever inspected.
use vstd::prelude::*;
use vstd::utf8::*;
use crate::model::{Symbol, byte_class, char_class, formatted, output_from, render, repeat, run, run_from};
use crate::state::{step, copy_action, initial_state, Class, FormatState};
use crate::laws::lemma_concat;
use crate::format::{unit_bytes, unit_chars, Indentation};

verus! {

broadcast use char_is_scalar;

/// Encoding a concatenation is concatenating the encodings.
pub proof fn lemma_encode_concat(a: Seq<char>, b: Seq<char>)
    ensures
        encode_utf8(a + b) == encode_utf8(a) + encode_utf8(b),
    decreases a.len(),
{
    if a.len() == 0 {
        assert(a + b =~= b);
        assert(encode_utf8(a) + encode_utf8(b) =~= encode_utf8(b));
    } else {
        lemma_encode_concat(a.drop_first(), b);
        assert((a + b).drop_first() =~= a.drop_first() + b);
        assert((a + b)[0] == a[0]);
        assert(encode_utf8(a + b) =~= encode_utf8(a) + encode_utf8(b));
    }
}

proof fn lemma_encode_single(c: char)
    ensures
        encode_utf8(seq![c]) == encode_scalar(c as u32),
{
    assert(seq![c].drop_first() =~= Seq::<char>::empty());
    assert(seq![c][0] == c);
    assert(encode_utf8(Seq::<char>::empty()) == Seq::<u8>::empty());
    assert(encode_scalar(c as u32) + Seq::<u8>::empty() =~= encode_scalar(c as u32));
}

proof fn lemma_encode_repeat(unit: Seq<char>, n: nat)
    ensures
        encode_utf8(repeat(unit, n)) == repeat(encode_utf8(unit), n),
    decreases n,
{
    if n > 0 {
        lemma_encode_repeat(unit, (n - 1) as nat);
        lemma_encode_concat(repeat(unit, (n - 1) as nat), unit);
    }
}

proof fn lemma_high_bits(y: u8)
    ensures
        (0xC0u8 | y) >= 0x80u8,
        (0xE0u8 | y) >= 0x80u8,
        (0xF0u8 | y) >= 0x80u8,
        (0x80u8 | y) >= 0x80u8,
{
    assert((0xC0u8 | y) >= 0x80u8) by (bit_vector);
    assert((0xE0u8 | y) >= 0x80u8) by (bit_vector);
    assert((0xF0u8 | y) >= 0x80u8) by (bit_vector);
    assert((0x80u8 | y) >= 0x80u8) by (bit_vector);
}

/// The encoding of a character: its own code for ASCII, otherwise bytes
/// that are all 128 or more.
proof fn lemma_encode_scalar(c: char)
    ensures
        (c as u32) < 128 ==> encode_scalar(c as u32) == seq![(c as u32) as u8],
        (c as u32) >= 128 ==> encode_scalar(c as u32).len() >= 1,
        (c as u32) >= 128 ==> forall|i: int|
            0 <= i < encode_scalar(c as u32).len() ==> #[trigger] encode_scalar(c as u32)[i] >= 128,
{
    let v = c as u32;
    if v < 128 {
        assert((v & 0x7Fu32) == v) by (bit_vector)
            requires
                v < 128,
        ;
    } else {
        lemma_high_bits(((v >> 6) & 0x1F) as u8);
        lemma_high_bits(((v >> 12) & 0x0F) as u8);
        lemma_high_bits(((v >> 18) & 0x7) as u8);
        lemma_high_bits((v & 0x3F) as u8);
        lemma_high_bits(((v >> 6) & 0x3F) as u8);
        lemma_high_bits(((v >> 12) & 0x3F) as u8);
    }
}

/// A state reached by reading an `Other` symbol is left as it is by more of
/// them, each copied alone.
proof fn lemma_other_fixed(s: FormatState)
    ensures
        step(step(s, Class::Other).0, Class::Other) == (step(s, Class::Other).0, copy_action()),
{
}

/// Reading bytes of class `Other` after one such byte changes nothing and
/// copies them.
proof fn lemma_other_run(t: FormatState, w: Seq<u8>, unit: Seq<u8>)
    requires
        t == step(t, Class::Other).0,
        forall|i: int| 0 <= i < w.len() ==> #[trigger] byte_class(w[i]) == Class::Other,
    ensures
        run_from(t, w) == t,
        output_from(t, w, unit) == w,
    decreases w.len(),
{
    if w.len() > 0 {
        lemma_other_run(t, w.drop_last(), unit);
        assert(byte_class(w[w.len() - 1]) == Class::Other);
        lemma_other_fixed(t);
        assert(step(t, Class::Other).1 == copy_action());
        assert(render(copy_action(), w.last(), unit) =~= seq![w.last()]);
        assert(w.drop_last().push(w.last()) =~= w);
    }
}

proof fn lemma_encode_head(l: Option<usize>, unit: Seq<char>)
    ensures
        encode_utf8(match l {
            Some(n) => seq!['\n'] + repeat(unit, n as nat),
            None => Seq::<char>::empty(),
        }) == match l {
            Some(n) => seq![10u8] + repeat(encode_utf8(unit), n as nat),
            None => Seq::<u8>::empty(),
        },
{
    if let Some(n) = l {
        lemma_encode_concat(seq!['\n'], repeat(unit, n as nat));
        lemma_encode_single('\n');
        lemma_encode_scalar('\n');
        lemma_encode_repeat(unit, n as nat);
    }
}

/// What is written for one character, encoded, is what is written for its
/// bytes.
proof fn lemma_char_bytes(t: FormatState, c: char, unit: Seq<char>)
    ensures
        run_from(t, encode_scalar(c as u32)) == step(t, char_class(c)).0,
        output_from(t, encode_scalar(c as u32), encode_utf8(unit)) == encode_utf8(
            render(step(t, char_class(c)).1, c, unit),
        ),
{
    let e = encode_scalar(c as u32);
    let ub = encode_utf8(unit);
    let (t2, a) = step(t, char_class(c));
    lemma_encode_scalar(c);
    let head_c = match a.newline_indent {
        Some(n) => seq!['\n'] + repeat(unit, n as nat),
        None => Seq::<char>::empty(),
    };
    let mid_c = if a.keep { seq![c] } else { Seq::<char>::empty() };
    let tail_c = if a.space_after { seq![' '] } else { Seq::<char>::empty() };
    let head_b = match a.newline_indent {
        Some(n) => seq![10u8] + repeat(ub, n as nat),
        None => Seq::<u8>::empty(),
    };
    lemma_encode_head(a.newline_indent, unit);
    lemma_encode_concat(head_c, mid_c);
    lemma_encode_concat(head_c + mid_c, tail_c);
    assert(render(a, c, unit) == head_c + mid_c + tail_c);
    lemma_encode_single(c);
    lemma_encode_single(' ');
    lemma_encode_scalar(' ');
    if (c as u32) < 128 {
        let b = (c as u32) as u8;
        assert(e.drop_last() =~= Seq::<u8>::empty());
        assert(e.last() == b);
        assert(run_from(t, e.drop_last()) == t);
        assert(output_from(t, e.drop_last(), ub) == Seq::<u8>::empty());
        assert(byte_class(b) == char_class(c));
        assert(render(a, b, ub) =~= head_b + (if a.keep { seq![b] } else { Seq::<u8>::empty() }) + (if a.space_after {
            seq![32u8]
        } else {
            Seq::<u8>::empty()
        }));
        assert(encode_utf8(tail_c) =~= (if a.space_after { seq![32u8] } else { Seq::<u8>::empty() }));
        assert(encode_utf8(mid_c) =~= (if a.keep { seq![b] } else { Seq::<u8>::empty() }));
        assert(output_from(t, e, ub) =~= Seq::<u8>::empty() + render(a, b, ub));
    } else {
        assert(char_class(c) == Class::Other);
        let first = e.subrange(0, 1);
        let rest = e.subrange(1, e.len() as int);
        assert(e =~= first + rest);
        assert(byte_class(e[0]) == Class::Other);
        assert(first.drop_last() =~= Seq::<u8>::empty());
        assert(first.last() == e[0]);
        assert(run_from(t, first.drop_last()) == t);
        assert(output_from(t, first.drop_last(), ub) == Seq::<u8>::empty());
        assert(output_from(t, first, ub) =~= Seq::<u8>::empty() + render(a, e[0], ub));
        assert(render(a, e[0], ub) =~= head_b + seq![e[0]]);
        lemma_concat(t, first, rest, ub);
        assert forall|i: int| 0 <= i < rest.len() implies #[trigger] byte_class(rest[i]) == Class::Other by {
            assert(rest[i] == e[i + 1]);
        }
        lemma_other_fixed(t);
        lemma_other_run(t2, rest, ub);
        assert(encode_utf8(mid_c) == e);
        assert(encode_utf8(tail_c) =~= Seq::<u8>::empty());
        assert(head_b + seq![e[0]] + rest =~= head_b + e + Seq::<u8>::empty());
    }
}

/// The indentation unit as bytes is the encoding of the unit as characters.
pub proof fn lemma_unit_encoding(indentation: Indentation)
    ensures
        encode_utf8(unit_chars(indentation)) == unit_bytes(indentation),
{
    if indentation is Default {
        lemma_encode_concat(seq![' '], seq![' ']);
        lemma_encode_single(' ');
        lemma_encode_scalar(' ');
        assert(seq![' '] + seq![' '] =~= seq![' ', ' ']);
        assert(seq![32u8] + seq![32u8] =~= seq![32u8, 32u8]);
    }
}

/// Formatting a text character by character and encoding the result gives
/// the same bytes as formatting its encoding byte by byte, with the
/// indentation unit encoded too.
pub proof fn law_chars_match_bytes(x: Seq<char>, unit: Seq<char>)
    ensures
        encode_utf8(formatted(x, unit)) == formatted(encode_utf8(x), encode_utf8(unit)),
        run(encode_utf8(x)) == run(x),
    decreases x.len(),
{
    if x.len() > 0 {
        let p = x.drop_last();
        let c = x.last();
        law_chars_match_bytes(p, unit);
        assert(p + seq![c] =~= x);
        lemma_encode_concat(p, seq![c]);
        lemma_encode_single(c);
        lemma_char_bytes(run(p), c, unit);
        lemma_concat(initial_state(), encode_utf8(p), encode_scalar(c as u32), encode_utf8(unit));
        let r = render(step(run(p), char_class(c)).1, c, unit);
        assert(formatted(x, unit) == formatted(p, unit) + r);
        lemma_encode_concat(formatted(p, unit), r);
    }
}

} // verus!
