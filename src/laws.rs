//! Properties of the pass as a whole.
use vstd::prelude::*;
use crate::model::{Symbol, formatted, output_from, render, repeat, run, run_from};
use crate::format::{unit_bytes, unit_chars, Indentation};
use crate::state::{step, initial_state, Class, FormatState};

verus! {

/// Whether `x`, read in state `s`, matters to the output: whitespace outside
/// a string does not.
pub open spec fn significant<T: Symbol>(s: FormatState, x: T) -> bool {
    s.in_string || x.sym_class() != Class::Blank
}

/// The symbols of `x`, read from `s`, that matter to the output.
pub open spec fn significant_from<T: Symbol>(s: FormatState, x: Seq<T>) -> Seq<T>
    decreases x.len(),
{
    if x.len() == 0 {
        Seq::empty()
    } else {
        let rest = significant_from(s, x.drop_last());
        if significant(run_from(s, x.drop_last()), x.last()) {
            rest.push(x.last())
        } else {
            rest
        }
    }
}

/// `x` without its whitespace outside strings.
pub open spec fn significant_part<T: Symbol>(x: Seq<T>) -> Seq<T> {
    significant_from(initial_state(), x)
}

/// Every symbol of `w` is whitespace.
pub open spec fn all_blank<T: Symbol>(w: Seq<T>) -> bool {
    forall|i: int| 0 <= i < w.len() ==> (#[trigger] w[i]).sym_class() == Class::Blank
}

/// The nesting depth after `x`: brackets opened outside strings and not yet
/// closed, where a closing bracket with nothing open leaves it at zero.
pub open spec fn open_depth<T: Symbol>(x: Seq<T>) -> nat
    decreases x.len(),
{
    if x.len() == 0 {
        0
    } else {
        let d = open_depth(x.drop_last());
        let outside = !run(x.drop_last()).in_string;
        let c = x.last().sym_class();
        if outside && c == Class::Open {
            d + 1
        } else if outside && c == Class::Close {
            if d == 0 { 0 } else { (d - 1) as nat }
        } else {
            d
        }
    }
}

/// The default indentation unit is whitespace, as bytes and as characters.
pub proof fn lemma_default_unit_blank()
    ensures
        all_blank(unit_bytes(Indentation::Default)),
        all_blank(unit_chars(Indentation::Default)),
{
}

/// Reading `a` then `b` is reading `a + b`.
pub proof fn lemma_concat<T: Symbol>(s: FormatState, a: Seq<T>, b: Seq<T>, unit: Seq<T>)
    ensures
        run_from(s, a + b) == run_from(run_from(s, a), b),
        output_from(s, a + b, unit) == output_from(s, a, unit) + output_from(run_from(s, a), b, unit),
        significant_from(s, a + b) == significant_from(s, a) + significant_from(run_from(s, a), b),
    decreases b.len(),
{
    if b.len() == 0 {
        assert(a + b =~= a);
    } else {
        lemma_concat(s, a, b.drop_last(), unit);
        assert((a + b).drop_last() =~= a + b.drop_last());
        assert((a + b).last() == b.last());
        let t = run_from(s, a);
        let r = render(step(run_from(t, b.drop_last()), b.last().sym_class()).1, b.last(), unit);
        assert(output_from(s, a + b, unit) =~= output_from(s, a, unit) + output_from(t, b, unit));
        assert(significant_from(s, a) + significant_from(t, b.drop_last()).push(b.last())
            =~= (significant_from(s, a) + significant_from(t, b.drop_last())).push(b.last()));
    }
}

/// Whitespace read outside a string changes nothing and writes nothing.
pub proof fn lemma_blank_run<T: Symbol>(s: FormatState, w: Seq<T>, unit: Seq<T>)
    requires
        !s.in_string,
        all_blank(w),
    ensures
        run_from(s, w) == s,
        output_from(s, w, unit) == Seq::<T>::empty(),
        significant_from(s, w) == Seq::<T>::empty(),
    decreases w.len(),
{
    if w.len() > 0 {
        assert(all_blank(w.drop_last()));
        lemma_blank_run(s, w.drop_last(), unit);
        assert(w.last() == w[w.len() - 1]);
        assert(render(step(s, Class::Blank).1, w.last(), unit) =~= Seq::<T>::empty());
    }
}

proof fn lemma_repeat_blank<T: Symbol>(unit: Seq<T>, n: nat)
    requires
        all_blank(unit),
    ensures
        all_blank(repeat(unit, n)),
    decreases n,
{
    if n > 0 {
        lemma_repeat_blank(unit, (n - 1) as nat);
        let r = repeat(unit, (n - 1) as nat);
        assert forall|i: int| 0 <= i < repeat(unit, n).len() implies (#[trigger] repeat(unit, n)[i]).sym_class()
            == Class::Blank by {
            if i < r.len() {
                assert(repeat(unit, n)[i] == r[i]);
            } else {
                assert(repeat(unit, n)[i] == unit[i - r.len()]);
            }
        }
    }
}

/// Dropping the whitespace outside strings leaves the final state and the
/// output as they were.
pub proof fn lemma_significant_part<T: Symbol>(s: FormatState, x: Seq<T>, unit: Seq<T>)
    ensures
        run_from(s, significant_from(s, x)) == run_from(s, x),
        output_from(s, significant_from(s, x), unit) == output_from(s, x, unit),
    decreases x.len(),
{
    if x.len() > 0 {
        let p = x.drop_last();
        lemma_significant_part(s, p, unit);
        let t = run_from(s, p);
        let q = significant_from(s, p);
        if significant(t, x.last()) {
            assert(q.push(x.last()).drop_last() =~= q);
        } else {
            assert(render(step(t, x.last().sym_class()).1, x.last(), unit) =~= Seq::<T>::empty());
            assert(output_from(s, x, unit) =~= output_from(s, p, unit));
        }
    }
}

/// Reading what the pass wrote for one symbol, from the state the pass was in
/// before it, ends in the state the pass reached, and keeps that symbol alone
/// as significant.
proof fn lemma_reread_one<T: Symbol>(t: FormatState, b: T, unit: Seq<T>)
    requires
        all_blank(unit),
    ensures
        run_from(t, render(step(t, b.sym_class()).1, b, unit)) == step(t, b.sym_class()).0,
        significant_from(t, render(step(t, b.sym_class()).1, b, unit)) == (if significant(t, b) {
            seq![b]
        } else {
            Seq::<T>::empty()
        }),
{
    T::lemma_blanks();
    let (t2, a) = step(t, b.sym_class());
    let head = match a.newline_indent {
        Some(l) => seq![T::newline()] + repeat(unit, l as nat),
        None => Seq::<T>::empty(),
    };
    let mid = if a.keep { seq![b] } else { Seq::<T>::empty() };
    let tail = if a.space_after { seq![T::space()] } else { Seq::<T>::empty() };
    assert(render(a, b, unit) == head + mid + tail);
    if let Some(l) = a.newline_indent {
        lemma_repeat_blank(unit, l as nat);
        assert forall|i: int| 0 <= i < head.len() implies (#[trigger] head[i]).sym_class() == Class::Blank by {
            if i > 0 {
                assert(head[i] == repeat(unit, l as nat)[i - 1]);
            }
        }
    }
    assert(all_blank(head));
    if a.newline_indent is Some {
        lemma_blank_run(t, head, unit);
    } else {
        assert(head =~= Seq::<T>::empty());
    }
    lemma_concat(t, head, mid, unit);
    if a.keep {
        assert(mid.drop_last() =~= Seq::<T>::empty());
        assert(mid.last() == b);
        assert(run_from(t, mid.drop_last()) == t);
        assert(significant_from(t, mid.drop_last()) == Seq::<T>::empty());
        assert(Seq::<T>::empty().push(b) =~= seq![b]);
        assert(significant_from(t, mid) =~= if significant(t, b) { seq![b] } else { Seq::<T>::empty() });
    }
    assert(run_from(t, head + mid) == t2);
    assert(all_blank(tail));
    if a.space_after {
        lemma_blank_run(t2, tail, unit);
    }
    lemma_concat(t, head + mid, tail, unit);
    assert(head + mid + tail == (head + mid) + tail);
    assert(significant_from(t, head + mid + tail) =~= significant_from(t, head + mid));
}

proof fn lemma_reread<T: Symbol>(x: Seq<T>, unit: Seq<T>)
    requires
        all_blank(unit),
    ensures
        run(formatted(x, unit)) == run(x),
        significant_part(formatted(x, unit)) == significant_part(x),
    decreases x.len(),
{
    if x.len() > 0 {
        let p = x.drop_last();
        let b = x.last();
        lemma_reread(p, unit);
        let t = run(p);
        let r = render(step(t, b.sym_class()).1, b, unit);
        assert(formatted(x, unit) == formatted(p, unit) + r);
        lemma_concat(initial_state(), formatted(p, unit), r, unit);
        lemma_reread_one(t, b, unit);
        if significant(t, b) {
            assert(significant_part(x) == significant_part(p).push(b));
            assert(significant_part(p) + seq![b] =~= significant_part(p).push(b));
        } else {
            assert(significant_part(p) + Seq::<T>::empty() =~= significant_part(p));
        }
    }
}

/// Whitespace outside strings does not matter: two inputs that agree once it
/// is taken out are formatted alike.
pub proof fn law_whitespace_insignificant<T: Symbol>(x: Seq<T>, y: Seq<T>, unit: Seq<T>)
    requires
        significant_part(x) == significant_part(y),
    ensures
        formatted(x, unit) == formatted(y, unit),
{
    lemma_significant_part(initial_state(), x, unit);
    lemma_significant_part(initial_state(), y, unit);
}

/// Inserting one space, tab or line feed at a point outside any string
/// leaves the output as it was.
pub proof fn law_insert_blank<T: Symbol>(p: Seq<T>, w: T, q: Seq<T>, unit: Seq<T>)
    requires
        !run(p).in_string,
        w.sym_class() == Class::Blank,
    ensures
        formatted(p + seq![w] + q, unit) == formatted(p + q, unit),
{
    let s = initial_state();
    assert(all_blank(seq![w]));
    lemma_blank_run(run(p), seq![w], unit);
    lemma_concat(s, p, seq![w], unit);
    lemma_concat(s, p + seq![w], q, unit);
    lemma_concat(s, p, q, unit);
    assert(output_from(s, p, unit) + Seq::<T>::empty() =~= output_from(s, p, unit));
}

/// Formatting is idempotent when the indentation unit is whitespace.
pub proof fn law_idempotent<T: Symbol>(x: Seq<T>, unit: Seq<T>)
    requires
        all_blank(unit),
    ensures
        formatted(formatted(x, unit), unit) == formatted(x, unit),
{
    lemma_reread(x, unit);
    law_whitespace_insignificant(formatted(x, unit), x, unit);
}

/// What is read inside a string is written unchanged: if the pass is inside
/// a string before each symbol of `w`, the output for `w` is `w` itself.
pub proof fn law_string_verbatim<T: Symbol>(x: Seq<T>, w: Seq<T>, unit: Seq<T>)
    requires
        forall|i: int| 0 <= i < w.len() ==> #[trigger] run(x + w.subrange(0, i)).in_string,
    ensures
        formatted(x + w, unit) == formatted(x, unit) + w,
    decreases w.len(),
{
    if w.len() == 0 {
        assert(x + w =~= x);
        assert(formatted(x, unit) + w =~= formatted(x, unit));
    } else {
        let v = w.drop_last();
        assert forall|i: int| 0 <= i < v.len() implies #[trigger] run(x + v.subrange(0, i)).in_string by {
            assert(v.subrange(0, i) =~= w.subrange(0, i));
            assert(run(x + w.subrange(0, i)).in_string);
        }
        law_string_verbatim(x, v, unit);
        assert(w.subrange(0, v.len() as int) =~= v);
        assert(run(x + w.subrange(0, v.len() as int)).in_string);
        assert((x + w).drop_last() =~= x + v);
        assert((x + w).last() == w.last());
        let a = step(run(x + v), w.last().sym_class()).1;
        assert(render(a, w.last(), unit) =~= seq![w.last()]);
        assert(formatted(x, unit) + v + seq![w.last()] =~= formatted(x, unit) + w);
    }
}

/// The indentation level the pass keeps is the nesting depth.
pub proof fn lemma_level_is_depth<T: Symbol>(x: Seq<T>)
    requires
        x.len() <= usize::MAX,
    ensures
        run(x).indent_level == open_depth(x),
    decreases x.len(),
{
    if x.len() > 0 {
        lemma_level_is_depth(x.drop_last());
        crate::model::lemma_level_bound(initial_state(), x.drop_last());
    }
}

/// Each line break is followed by as many indentation units as there are
/// brackets open at that point: before the symbol that starts the line, or
/// after it when that symbol closes a bracket.
pub proof fn law_indent_is_depth<T: Symbol>(x: Seq<T>, b: T, unit: Seq<T>)
    requires
        x.len() < usize::MAX,
    ensures
        formatted(x.push(b), unit) == formatted(x, unit) + render(step(run(x), b.sym_class()).1, b, unit),
        step(run(x), b.sym_class()).1.newline_indent is Some ==> step(run(x), b.sym_class()).1.newline_indent->0
            == (if b.sym_class() == Class::Close {
            open_depth(x.push(b))
        } else {
            open_depth(x)
        }),
{
    assert(x.push(b).drop_last() =~= x);
    lemma_level_is_depth(x);
    lemma_level_is_depth(x.push(b));
}

} // verus!
