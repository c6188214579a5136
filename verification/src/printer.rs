//! The printer: from an expression to text.
use crate::decimal::{int_chars, int_text};
use crate::sexpr::{views, Form, Sexpr};
use crate::text::string_of;
use vstd::prelude::*;

verus! {

/// Whether `f` renders every float as `model` says: whatever `f` may return
/// for some bits is the text that `model` gives for them.
pub open spec fn renders<R: Fn(u64) -> String>(f: R, model: spec_fn(u64) -> Seq<char>) -> bool {
    forall|bits: u64, text: String| #[trigger] f.ensures((bits,), text) ==> text@ == model(bits)
}

/// The text of a form, given the text of each float.
///
/// An integer is its decimal text, a string and a symbol are their own
/// characters, and the two singletons are `T` and `NIL`. A list is its
/// elements but the last, separated by single spaces, between parentheses;
/// a last element other than `Nil` follows after a dot. A procedure is its
/// name and its body without the first form.
pub open spec fn form_text(model: spec_fn(u64) -> Seq<char>, f: Form) -> Seq<char>
    decreases f, 0nat,
{
    match f {
        Form::Integer(i) => int_text(i as int),
        Form::Float(bits) => model(bits),
        Form::String(s) => s,
        Form::Symbol(s) => s,
        Form::T => seq!['T'],
        Form::Nil => seq!['N', 'I', 'L'],
        Form::List(l) => if l.len() == 0 {
            seq!['(', ')']
        } else {
            seq!['('] + joined(model, l.drop_last()) + tail_text(model, l.last()) + seq![')']
        },
        Form::Lambda(name, body) => seq!['('] + name + seq![' '] + joined(
            model,
            if body.len() == 0 {
                body
            } else {
                body.skip(1)
            },
        ) + seq![')'],
    }
}

/// The texts of the forms, with one space between neighbours.
pub open spec fn joined(model: spec_fn(u64) -> Seq<char>, s: Seq<Form>) -> Seq<char>
    decreases s, 0nat,
{
    if s.len() == 0 {
        Seq::empty()
    } else if s.len() == 1 {
        form_text(model, s[0])
    } else {
        joined(model, s.drop_last()) + seq![' '] + form_text(model, s.last())
    }
}

/// What follows the elements of a list for its last one: nothing for `Nil`,
/// else a dot between spaces and the element's text.
pub open spec fn tail_text(model: spec_fn(u64) -> Seq<char>, last: Form) -> Seq<char>
    decreases last, 1nat,
{
    if last is Nil {
        Seq::empty()
    } else {
        seq![' ', '.', ' '] + form_text(model, last)
    }
}

/// Appends the texts of `items[from..to]`, separated by single spaces.
fn write_joined<R: Fn(u64) -> String>(
    items: &Vec<Sexpr>,
    from: usize,
    to: usize,
    render_float: &R,
    out: &mut String,
)
    requires
        from <= to <= items.len(),
        forall|bits: u64| render_float.requires((bits,)),
    ensures
        forall|model: spec_fn(u64) -> Seq<char>| #[trigger]
            renders(*render_float, model) ==> final(out)@ == old(out)@ + joined(
                model,
                views(items@).subrange(from as int, to as int),
            ),
    decreases items, 0nat,
{
    let mut i: usize = from;
    assert(views(items@).subrange(from as int, from as int) =~= Seq::<Form>::empty());
    while i < to
        invariant
            from <= i <= to <= items.len(),
            forall|bits: u64| render_float.requires((bits,)),
            forall|model: spec_fn(u64) -> Seq<char>| #[trigger]
                renders(*render_float, model) ==> out@ == old(out)@ + joined(
                    model,
                    views(items@).subrange(from as int, i as int),
                ),
        decreases to - i,
    {
        let ghost before = out@;
        if i > from {
            out.push(' ');
        }
        let ghost spaced = out@;
        write_sexpr(&items[i], render_float, out);
        proof {
            let done = views(items@).subrange(from as int, i as int);
            let next = views(items@).subrange(from as int, i + 1);
            assert(next.drop_last() =~= done);
            assert(next.last() == items[i as int]@);
            assert forall|model: spec_fn(u64) -> Seq<char>| #[trigger]
                renders(*render_float, model) implies out@ == old(out)@ + joined(model, next) by {
                assert(out@ == spaced + form_text(model, items[i as int]@));
                if i > from {
                    assert(out@ =~= old(out)@ + (joined(model, done) + seq![' '] + form_text(
                        model,
                        items[i as int]@,
                    )));
                } else {
                    assert(out@ =~= old(out)@ + form_text(model, items[i as int]@));
                }
            }
        }
        i += 1;
    }
}

/// Appends the text of `v` to `out`.
pub fn write_sexpr<R: Fn(u64) -> String>(v: &Sexpr, render_float: &R, out: &mut String)
    requires
        forall|bits: u64| render_float.requires((bits,)),
    ensures
        forall|model: spec_fn(u64) -> Seq<char>| #[trigger]
            renders(*render_float, model) ==> final(out)@ == old(out)@ + form_text(model, v@),
    decreases v, 1nat,
{
    match v {
        Sexpr::Integer(i) => {
            let digits = string_of(&int_chars(*i));
            out.append(digits.as_str());
        },
        Sexpr::Float(bits) => {
            let text = render_float(*bits);
            out.append(text.as_str());
        },
        Sexpr::String(s) => {
            out.append(s.as_str());
        },
        Sexpr::Symbol(s) => {
            out.append(s.as_str());
        },
        Sexpr::T => {
            out.push('T');
            assert(out@ =~= old(out)@ + seq!['T']);
        },
        Sexpr::Nil => {
            out.push('N');
            out.push('I');
            out.push('L');
            assert(out@ =~= old(out)@ + seq!['N', 'I', 'L']);
        },
        Sexpr::List(l) => {
            out.push('(');
            if l.len() > 0 {
                let ghost opened = out@;
                let n = l.len() - 1;
                write_joined(l, 0, n, render_float, out);
                let ghost listed = out@;
                match &l[n] {
                    Sexpr::Nil => {},
                    last => {
                        out.push(' ');
                        out.push('.');
                        out.push(' ');
                        write_sexpr(last, render_float, out);
                    },
                }
                let ghost tailed = out@;
                out.push(')');
                proof {
                    assert(views(l@).subrange(0, n as int) =~= views(l@).drop_last());
                    assert(views(l@).last() == l[n as int]@);
                    assert forall|model: spec_fn(u64) -> Seq<char>| #[trigger]
                        renders(*render_float, model) implies out@ == old(out)@ + form_text(
                        model,
                        v@,
                    ) by {
                        assert(listed == opened + joined(model, views(l@).drop_last()));
                        assert(tailed =~= listed + tail_text(model, l[n as int]@));
                        assert(out@ =~= old(out)@ + (seq!['('] + joined(
                            model,
                            views(l@).drop_last(),
                        ) + tail_text(model, views(l@).last()) + seq![')']));
                    }
                }
            } else {
                out.push(')');
                assert(out@ =~= old(out)@ + seq!['(', ')']);
            }
        },
        Sexpr::Lambda(name, body) => {
            out.push('(');
            out.append(name.as_str());
            out.push(' ');
            let ghost opened = out@;
            let from: usize = if body.len() == 0 {
                0
            } else {
                1
            };
            write_joined(body, from, body.len(), render_float, out);
            let ghost listed = out@;
            out.push(')');
            proof {
                let rest = if views(body@).len() == 0 {
                    views(body@)
                } else {
                    views(body@).skip(1)
                };
                assert(views(body@).subrange(from as int, body.len() as int) =~= rest);
                assert forall|model: spec_fn(u64) -> Seq<char>| #[trigger]
                    renders(*render_float, model) implies out@ == old(out)@ + form_text(
                    model,
                    v@,
                ) by {
                    assert(listed == opened + joined(model, rest));
                    assert(out@ =~= old(out)@ + (seq!['('] + name@ + seq![' '] + joined(model, rest)
                        + seq![')']));
                }
            }
        },
    }
}

/// The text of an expression, with each float rendered by `render_float`.
pub fn sexpr_to_string<R: Fn(u64) -> String>(v: &Sexpr, render_float: &R) -> (r: String)
    requires
        forall|bits: u64| render_float.requires((bits,)),
    ensures
        forall|model: spec_fn(u64) -> Seq<char>| #[trigger]
            renders(*render_float, model) ==> r@ == form_text(model, v@),
{
    let mut out = String::new();
    write_sexpr(v, render_float, &mut out);
    proof {
        assert forall|model: spec_fn(u64) -> Seq<char>| #[trigger]
            renders(*render_float, model) implies out@ == form_text(model, v@) by {
            assert(out@ =~= Seq::<char>::empty() + form_text(model, v@));
        }
    }
    out
}

/// A list that ends in `Nil` is written without a dot: its other elements
/// between parentheses, with single spaces between them.
pub proof fn theorem_proper_list_has_no_dot(model: spec_fn(u64) -> Seq<char>, elements: Seq<Form>)
    ensures
        form_text(model, Form::List(elements.push(Form::Nil))) == seq!['('] + joined(
            model,
            elements,
        ) + seq![')'],
{
    let l = elements.push(Form::Nil);
    assert(l.drop_last() =~= elements);
    assert(joined(model, elements) + Seq::<char>::empty() =~= joined(model, elements));
}

/// A list that ends in anything but `Nil` is written with a dot before its
/// last element.
pub proof fn theorem_other_list_has_dot(
    model: spec_fn(u64) -> Seq<char>,
    elements: Seq<Form>,
    last: Form,
)
    requires
        !(last is Nil),
    ensures
        form_text(model, Form::List(elements.push(last))) == seq!['('] + joined(model, elements)
            + seq![' ', '.', ' '] + form_text(model, last) + seq![')'],
{
    let l = elements.push(last);
    assert(l.drop_last() =~= elements);
    assert(seq!['('] + joined(model, elements) + (seq![' ', '.', ' '] + form_text(model, last))
        =~= seq!['('] + joined(model, elements) + seq![' ', '.', ' '] + form_text(model, last));
}

/// A short word for a form: the text of an atom, and `list` or `lambda` for
/// a list or a procedure, whatever they hold.
pub open spec fn form_label(model: spec_fn(u64) -> Seq<char>, f: Form) -> Seq<char> {
    match f {
        Form::List(_) => "list"@,
        Form::Lambda(_, _) => "lambda"@,
        atom => form_text(model, atom),
    }
}

/// A short word for an expression, for a quick look at it.
pub fn label<R: Fn(u64) -> String>(v: &Sexpr, render_float: &R) -> (r: String)
    requires
        forall|bits: u64| render_float.requires((bits,)),
    ensures
        forall|model: spec_fn(u64) -> Seq<char>| #[trigger]
            renders(*render_float, model) ==> r@ == form_label(model, v@),
{
    match v {
        Sexpr::List(_) => "list".to_string(),
        Sexpr::Lambda(_, _) => "lambda".to_string(),
        atom => sexpr_to_string(atom, render_float),
    }
}

} // verus!
