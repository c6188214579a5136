//! What holds of evaluation for every form, every environment and every
//! model of float arithmetic.
use crate::error::LispError;
use crate::eval::{
    apply_atom_form, apply_form, builtin_named, done, eval_form, failed, grown, is_empty,
    is_reserved_name, items, lemma_grown_twice, lemma_unchanged_has_grown, lookup, nil_unbound,
    Builtin, FloatModel, World,
};
use crate::float::ArithOp;
use crate::lisp::{arith_of, first_value, is_reserved, number_of, second_value, setq_spec};
use crate::sexpr::Form;
use vstd::prelude::*;

verus! {

/// Whether a form is a literal atom: a number, a string or one of the two
/// singletons.
pub open spec fn is_literal(a: Form) -> bool {
    a is Integer || a is Float || a is String || a is T || a is Nil
}

/// The call form that quotes `x`: the list of the symbol `QUOTE` and `x`.
pub open spec fn quoting(x: Form) -> Form {
    Form::List(seq![Form::Symbol("QUOTE"@), x])
}

/// The call form of the symbol `name` with the arguments `args`.
pub open spec fn call(name: Seq<char>, args: Seq<Form>) -> Form {
    Form::List(seq![Form::Symbol(name)] + args)
}

/// A literal atom evaluates to itself and changes nothing.
pub proof fn theorem_literal_is_its_value(
    m: FloatModel,
    a: Form,
    env: Seq<(Seq<char>, Form)>,
    w: World,
    depth: nat,
)
    requires
        is_literal(a),
    ensures
        eval_form(m, a, env, w, depth) == done(a, w),
{
}

/// Quoting a form gives the form itself, whatever it is, and changes
/// nothing: the form is not evaluated.
pub proof fn theorem_quote_gives_form(
    m: FloatModel,
    x: Form,
    env: Seq<(Seq<char>, Form)>,
    w: World,
    depth: nat,
)
    ensures
        eval_form(m, quoting(x), env, w, depth) == done(x, w),
{
    let l = seq![Form::Symbol("QUOTE"@), x];
    assert(l.skip(1) =~= seq![x]);
    assert(apply_form(m, quoting(x), env, w, depth) == apply_atom_form(
        m,
        l[0],
        Form::List(l.skip(1)),
        env,
        w,
        depth,
    ));
}

/// A symbol never fails to evaluate: it gives the value of its last binding,
/// and `Nil` where it has none, as under the empty environment.
pub proof fn theorem_symbol_never_fails(
    m: FloatModel,
    name: Seq<char>,
    env: Seq<(Seq<char>, Form)>,
    w: World,
    depth: nat,
)
    ensures
        eval_form(m, Form::Symbol(name), env, w, depth) == done(lookup(name, env), w),
        env.len() == 0 ==> eval_form(m, Form::Symbol(name), env, w, depth) == done(Form::Nil, w),
{
}

/// The names of the built-ins that the theorems below speak of.
pub proof fn lemma_builtin_names()
    ensures
        builtin_named("QUOTE"@) == Some(Builtin::Quote),
        builtin_named("CAR"@) == Some(Builtin::Car),
        builtin_named("CDR"@) == Some(Builtin::Cdr),
        builtin_named("SETQ"@) == Some(Builtin::Setq),
{
    reveal_strlit("QUOTE");
    reveal_strlit("CAR");
    reveal_strlit("CDR");
    reveal_strlit("SETQ");
    assert("CAR"@.len() != "QUOTE"@.len());
    assert("CDR"@.len() != "QUOTE"@.len());
    assert("SETQ"@.len() != "QUOTE"@.len());
    assert("CDR"@[1] != "CAR"@[1]);
    assert("SETQ"@.len() != "CAR"@.len());
    assert("SETQ"@.len() != "CDR"@.len());
}

/// What a call with at least one argument gives is what the symbol gives
/// when it is applied to the list of the arguments.
proof fn lemma_call_unfolds(
    m: FloatModel,
    name: Seq<char>,
    args: Seq<Form>,
    env: Seq<(Seq<char>, Form)>,
    w: World,
    depth: nat,
)
    requires
        args.len() >= 1,
    ensures
        eval_form(m, call(name, args), env, w, depth) == apply_atom_form(
            m,
            Form::Symbol(name),
            Form::List(args),
            env,
            w,
            depth,
        ),
{
    let l = seq![Form::Symbol(name)] + args;
    assert(l.skip(1) =~= args);
    assert(l[0] == Form::Symbol(name));
}

/// `CAR` of a quoted list is the list's first element, and `CDR` of it is
/// the list of the elements after the first.
pub proof fn theorem_car_cdr_of_quoted(
    m: FloatModel,
    elements: Seq<Form>,
    env: Seq<(Seq<char>, Form)>,
    w: World,
    depth: nat,
)
    requires
        elements.len() > 0,
    ensures
        eval_form(m, call("CAR"@, seq![quoting(Form::List(elements))]), env, w, depth) == done(
            elements[0],
            w,
        ),
        eval_form(m, call("CDR"@, seq![quoting(Form::List(elements))]), env, w, depth) == done(
            Form::List(elements.skip(1)),
            w,
        ),
{
    lemma_builtin_names();
    let quoted = quoting(Form::List(elements));
    theorem_quote_gives_form(m, Form::List(elements), env, w, depth);
    lemma_call_unfolds(m, "CAR"@, seq![quoted], env, w, depth);
    lemma_call_unfolds(m, "CDR"@, seq![quoted], env, w, depth);
    assert(first_value(m, Form::List(seq![quoted]), env, w, depth) == done(
        Form::List(elements),
        w,
    ));
}

/// After `SETQ` has bound a value to a symbol, the symbol evaluates to that
/// value under the global bindings that the assignment leaves.
///
/// `value` is any form that evaluates, to `x`; `name` is any symbol but
/// `NIL`. The assignment gives `x`, adds the binding of `name` to `x` after
/// the bindings that the evaluation of `value` left, and prints nothing of
/// its own. Under those bindings `name` evaluates to `x`.
pub proof fn theorem_setq_then_lookup(
    m: FloatModel,
    name: Seq<char>,
    value: Form,
    env: Seq<(Seq<char>, Form)>,
    w: World,
    depth: nat,
    later: World,
    later_depth: nat,
)
    requires
        !is_reserved_name(name),
        eval_form(m, value, env, w, depth).result is Ok,
    ensures
        ({
            let valued = eval_form(m, value, env, w, depth);
            let x = valued.result->Ok_0;
            let assigned = eval_form(
                m,
                call("SETQ"@, seq![Form::Symbol(name), value]),
                env,
                w,
                depth,
            );
            &&& assigned.result == Ok::<Form, LispError>(x)
            &&& assigned.world.globals == valued.world.globals.push((name, x))
            &&& assigned.world.output == valued.world.output
            &&& eval_form(m, Form::Symbol(name), assigned.world.globals, later, later_depth)
                == done(x, later)
        }),
{
    lemma_builtin_names();
    let args = seq![Form::Symbol(name), value];
    lemma_call_unfolds(m, "SETQ"@, args, env, w, depth);
    let valued = eval_form(m, value, env, w, depth);
    let x = valued.result->Ok_0;
    assert(second_value(m, Form::List(args), env, w, depth) == valued);
    let globals = valued.world.globals.push((name, x));
    assert(globals.last() == (name, x));
}

/// An assignment to the reserved name `NIL` fails, whatever the value is
/// that was to be bound, once that value has been evaluated.
pub proof fn theorem_setq_refuses_nil(
    m: FloatModel,
    target: Form,
    value: Form,
    env: Seq<(Seq<char>, Form)>,
    w: World,
    depth: nat,
)
    requires
        is_reserved(target),
        eval_form(m, value, env, w, depth).result is Ok,
    ensures
        setq_spec(m, Form::List(seq![target, value]), env, w, depth) == failed(
            LispError::ReservedName,
            eval_form(m, value, env, w, depth).world,
        ),
        eval_form(m, call("SETQ"@, seq![target, value]), env, w, depth) == failed(
            LispError::ReservedName,
            eval_form(m, value, env, w, depth).world,
        ),
{
    lemma_builtin_names();
    let args = seq![target, value];
    lemma_call_unfolds(m, "SETQ"@, args, env, w, depth);
}

/// An operation on two numbers of which at least one is a float gives a
/// float: the one that the model gives for the two operands in their order.
pub proof fn theorem_mixed_arithmetic_gives_float(m: FloatModel, op: ArithOp, x: Form, y: Form)
    requires
        number_of(x) is Some,
        number_of(y) is Some,
        x is Float || y is Float,
    ensures
        arith_of(m, op, x, y) == Ok::<Form, LispError>(
            Form::Float(m(op, number_of(x)->Some_0, number_of(y)->Some_0)),
        ),
{
}

/// An operation on two integers never gives a float: it gives an integer,
/// or fails as a division does.
pub proof fn theorem_integer_arithmetic_gives_integer(
    m: FloatModel,
    op: ArithOp,
    a: i64,
    b: i64,
)
    ensures
        match arith_of(m, op, Form::Integer(a), Form::Integer(b)) {
            Ok(v) => v is Integer,
            Err(e) => e == LispError::Division && (op == ArithOp::Div || op == ArithOp::Rem),
        },
{
}

/// Evaluation only adds: whatever a form evaluates to, and whether it
/// evaluates or fails, the global bindings and the output of before stay as
/// they were, and what is bound after them is never bound to `NIL`.
pub proof fn theorem_evaluation_only_adds(
    m: FloatModel,
    v: Form,
    env: Seq<(Seq<char>, Form)>,
    w: World,
    depth: nat,
)
    ensures
        grown(w, eval_form(m, v, env, w, depth).world),
    decreases depth, v, 0nat,
{
    lemma_unchanged_has_grown(w);
    match v {
        Form::List(l) => {
            if !(l.len() == 0 || is_empty(l[0])) {
                lemma_apply_only_adds(m, v, env, w, depth);
            }
        },
        _ => {},
    }
}

/// Applying a call form only adds to the world.
pub proof fn lemma_apply_only_adds(
    m: FloatModel,
    v: Form,
    env: Seq<(Seq<char>, Form)>,
    w: World,
    depth: nat,
)
    ensures
        grown(w, apply_form(m, v, env, w, depth).world),
    decreases depth, items(v), 6nat,
{
    lemma_unchanged_has_grown(w);
    match v {
        Form::List(l) => {
            if l.len() >= 2 && l[0] is Symbol {
                lemma_apply_atom_only_adds(m, l[0], Form::List(l.skip(1)), env, w, depth);
            }
        },
        _ => {},
    }
}

/// Applying a symbol to an argument list only adds to the world.
pub proof fn lemma_apply_atom_only_adds(
    m: FloatModel,
    f: Form,
    args: Form,
    env: Seq<(Seq<char>, Form)>,
    w: World,
    depth: nat,
)
    ensures
        grown(w, apply_atom_form(m, f, args, env, w, depth).world),
    decreases depth, items(args), 5nat,
{
    lemma_unchanged_has_grown(w);
    let l = items(args);
    if f is Symbol && args is List && l.len() >= 1 {
        // The first argument, and what it leaves.
        theorem_evaluation_only_adds(m, l[0], env, w, depth);
        let first = eval_form(m, l[0], env, w, depth);
        assert(first_value(m, args, env, w, depth) == first);
        if first.result is Ok && depth > 0 {
            // `EVAL` evaluates the value once more.
            theorem_evaluation_only_adds(
                m,
                first.result->Ok_0,
                env,
                first.world,
                (depth - 1) as nat,
            );
            lemma_grown_twice(
                w,
                first.world,
                eval_form(m, first.result->Ok_0, env, first.world, (depth - 1) as nat).world,
            );
        }
        if first.result is Ok {
            // `PRINT` adds the value to the output.
            let x = first.result->Ok_0;
            let printed = World { globals: first.world.globals, output: first.world.output.push(x) };
            assert(printed.output.take(first.world.output.len() as int) =~= first.world.output);
            assert(printed.globals.take(first.world.globals.len() as int) =~= first.world.globals);
            lemma_grown_twice(w, first.world, printed);
        }
        if l.len() >= 2 {
            // The second argument after the first, as two-argument
            // built-ins take it.
            if first.result is Ok {
                theorem_evaluation_only_adds(m, l[1], env, first.world, depth);
                let second = eval_form(m, l[1], env, first.world, depth);
                assert(second_value(m, args, env, first.world, depth) == second);
                lemma_grown_twice(w, first.world, second.world);
            }
            // The second argument alone, as `SETQ` takes it, and the binding
            // that it adds.
            theorem_evaluation_only_adds(m, l[1], env, w, depth);
            let valued = eval_form(m, l[1], env, w, depth);
            assert(second_value(m, args, env, w, depth) == valued);
            if valued.result is Ok && l[0] is Symbol && !is_reserved(l[0]) {
                let bound = World {
                    globals: valued.world.globals.push((l[0]->Symbol_0, valued.result->Ok_0)),
                    output: valued.world.output,
                };
                assert(bound.globals.take(valued.world.globals.len() as int)
                    =~= valued.world.globals);
                assert(bound.output.take(valued.world.output.len() as int)
                    =~= valued.world.output);
                lemma_grown_twice(w, valued.world, bound);
            }
        }
    }
}

/// `NIL` is never bound: where no global binding has the reserved name
/// before an evaluation, none has it after, whatever was evaluated.
pub proof fn theorem_nil_stays_unbound(
    m: FloatModel,
    v: Form,
    env: Seq<(Seq<char>, Form)>,
    w: World,
    depth: nat,
)
    requires
        nil_unbound(w),
    ensures
        nil_unbound(eval_form(m, v, env, w, depth).world),
{
    theorem_evaluation_only_adds(m, v, env, w, depth);
    let after = eval_form(m, v, env, w, depth).world;
    assert forall|i: int| 0 <= i < after.globals.len() implies !is_reserved_name(
        #[trigger] after.globals[i].0,
    ) by {
        if i < w.globals.len() {
            assert(after.globals.take(w.globals.len() as int)[i] == w.globals[i]);
        }
    }
}

} // verus!
