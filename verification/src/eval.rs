//! The evaluator: what a form evaluates to, and the functions that
//! compute it.
use crate::error::LispError;
use crate::float::{ArithOp, Number};
use crate::lisp::{
    add_spec, atom, atom_spec, car, car_spec, cdr, cdr_spec, cons, cons_spec, divide,
    divide_spec, equal, equal_spec, eval, eval_spec, floor, floor_spec, listp, listp_spec, modulo,
    modulo_spec, multiply, multiply_spec, null, null_spec, print, print_spec, quote, quote_spec,
    setq, setq_spec, subtract, subtract_spec,
};
use crate::sexpr::{bindings, views, Form, Sexpr};
use crate::text::same_text;
use vstd::prelude::*;

verus! {

/// What an evaluation can change, as mathematical values: the global
/// bindings, the one made last standing last, and the values printed so far.
pub struct World {
    pub globals: Seq<(Seq<char>, Form)>,
    pub output: Seq<Form>,
}

/// The state that lasts from one evaluation to the next.
///
/// `globals` holds the bindings that `SETQ` made, in the order in which it
/// made them. `output` holds the values that `PRINT` was given, in order,
/// until they are taken out to be written.
pub struct Session {
    pub globals: Vec<(String, Sexpr)>,
    pub output: Vec<Sexpr>,
}

impl View for Session {
    type V = World;

    open spec fn view(&self) -> World {
        World { globals: bindings(self.globals@), output: views(self.output@) }
    }
}

/// Whether a name is the reserved `NIL`, which no binding may have.
pub open spec fn is_reserved_name(name: Seq<char>) -> bool {
    name == "NIL"@
}

/// Whether `later` is `earlier` with more at its end.
pub open spec fn extends<A>(earlier: Seq<A>, later: Seq<A>) -> bool {
    earlier.len() <= later.len() && later.take(earlier.len() as int) == earlier
}

/// Whether a world has come from another by evaluation: the bindings and the
/// output of before are still there, in their places, and no binding that
/// was added has the reserved name.
pub open spec fn grown(before: World, after: World) -> bool {
    &&& extends(before.globals, after.globals)
    &&& extends(before.output, after.output)
    &&& forall|i: int|
        before.globals.len() <= i < after.globals.len() ==> !is_reserved_name(
            #[trigger] after.globals[i].0,
        )
}

/// A world that has grown from one that has grown from a first has grown
/// from the first.
pub proof fn lemma_grown_twice(a: World, b: World, c: World)
    requires
        grown(a, b),
        grown(b, c),
    ensures
        grown(a, c),
{
    assert(c.globals.take(a.globals.len() as int) =~= c.globals.take(
        b.globals.len() as int,
    ).take(a.globals.len() as int));
    assert(c.output.take(a.output.len() as int) =~= c.output.take(b.output.len() as int).take(
        a.output.len() as int,
    ));
    assert forall|i: int| a.globals.len() <= i < c.globals.len() implies !is_reserved_name(
        #[trigger] c.globals[i].0,
    ) by {
        if i < b.globals.len() {
            assert(c.globals.take(b.globals.len() as int)[i] == b.globals[i]);
        }
    }
}

/// A world has grown from itself.
pub proof fn lemma_unchanged_has_grown(w: World)
    ensures
        grown(w, w),
{
    assert(w.globals.take(w.globals.len() as int) =~= w.globals);
    assert(w.output.take(w.output.len() as int) =~= w.output);
}

/// Whether no global binding has the reserved name.
pub open spec fn nil_unbound(w: World) -> bool {
    forall|i: int| 0 <= i < w.globals.len() ==> !is_reserved_name(#[trigger] w.globals[i].0)
}

/// A world that has grown from one without a binding of `NIL` has none.
pub proof fn lemma_grown_keeps_nil_unbound(before: World, after: World)
    requires
        nil_unbound(before),
        grown(before, after),
    ensures
        nil_unbound(after),
{
    assert forall|i: int| 0 <= i < after.globals.len() implies !is_reserved_name(
        #[trigger] after.globals[i].0,
    ) by {
        if i < before.globals.len() {
            assert(after.globals.take(before.globals.len() as int)[i] == before.globals[i]);
        }
    }
}

impl Session {
    /// Whether the session is in order: no global binding has the reserved
    /// name `NIL`.
    pub open spec fn well_formed(&self) -> bool {
        nil_unbound(self@)
    }

    /// Binds a value to a name, after all the bindings there are: an
    /// earlier binding of the name stays, and is shadowed. The reserved name
    /// `NIL` is refused, and the session stays as it is.
    pub fn bind(&mut self, name: String, value: Sexpr) -> (r: Result<(), LispError>)
        ensures
            is_reserved_name(name@) ==> r == Err::<(), LispError>(LispError::ReservedName)
                && final(self)@ == old(self)@,
            !is_reserved_name(name@) ==> r is Ok && final(self)@ == (World {
                globals: old(self)@.globals.push((name@, value@)),
                output: old(self)@.output,
            }),
            grown(old(self)@, final(self)@),
            old(self).well_formed() ==> final(self).well_formed(),
    {
        proof {
            lemma_unchanged_has_grown(self@);
        }
        if same_text(name.as_str(), "NIL") {
            return Err(LispError::ReservedName);
        }
        let ghost before = self@;
        self.globals.push((name, value));
        proof {
            assert(self@.globals =~= before.globals.push((name@, value@)));
            assert(self@.globals.take(before.globals.len() as int) =~= before.globals);
            assert(self@.output.take(before.output.len() as int) =~= before.output);
            if old(self).well_formed() {
                lemma_grown_keeps_nil_unbound(before, self@);
            }
        }
        Ok(())
    }

    /// A session without bindings and without output.
    pub fn new() -> (s: Session)
        ensures
            s@.globals == Seq::<(Seq<char>, Form)>::empty(),
            s@.output == Seq::<Form>::empty(),
            s.well_formed(),
    {
        let s = Session { globals: Vec::new(), output: Vec::new() };
        assert(s@.globals =~= Seq::<(Seq<char>, Form)>::empty());
        assert(s@.output =~= Seq::<Form>::empty());
        s
    }
}

/// The result of an evaluation and the world it leaves.
pub struct Outcome {
    pub result: Result<Form, LispError>,
    pub world: World,
}

/// An evaluation that gave a value.
pub open spec fn done(v: Form, w: World) -> Outcome {
    Outcome { result: Ok(v), world: w }
}

/// An evaluation that failed.
pub open spec fn failed(e: LispError, w: World) -> Outcome {
    Outcome { result: Err(e), world: w }
}

/// What a call returned, the value as a form.
pub open spec fn result_of(r: Result<Sexpr, LispError>) -> Result<Form, LispError> {
    match r {
        Ok(v) => Ok(v@),
        Err(e) => Err(e),
    }
}

/// What a call returned and the session it left, as an outcome.
pub open spec fn outcome_of(r: Result<Sexpr, LispError>, w: World) -> Outcome {
    Outcome { result: result_of(r), world: w }
}

/// A model of float arithmetic: the bits of the double that an operation
/// gives on two operands.
pub type FloatModel = spec_fn(ArithOp, Number, Number) -> u64;

/// Whether `f` computes as `model` says: whatever `f` may return for an
/// operation on two operands is what `model` gives for them.
pub open spec fn computes<F: Fn(ArithOp, Number, Number) -> u64>(f: F, model: FloatModel) -> bool {
    forall|op: ArithOp, a: Number, b: Number, r: u64| #[trigger]
        f.ensures((op, a, b), r) ==> r == model(op, a, b)
}

/// Whether `f` may be called on every operation and every two operands.
pub open spec fn total<F: Fn(ArithOp, Number, Number) -> u64>(f: F) -> bool {
    forall|op: ArithOp, a: Number, b: Number| #[trigger] f.requires((op, a, b))
}

/// The elements of a list; of anything else, none.
pub open spec fn items(v: Form) -> Seq<Form> {
    match v {
        Form::List(l) => l,
        _ => Seq::empty(),
    }
}

/// Whether a form is the empty value: `Nil`, or a list without elements.
pub open spec fn is_empty(v: Form) -> bool {
    v is Nil || (v is List && v->List_0.len() == 0)
}

/// The value bound to `name`: that of the last binding with this name, and
/// `Nil` where there is none.
pub open spec fn lookup(name: Seq<char>, env: Seq<(Seq<char>, Form)>) -> Form
    decreases env.len(),
{
    if env.len() == 0 {
        Form::Nil
    } else if env.last().0 == name {
        env.last().1
    } else {
        lookup(name, env.drop_last())
    }
}

/// The built-in procedures.
#[derive(Clone, Copy, Debug, PartialEq, Eq, Structural)]
pub enum Builtin {
    Quote,
    Car,
    Cdr,
    Setq,
    Equal,
    Atom,
    Listp,
    Null,
    Floor,
    Add,
    Subtract,
    Multiply,
    Divide,
    Modulo,
    Print,
    Eval,
    Cons,
}

/// The built-in that a symbol names, if it names one. `EQ` names the same
/// one as `EQUAL`.
pub open spec fn builtin_named(name: Seq<char>) -> Option<Builtin> {
    if name == "QUOTE"@ {
        Some(Builtin::Quote)
    } else if name == "CAR"@ {
        Some(Builtin::Car)
    } else if name == "CDR"@ {
        Some(Builtin::Cdr)
    } else if name == "SETQ"@ {
        Some(Builtin::Setq)
    } else if name == "EQUAL"@ || name == "EQ"@ {
        Some(Builtin::Equal)
    } else if name == "ATOM"@ {
        Some(Builtin::Atom)
    } else if name == "LISTP"@ {
        Some(Builtin::Listp)
    } else if name == "NULL"@ {
        Some(Builtin::Null)
    } else if name == "FLOOR"@ {
        Some(Builtin::Floor)
    } else if name == "+"@ {
        Some(Builtin::Add)
    } else if name == "-"@ {
        Some(Builtin::Subtract)
    } else if name == "*"@ {
        Some(Builtin::Multiply)
    } else if name == "/"@ {
        Some(Builtin::Divide)
    } else if name == "MOD"@ {
        Some(Builtin::Modulo)
    } else if name == "PRINT"@ {
        Some(Builtin::Print)
    } else if name == "EVAL"@ {
        Some(Builtin::Eval)
    } else if name == "CONS"@ {
        Some(Builtin::Cons)
    } else {
        None
    }
}

/// Finds the built-in that a symbol names.
pub fn find_builtin(name: &str) -> (r: Option<Builtin>)
    ensures
        r == builtin_named(name@),
{
    if same_text(name, "QUOTE") {
        Some(Builtin::Quote)
    } else if same_text(name, "CAR") {
        Some(Builtin::Car)
    } else if same_text(name, "CDR") {
        Some(Builtin::Cdr)
    } else if same_text(name, "SETQ") {
        Some(Builtin::Setq)
    } else if same_text(name, "EQUAL") || same_text(name, "EQ") {
        Some(Builtin::Equal)
    } else if same_text(name, "ATOM") {
        Some(Builtin::Atom)
    } else if same_text(name, "LISTP") {
        Some(Builtin::Listp)
    } else if same_text(name, "NULL") {
        Some(Builtin::Null)
    } else if same_text(name, "FLOOR") {
        Some(Builtin::Floor)
    } else if same_text(name, "+") {
        Some(Builtin::Add)
    } else if same_text(name, "-") {
        Some(Builtin::Subtract)
    } else if same_text(name, "*") {
        Some(Builtin::Multiply)
    } else if same_text(name, "/") {
        Some(Builtin::Divide)
    } else if same_text(name, "MOD") {
        Some(Builtin::Modulo)
    } else if same_text(name, "PRINT") {
        Some(Builtin::Print)
    } else if same_text(name, "EVAL") {
        Some(Builtin::Eval)
    } else if same_text(name, "CONS") {
        Some(Builtin::Cons)
    } else {
        None
    }
}

/// What a form evaluates to, and the world after it.
///
/// A number, a string and the two singletons are their own value. A symbol
/// is the value bound to it in `env`, or `Nil`. A list without elements, and
/// one whose first element is the empty value, is `Nil`. Any other list is a
/// call. A procedure by itself is no call. `depth` is how deep `EVAL` may
/// still be nested.
pub open spec fn eval_form(
    m: FloatModel,
    v: Form,
    env: Seq<(Seq<char>, Form)>,
    w: World,
    depth: nat,
) -> Outcome
    decreases depth, v, 0nat,
{
    match v {
        Form::List(l) => if l.len() == 0 || is_empty(l[0]) {
            done(Form::Nil, w)
        } else {
            apply_form(m, v, env, w, depth)
        },
        Form::Lambda(_, _) => failed(LispError::NotCallable, w),
        Form::Symbol(s) => done(lookup(s, env), w),
        _ => done(v, w),
    }
}

/// What a call form gives: its first element applied to the elements after it.
///
/// A call needs at least one argument. A symbol in first place is applied as
/// the built-in that it names; a procedure gives `Nil`; anything else
/// cannot be called. What is no list, or an empty one, is no call.
pub open spec fn apply_form(
    m: FloatModel,
    v: Form,
    env: Seq<(Seq<char>, Form)>,
    w: World,
    depth: nat,
) -> Outcome
    decreases depth, items(v), 6nat,
{
    match v {
        Form::List(l) => if l.len() == 0 {
            failed(LispError::EmptyList, w)
        } else if l.len() < 2 {
            failed(LispError::MissingArgument, w)
        } else {
            match l[0] {
                Form::Symbol(_) => apply_atom_form(m, l[0], Form::List(l.skip(1)), env, w, depth),
                Form::Lambda(_, _) => done(Form::Nil, w),
                _ => failed(LispError::NotCallable, w),
            }
        },
        _ => failed(LispError::NotCallable, w),
    }
}

/// What a symbol applied to an argument list gives: the result of the
/// built-in that it names, and `Nil` where it names none.
pub open spec fn apply_atom_form(
    m: FloatModel,
    f: Form,
    args: Form,
    env: Seq<(Seq<char>, Form)>,
    w: World,
    depth: nat,
) -> Outcome
    decreases depth, items(args), 5nat,
{
    match f {
        Form::Symbol(s) => match builtin_named(s) {
            Some(Builtin::Quote) => Outcome { result: quote_spec(args), world: w },
            Some(Builtin::Car) => car_spec(m, args, env, w, depth),
            Some(Builtin::Cdr) => cdr_spec(m, args, env, w, depth),
            Some(Builtin::Setq) => setq_spec(m, args, env, w, depth),
            Some(Builtin::Equal) => equal_spec(m, args, env, w, depth),
            Some(Builtin::Atom) => atom_spec(m, args, env, w, depth),
            Some(Builtin::Listp) => listp_spec(m, args, env, w, depth),
            Some(Builtin::Null) => null_spec(m, args, env, w, depth),
            Some(Builtin::Floor) => floor_spec(m, args, env, w, depth),
            Some(Builtin::Add) => add_spec(m, args, env, w, depth),
            Some(Builtin::Subtract) => subtract_spec(m, args, env, w, depth),
            Some(Builtin::Multiply) => multiply_spec(m, args, env, w, depth),
            Some(Builtin::Divide) => divide_spec(m, args, env, w, depth),
            Some(Builtin::Modulo) => modulo_spec(m, args, env, w, depth),
            Some(Builtin::Print) => print_spec(m, args, env, w, depth),
            Some(Builtin::Eval) => eval_spec(m, args, env, w, depth),
            Some(Builtin::Cons) => cons_spec(m, args, env, w, depth),
            None => done(Form::Nil, w),
        },
        _ => failed(LispError::NotCallable, w),
    }
}

/// Looks a name up in an association list: the binding made last wins, and
/// a name without a binding gives `Nil`.
pub fn assoc(v: String, alist: Vec<(String, Sexpr)>) -> (r: Sexpr)
    ensures
        r@ == lookup(v@, bindings(alist@)),
{
    let mut i: usize = alist.len();
    assert(bindings(alist@).take(i as int) =~= bindings(alist@));
    while i > 0
        invariant
            i <= alist.len(),
            lookup(v@, bindings(alist@)) == lookup(v@, bindings(alist@).take(i as int)),
        decreases i,
    {
        assert(bindings(alist@).take(i as int).drop_last() =~= bindings(alist@).take(i - 1));
        assert(bindings(alist@).take(i as int).last() == (alist[i - 1].0@, alist[i - 1].1@));
        if alist[i - 1].0 == v {
            return alist[i - 1].1.clone();
        }
        i -= 1;
    }
    Sexpr::Nil
}

/// Evaluates an atom: a symbol is looked up, anything else is its own value.
pub fn eval_atom(v: Sexpr, alist: Vec<(String, Sexpr)>) -> (r: Sexpr)
    ensures
        r@ == match v@ {
            Form::Symbol(s) => lookup(s, bindings(alist@)),
            _ => v@,
        },
{
    match v {
        Sexpr::Symbol(s) => assoc(s, alist),
        _ => v,
    }
}

/// Tells whether an expression is the empty value.
pub fn is_empty_value(v: &Sexpr) -> (r: bool)
    ensures
        r == is_empty(v@),
{
    match v {
        Sexpr::Nil => true,
        Sexpr::List(l) => {
            assert(views(l@).len() == l.len());
            l.len() == 0
        },
        _ => false,
    }
}

/// The elements of a list after the first.
pub fn rest_of(l: &Vec<Sexpr>) -> (r: Vec<Sexpr>)
    requires
        l.len() >= 1,
    ensures
        views(r@) == views(l@).skip(1),
{
    let mut out: Vec<Sexpr> = Vec::new();
    let mut i: usize = 1;
    while i < l.len()
        invariant
            1 <= i <= l.len(),
            out.len() == i - 1,
            forall|k: int| 0 <= k < out.len() ==> out[k]@ == l[k + 1]@,
        decreases l.len() - i,
    {
        out.push(l[i].clone());
        i += 1;
    }
    assert(views(out@) =~= views(l@).skip(1));
    out
}

/// Evaluates an expression against an association list.
///
/// `session` holds the global bindings and takes what is printed; `depth` is
/// how deep `EVAL` may be nested; `floats` does the arithmetic on doubles.
///
/// Where `floats` computes a function of its arguments, the result and the
/// session afterwards are those of [`eval_form`] under that function.
/// Whatever `floats` computes, the session only grows, and stays in order.
pub fn evaluate<F: Fn(ArithOp, Number, Number) -> u64>(
    v: Sexpr,
    alist: Vec<(String, Sexpr)>,
    session: &mut Session,
    depth: usize,
    floats: &F,
) -> (r: Result<Sexpr, LispError>)
    requires
        total(*floats),
    ensures
        forall|m: FloatModel| #[trigger]
            computes(*floats, m) ==> outcome_of(r, final(session)@) == eval_form(
                m,
                v@,
                bindings(alist@),
                old(session)@,
                depth as nat,
            ),
        grown(old(session)@, final(session)@),
        old(session).well_formed() ==> final(session).well_formed(),
    decreases depth, v@, 0nat,
{
    proof {
        lemma_unchanged_has_grown(session@);
    }
    let call = match &v {
        Sexpr::List(l) => {
            assert(views(l@).len() == l.len());
            if l.len() == 0 {
                false
            } else {
                !is_empty_value(&l[0])
            }
        },
        _ => false,
    };
    if call {
        let r = apply(v, alist, session, depth, floats);
        proof {
            if old(session).well_formed() {
                lemma_grown_keeps_nil_unbound(old(session)@, session@);
            }
        }
        return r;
    }
    match v {
        Sexpr::List(_) => Ok(Sexpr::Nil),
        Sexpr::Lambda(_, _) => Err(LispError::NotCallable),
        other => Ok(eval_atom(other, alist)),
    }
}

/// Applies the first element of a list to the elements after it.
pub fn apply<F: Fn(ArithOp, Number, Number) -> u64>(
    v: Sexpr,
    alist: Vec<(String, Sexpr)>,
    session: &mut Session,
    depth: usize,
    floats: &F,
) -> (r: Result<Sexpr, LispError>)
    requires
        total(*floats),
    ensures
        forall|m: FloatModel| #[trigger]
            computes(*floats, m) ==> outcome_of(r, final(session)@) == apply_form(
                m,
                v@,
                bindings(alist@),
                old(session)@,
                depth as nat,
            ),
        grown(old(session)@, final(session)@),
    decreases depth, items(v@), 6nat,
{
    proof {
        lemma_unchanged_has_grown(session@);
    }
    match v {
        Sexpr::List(l) => {
            assert(views(l@).len() == l.len());
            if l.len() == 0 {
                return Err(LispError::EmptyList);
            }
            if l.len() < 2 {
                return Err(LispError::MissingArgument);
            }
            let f = l[0].clone();
            let args = Sexpr::List(rest_of(&l));
            match f {
                Sexpr::Symbol(_) => apply_atom(f, args, alist, session, depth, floats),
                Sexpr::Lambda(_, _) => apply_lambda(f, args, alist),
                _ => Err(LispError::NotCallable),
            }
        },
        _ => Err(LispError::NotCallable),
    }
}

/// Applies a procedure to an argument list. Procedures have no body that is
/// run yet: the result is `Nil`.
pub fn apply_lambda(f: Sexpr, args: Sexpr, alist: Vec<(String, Sexpr)>) -> (r: Result<
    Sexpr,
    LispError,
>)
    ensures
        result_of(r) == Ok::<Form, LispError>(Form::Nil),
{
    Ok(Sexpr::Nil)
}

/// Applies the built-in that a symbol names to an argument list.
pub fn apply_atom<F: Fn(ArithOp, Number, Number) -> u64>(
    f: Sexpr,
    args: Sexpr,
    alist: Vec<(String, Sexpr)>,
    session: &mut Session,
    depth: usize,
    floats: &F,
) -> (r: Result<Sexpr, LispError>)
    requires
        total(*floats),
    ensures
        forall|m: FloatModel| #[trigger]
            computes(*floats, m) ==> outcome_of(r, final(session)@) == apply_atom_form(
                m,
                f@,
                args@,
                bindings(alist@),
                old(session)@,
                depth as nat,
            ),
        grown(old(session)@, final(session)@),
    decreases depth, items(args@), 5nat,
{
    proof {
        lemma_unchanged_has_grown(session@);
    }
    match f {
        Sexpr::Symbol(s) => match find_builtin(s.as_str()) {
            Some(Builtin::Quote) => quote(args),
            Some(Builtin::Car) => car(args, alist, session, depth, floats),
            Some(Builtin::Cdr) => cdr(args, alist, session, depth, floats),
            Some(Builtin::Setq) => setq(args, alist, session, depth, floats),
            Some(Builtin::Equal) => equal(args, alist, session, depth, floats),
            Some(Builtin::Atom) => atom(args, alist, session, depth, floats),
            Some(Builtin::Listp) => listp(args, alist, session, depth, floats),
            Some(Builtin::Null) => null(args, alist, session, depth, floats),
            Some(Builtin::Floor) => floor(args, alist, session, depth, floats),
            Some(Builtin::Add) => crate::lisp::add(args, alist, session, depth, floats),
            Some(Builtin::Subtract) => subtract(args, alist, session, depth, floats),
            Some(Builtin::Multiply) => multiply(args, alist, session, depth, floats),
            Some(Builtin::Divide) => divide(args, alist, session, depth, floats),
            Some(Builtin::Modulo) => modulo(args, alist, session, depth, floats),
            Some(Builtin::Print) => print(args, alist, session, depth, floats),
            Some(Builtin::Eval) => eval(args, alist, session, depth, floats),
            Some(Builtin::Cons) => cons(args, alist, session, depth, floats),
            None => Ok(Sexpr::Nil),
        },
        _ => Err(LispError::NotCallable),
    }
}

} // verus!
