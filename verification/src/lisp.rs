//! The built-in procedures.
//!
//! Each built-in is given its arguments as they stand in the call, evaluates
//! those it needs, and computes its result from their values.
use crate::arith::{int_arith, integer_arith};
use crate::error::LispError;
use crate::eval::{
    computes, done, eval_form, evaluate, failed, grown, is_empty, is_empty_value,
    is_reserved_name, items, lemma_grown_twice, lemma_unchanged_has_grown, outcome_of, rest_of,
    result_of, total, FloatModel, Outcome, Session, World,
};
use crate::float::{float_trunc, truncate, ArithOp, Number};
use crate::sexpr::{bindings, clone_alist, equal_sexprs, forms_equal, views, Form, Sexpr};
use vstd::prelude::*;

verus! {

/// The value of the first argument of a built-in, and the world after it.
/// The arguments must be a list with at least one element.
pub open spec fn first_value(
    m: FloatModel,
    args: Form,
    env: Seq<(Seq<char>, Form)>,
    w: World,
    depth: nat,
) -> Outcome
    decreases depth, items(args), 0nat,
{
    match args {
        Form::List(l) => if l.len() == 0 {
            failed(LispError::MissingArgument, w)
        } else {
            eval_form(m, l[0], env, w, depth)
        },
        _ => failed(LispError::ArgumentsNotList, w),
    }
}

/// The value of the second argument of a built-in, and the world after it.
/// The arguments must be a list with at least two elements.
pub open spec fn second_value(
    m: FloatModel,
    args: Form,
    env: Seq<(Seq<char>, Form)>,
    w: World,
    depth: nat,
) -> Outcome
    decreases depth, items(args), 0nat,
{
    match args {
        Form::List(l) => if l.len() < 2 {
            failed(LispError::MissingArgument, w)
        } else {
            eval_form(m, l[1], env, w, depth)
        },
        _ => failed(LispError::ArgumentsNotList, w),
    }
}

/// `QUOTE`: the first argument as it stands, not evaluated.
pub open spec fn quote_spec(args: Form) -> Result<Form, LispError> {
    match args {
        Form::List(l) => if l.len() == 0 {
            Err(LispError::MissingArgument)
        } else {
            Ok(l[0])
        },
        _ => Err(LispError::ArgumentsNotList),
    }
}

/// The first element of a list; of an empty list and of what is no list, an
/// error.
pub open spec fn car_of(x: Form) -> Result<Form, LispError> {
    match x {
        Form::List(l) => if l.len() == 0 {
            Err(LispError::EmptyList)
        } else {
            Ok(l[0])
        },
        _ => Err(LispError::NotAList),
    }
}

/// A list without its first element; of an empty list and of what is no
/// list, an error.
pub open spec fn cdr_of(x: Form) -> Result<Form, LispError> {
    match x {
        Form::List(l) => if l.len() == 0 {
            Err(LispError::EmptyList)
        } else {
            Ok(Form::List(l.skip(1)))
        },
        _ => Err(LispError::NotAList),
    }
}

/// `T` or `Nil`, for true or false.
pub open spec fn truth(b: bool) -> Form {
    if b {
        Form::T
    } else {
        Form::Nil
    }
}

/// `T` unless the value is a list.
pub open spec fn atom_of(x: Form) -> Form {
    truth(!(x is List))
}

/// `T` where the value is a list or `Nil`.
pub open spec fn listp_of(x: Form) -> Form {
    truth(x is List || x is Nil)
}

/// `T` where the value is the empty value.
pub open spec fn null_of(x: Form) -> Form {
    truth(is_empty(x))
}

/// An integer as it is, a float cut off toward zero; of what is no number,
/// an error.
pub open spec fn floor_of(x: Form) -> Result<Form, LispError> {
    match x {
        Form::Integer(i) => Ok(Form::Integer(i)),
        Form::Float(bits) => Ok(Form::Integer(float_trunc(bits) as i64)),
        _ => Err(LispError::NotANumber),
    }
}

/// `T` where the two values are structurally equal.
pub open spec fn equal_of(x: Form, y: Form) -> Form {
    truth(forms_equal(x, y))
}

/// `x` put before the elements of `y` where `y` is a list, else the list of
/// `x` and `y`.
pub open spec fn cons_of(x: Form, y: Form) -> Form {
    match y {
        Form::List(l) => Form::List(seq![x] + l),
        _ => Form::List(seq![x, y]),
    }
}

/// The number that a form is, if it is one.
pub open spec fn number_of(x: Form) -> Option<Number> {
    match x {
        Form::Integer(i) => Some(Number::Integer(i)),
        Form::Float(bits) => Some(Number::Float(bits)),
        _ => None,
    }
}

/// What an arithmetic operation gives on two values.
///
/// Two integers give an integer, or fail where a quotient does not exist.
/// Where at least one of two numbers is a float, the result is the float
/// that the model gives for the operation on them in this order. Anything
/// that is no number is an error.
pub open spec fn arith_of(m: FloatModel, op: ArithOp, x: Form, y: Form) -> Result<Form, LispError> {
    match (number_of(x), number_of(y)) {
        (Some(Number::Integer(a)), Some(Number::Integer(b))) => match int_arith(op, a, b) {
            Ok(i) => Ok(Form::Integer(i)),
            Err(e) => Err(e),
        },
        (Some(a), Some(b)) => Ok(Form::Float(m(op, a, b))),
        _ => Err(LispError::NotANumber),
    }
}

/// The outcome of a built-in that has evaluated an argument, with outcome
/// `r`, and then computed `then` from its value: `then`, in the world that
/// the argument left.
pub open spec fn after(r: Outcome, then: Result<Form, LispError>) -> Outcome {
    Outcome { result: then, world: r.world }
}

/// `CAR`: the first element of the value of the first argument.
pub open spec fn car_spec(
    m: FloatModel,
    args: Form,
    env: Seq<(Seq<char>, Form)>,
    w: World,
    depth: nat,
) -> Outcome
    decreases depth, items(args), 1nat,
{
    let r = first_value(m, args, env, w, depth);
    match r.result {
        Ok(x) => after(r, car_of(x)),
        Err(_) => r,
    }
}

/// `CDR`: the value of the first argument without its first element.
pub open spec fn cdr_spec(
    m: FloatModel,
    args: Form,
    env: Seq<(Seq<char>, Form)>,
    w: World,
    depth: nat,
) -> Outcome
    decreases depth, items(args), 1nat,
{
    let r = first_value(m, args, env, w, depth);
    match r.result {
        Ok(x) => after(r, cdr_of(x)),
        Err(_) => r,
    }
}

/// `ATOM`: whether the value of the first argument is no list.
pub open spec fn atom_spec(
    m: FloatModel,
    args: Form,
    env: Seq<(Seq<char>, Form)>,
    w: World,
    depth: nat,
) -> Outcome
    decreases depth, items(args), 1nat,
{
    let r = first_value(m, args, env, w, depth);
    match r.result {
        Ok(x) => after(r, Ok(atom_of(x))),
        Err(_) => r,
    }
}

/// `LISTP`: whether the value of the first argument is a list or `Nil`.
pub open spec fn listp_spec(
    m: FloatModel,
    args: Form,
    env: Seq<(Seq<char>, Form)>,
    w: World,
    depth: nat,
) -> Outcome
    decreases depth, items(args), 1nat,
{
    let r = first_value(m, args, env, w, depth);
    match r.result {
        Ok(x) => after(r, Ok(listp_of(x))),
        Err(_) => r,
    }
}

/// `NULL`: whether the value of the first argument is the empty value.
pub open spec fn null_spec(
    m: FloatModel,
    args: Form,
    env: Seq<(Seq<char>, Form)>,
    w: World,
    depth: nat,
) -> Outcome
    decreases depth, items(args), 1nat,
{
    let r = first_value(m, args, env, w, depth);
    match r.result {
        Ok(x) => after(r, Ok(null_of(x))),
        Err(_) => r,
    }
}

/// `FLOOR`: the value of the first argument as an integer.
pub open spec fn floor_spec(
    m: FloatModel,
    args: Form,
    env: Seq<(Seq<char>, Form)>,
    w: World,
    depth: nat,
) -> Outcome
    decreases depth, items(args), 1nat,
{
    let r = first_value(m, args, env, w, depth);
    match r.result {
        Ok(x) => after(r, floor_of(x)),
        Err(_) => r,
    }
}

/// `PRINT`: the value of the first argument goes to the output, and the
/// result is the empty string.
pub open spec fn print_spec(
    m: FloatModel,
    args: Form,
    env: Seq<(Seq<char>, Form)>,
    w: World,
    depth: nat,
) -> Outcome
    decreases depth, items(args), 1nat,
{
    let r = first_value(m, args, env, w, depth);
    match r.result {
        Ok(x) => done(
            Form::String(Seq::empty()),
            World { globals: r.world.globals, output: r.world.output.push(x) },
        ),
        Err(_) => r,
    }
}

/// `EVAL`: the value of the first argument, evaluated once more, one level
/// deeper. At depth zero there is no deeper level.
pub open spec fn eval_spec(
    m: FloatModel,
    args: Form,
    env: Seq<(Seq<char>, Form)>,
    w: World,
    depth: nat,
) -> Outcome
    decreases depth, items(args), 1nat,
{
    let r = first_value(m, args, env, w, depth);
    match r.result {
        Ok(x) => if depth == 0 {
            failed(LispError::DepthExceeded, r.world)
        } else {
            eval_form(m, x, env, r.world, (depth - 1) as nat)
        },
        Err(_) => r,
    }
}

/// The values of the first two arguments, the first evaluated first, and
/// the world after both; or the first failure.
pub open spec fn two_values(
    m: FloatModel,
    args: Form,
    env: Seq<(Seq<char>, Form)>,
    w: World,
    depth: nat,
) -> (Result<(Form, Form), LispError>, World)
    decreases depth, items(args), 1nat,
{
    let first = first_value(m, args, env, w, depth);
    match first.result {
        Ok(x) => {
            let second = second_value(m, args, env, first.world, depth);
            match second.result {
                Ok(y) => (Ok((x, y)), second.world),
                Err(e) => (Err(e), second.world),
            }
        },
        Err(e) => (Err(e), first.world),
    }
}

/// `EQUAL`: whether the values of the first two arguments are structurally
/// equal.
pub open spec fn equal_spec(
    m: FloatModel,
    args: Form,
    env: Seq<(Seq<char>, Form)>,
    w: World,
    depth: nat,
) -> Outcome
    decreases depth, items(args), 2nat,
{
    let (r, world) = two_values(m, args, env, w, depth);
    match r {
        Ok((x, y)) => done(equal_of(x, y), world),
        Err(e) => failed(e, world),
    }
}

/// `CONS`: the value of the first argument put before that of the second.
pub open spec fn cons_spec(
    m: FloatModel,
    args: Form,
    env: Seq<(Seq<char>, Form)>,
    w: World,
    depth: nat,
) -> Outcome
    decreases depth, items(args), 2nat,
{
    let (r, world) = two_values(m, args, env, w, depth);
    match r {
        Ok((x, y)) => done(cons_of(x, y), world),
        Err(e) => failed(e, world),
    }
}

/// An arithmetic built-in: the operation on the values of the first two
/// arguments.
pub open spec fn arith_spec(
    m: FloatModel,
    op: ArithOp,
    args: Form,
    env: Seq<(Seq<char>, Form)>,
    w: World,
    depth: nat,
) -> Outcome
    decreases depth, items(args), 2nat,
{
    let (r, world) = two_values(m, args, env, w, depth);
    match r {
        Ok((x, y)) => Outcome { result: arith_of(m, op, x, y), world },
        Err(e) => failed(e, world),
    }
}

/// `+`: the sum of the values of the first two arguments.
pub open spec fn add_spec(
    m: FloatModel,
    args: Form,
    env: Seq<(Seq<char>, Form)>,
    w: World,
    depth: nat,
) -> Outcome
    decreases depth, items(args), 3nat,
{
    arith_spec(m, ArithOp::Add, args, env, w, depth)
}

/// `-`: the value of the first argument less that of the second.
pub open spec fn subtract_spec(
    m: FloatModel,
    args: Form,
    env: Seq<(Seq<char>, Form)>,
    w: World,
    depth: nat,
) -> Outcome
    decreases depth, items(args), 3nat,
{
    arith_spec(m, ArithOp::Sub, args, env, w, depth)
}

/// `*`: the product of the values of the first two arguments.
pub open spec fn multiply_spec(
    m: FloatModel,
    args: Form,
    env: Seq<(Seq<char>, Form)>,
    w: World,
    depth: nat,
) -> Outcome
    decreases depth, items(args), 3nat,
{
    arith_spec(m, ArithOp::Mul, args, env, w, depth)
}

/// `/`: the value of the first argument divided by that of the second.
pub open spec fn divide_spec(
    m: FloatModel,
    args: Form,
    env: Seq<(Seq<char>, Form)>,
    w: World,
    depth: nat,
) -> Outcome
    decreases depth, items(args), 3nat,
{
    arith_spec(m, ArithOp::Div, args, env, w, depth)
}

/// `MOD`: the remainder of the value of the first argument divided by that
/// of the second.
pub open spec fn modulo_spec(
    m: FloatModel,
    args: Form,
    env: Seq<(Seq<char>, Form)>,
    w: World,
    depth: nat,
) -> Outcome
    decreases depth, items(args), 3nat,
{
    arith_spec(m, ArithOp::Rem, args, env, w, depth)
}

/// Whether a form names the reserved `NIL`: the symbol of that name, or the
/// empty singleton that the parser makes of it.
pub open spec fn is_reserved(target: Form) -> bool {
    target is Nil || (target is Symbol && is_reserved_name(target->Symbol_0))
}

/// `SETQ`: binds the value of the second argument to the symbol that the
/// first argument is, at the end of the global bindings, and gives the value.
///
/// Both arguments must be there before the second is evaluated. After that
/// the first must be a symbol, and not the reserved `NIL`.
pub open spec fn setq_spec(
    m: FloatModel,
    args: Form,
    env: Seq<(Seq<char>, Form)>,
    w: World,
    depth: nat,
) -> Outcome
    decreases depth, items(args), 1nat,
{
    match args {
        Form::List(l) => if l.len() < 2 {
            failed(LispError::MissingArgument, w)
        } else {
            let r = second_value(m, args, env, w, depth);
            match r.result {
                Ok(value) => if is_reserved(l[0]) {
                    failed(LispError::ReservedName, r.world)
                } else {
                    match l[0] {
                        Form::Symbol(name) => done(
                            value,
                            World {
                                globals: r.world.globals.push((name, value)),
                                output: r.world.output,
                            },
                        ),
                        _ => failed(LispError::NotASymbol, r.world),
                    }
                },
                Err(_) => r,
            }
        },
        _ => failed(LispError::ArgumentsNotList, w),
    }
}

/// Evaluates the first argument of a built-in.
pub fn first_argument<F: Fn(ArithOp, Number, Number) -> u64>(
    args: &Sexpr,
    alist: &Vec<(String, Sexpr)>,
    session: &mut Session,
    depth: usize,
    floats: &F,
) -> (r: Result<Sexpr, LispError>)
    requires
        total(*floats),
    ensures
        forall|m: FloatModel| #[trigger]
            computes(*floats, m) ==> outcome_of(r, final(session)@) == first_value(
                m,
                args@,
                bindings(alist@),
                old(session)@,
                depth as nat,
            ),
        grown(old(session)@, final(session)@),
    decreases depth, items(args@), 0nat,
{
    proof {
        lemma_unchanged_has_grown(session@);
    }
    match args {
        Sexpr::List(l) => {
            assert(views(l@).len() == l.len());
            if l.len() == 0 {
                Err(LispError::MissingArgument)
            } else {
                evaluate(l[0].clone(), clone_alist(alist), session, depth, floats)
            }
        },
        _ => Err(LispError::ArgumentsNotList),
    }
}

/// Evaluates the second argument of a built-in.
pub fn second_argument<F: Fn(ArithOp, Number, Number) -> u64>(
    args: &Sexpr,
    alist: &Vec<(String, Sexpr)>,
    session: &mut Session,
    depth: usize,
    floats: &F,
) -> (r: Result<Sexpr, LispError>)
    requires
        total(*floats),
    ensures
        forall|m: FloatModel| #[trigger]
            computes(*floats, m) ==> outcome_of(r, final(session)@) == second_value(
                m,
                args@,
                bindings(alist@),
                old(session)@,
                depth as nat,
            ),
        grown(old(session)@, final(session)@),
    decreases depth, items(args@), 0nat,
{
    proof {
        lemma_unchanged_has_grown(session@);
    }
    match args {
        Sexpr::List(l) => {
            assert(views(l@).len() == l.len());
            if l.len() < 2 {
                Err(LispError::MissingArgument)
            } else {
                evaluate(l[1].clone(), clone_alist(alist), session, depth, floats)
            }
        },
        _ => Err(LispError::ArgumentsNotList),
    }
}

/// Two values that a call returned, as forms.
pub open spec fn pair_of(r: Result<(Sexpr, Sexpr), LispError>) -> Result<(Form, Form), LispError> {
    match r {
        Ok((x, y)) => Ok((x@, y@)),
        Err(e) => Err(e),
    }
}

/// Evaluates the first two arguments of a built-in, in their order.
pub fn two_arguments<F: Fn(ArithOp, Number, Number) -> u64>(
    args: &Sexpr,
    alist: &Vec<(String, Sexpr)>,
    session: &mut Session,
    depth: usize,
    floats: &F,
) -> (r: Result<(Sexpr, Sexpr), LispError>)
    requires
        total(*floats),
    ensures
        forall|m: FloatModel| #[trigger]
            computes(*floats, m) ==> (pair_of(r), final(session)@) == two_values(
                m,
                args@,
                bindings(alist@),
                old(session)@,
                depth as nat,
            ),
        grown(old(session)@, final(session)@),
    decreases depth, items(args@), 1nat,
{
    proof {
        lemma_unchanged_has_grown(session@);
    }
    let x = match first_argument(args, alist, session, depth, floats) {
        Ok(x) => x,
        Err(e) => {
            return Err(e);
        },
    };
    let ghost between = session@;
    let second = second_argument(args, alist, session, depth, floats);
    proof {
        lemma_grown_twice(old(session)@, between, session@);
    }
    match second {
        Ok(y) => Ok((x, y)),
        Err(e) => Err(e),
    }
}

/// `QUOTE`: returns the first argument as it stands.
pub fn quote(args: Sexpr) -> (r: Result<Sexpr, LispError>)
    ensures
        result_of(r) == quote_spec(args@),
{
    match args {
        Sexpr::List(l) => {
            assert(views(l@).len() == l.len());
            if l.len() == 0 {
                Err(LispError::MissingArgument)
            } else {
                Ok(l[0].clone())
            }
        },
        _ => Err(LispError::ArgumentsNotList),
    }
}

/// The first element of a list.
pub fn first_of(x: Sexpr) -> (r: Result<Sexpr, LispError>)
    ensures
        result_of(r) == car_of(x@),
{
    match x {
        Sexpr::List(l) => {
            assert(views(l@).len() == l.len());
            if l.len() == 0 {
                Err(LispError::EmptyList)
            } else {
                Ok(l[0].clone())
            }
        },
        _ => Err(LispError::NotAList),
    }
}

/// `CAR`: the first element of the list that the first argument evaluates to.
pub fn car<F: Fn(ArithOp, Number, Number) -> u64>(
    args: Sexpr,
    alist: Vec<(String, Sexpr)>,
    session: &mut Session,
    depth: usize,
    floats: &F,
) -> (r: Result<Sexpr, LispError>)
    requires
        total(*floats),
    ensures
        forall|m: FloatModel| #[trigger]
            computes(*floats, m) ==> outcome_of(r, final(session)@) == car_spec(
                m,
                args@,
                bindings(alist@),
                old(session)@,
                depth as nat,
            ),
        grown(old(session)@, final(session)@),
    decreases depth, items(args@), 1nat,
{
    proof {
        lemma_unchanged_has_grown(session@);
    }
    match first_argument(&args, &alist, session, depth, floats) {
        Ok(x) => first_of(x),
        Err(e) => Err(e),
    }
}

/// A list without its first element.
pub fn rest_after_first(x: Sexpr) -> (r: Result<Sexpr, LispError>)
    ensures
        result_of(r) == cdr_of(x@),
{
    match x {
        Sexpr::List(l) => {
            assert(views(l@).len() == l.len());
            if l.len() == 0 {
                Err(LispError::EmptyList)
            } else {
                Ok(Sexpr::List(rest_of(&l)))
            }
        },
        _ => Err(LispError::NotAList),
    }
}

/// `T` for true and `Nil` for false.
pub fn truth_value(b: bool) -> (r: Sexpr)
    ensures
        r@ == truth(b),
{
    if b {
        Sexpr::T
    } else {
        Sexpr::Nil
    }
}

/// Tells whether a value is no list.
pub fn is_atom(x: &Sexpr) -> (r: Sexpr)
    ensures
        r@ == atom_of(x@),
{
    match x {
        Sexpr::List(_) => Sexpr::Nil,
        _ => Sexpr::T,
    }
}

/// Tells whether a value is a list or `Nil`.
pub fn is_list_value(x: &Sexpr) -> (r: Sexpr)
    ensures
        r@ == listp_of(x@),
{
    match x {
        Sexpr::List(_) => Sexpr::T,
        Sexpr::Nil => Sexpr::T,
        _ => Sexpr::Nil,
    }
}

/// An integer as it is, a float cut off toward zero.
pub fn floor_value(x: &Sexpr) -> (r: Result<Sexpr, LispError>)
    ensures
        result_of(r) == floor_of(x@),
{
    match x {
        Sexpr::Integer(i) => Ok(Sexpr::Integer(*i)),
        Sexpr::Float(bits) => Ok(Sexpr::Integer(truncate(*bits))),
        _ => Err(LispError::NotANumber),
    }
}

/// Puts `x` before the elements of `y` where `y` is a list, and makes the
/// list of the two where it is not.
pub fn cons_values(x: Sexpr, y: Sexpr) -> (r: Sexpr)
    ensures
        r@ == cons_of(x@, y@),
{
    match y {
        Sexpr::List(mut l) => {
            let ghost tail = l@;
            l.insert(0, x);
            assert(l@ =~= seq![x] + tail);
            assert(views(l@) =~= seq![x@] + views(tail));
            Sexpr::List(l)
        },
        other => {
            let mut l: Vec<Sexpr> = Vec::new();
            l.push(x);
            l.push(other);
            assert(views(l@) =~= seq![x@, y@]);
            Sexpr::List(l)
        },
    }
}

/// The number that a value is, if it is one.
pub fn as_number(x: &Sexpr) -> (r: Option<Number>)
    ensures
        r == number_of(x@),
{
    match x {
        Sexpr::Integer(i) => Some(Number::Integer(*i)),
        Sexpr::Float(bits) => Some(Number::Float(*bits)),
        _ => None,
    }
}

/// Applies an arithmetic operation to two values: in integers where both
/// are integers, else through `floats`.
pub fn arith_values<F: Fn(ArithOp, Number, Number) -> u64>(
    op: ArithOp,
    x: &Sexpr,
    y: &Sexpr,
    floats: &F,
) -> (r: Result<Sexpr, LispError>)
    requires
        total(*floats),
    ensures
        forall|m: FloatModel| #[trigger]
            computes(*floats, m) ==> result_of(r) == arith_of(m, op, x@, y@),
{
    match (as_number(x), as_number(y)) {
        (Some(Number::Integer(a)), Some(Number::Integer(b))) => match integer_arith(op, a, b) {
            Ok(i) => Ok(Sexpr::Integer(i)),
            Err(e) => Err(e),
        },
        (Some(a), Some(b)) => Ok(Sexpr::Float(floats(op, a, b))),
        _ => Err(LispError::NotANumber),
    }
}

/// `CDR`: the list that the first argument evaluates to, without its first element.
pub fn cdr<F: Fn(ArithOp, Number, Number) -> u64>(
    args: Sexpr,
    alist: Vec<(String, Sexpr)>,
    session: &mut Session,
    depth: usize,
    floats: &F,
) -> (r: Result<Sexpr, LispError>)
    requires
        total(*floats),
    ensures
        forall|m: FloatModel| #[trigger]
            computes(*floats, m) ==> outcome_of(r, final(session)@) == cdr_spec(
                m,
                args@,
                bindings(alist@),
                old(session)@,
                depth as nat,
            ),
        grown(old(session)@, final(session)@),
    decreases depth, items(args@), 1nat,
{
    proof {
        lemma_unchanged_has_grown(session@);
    }
    match first_argument(&args, &alist, session, depth, floats) {
        Ok(x) => rest_after_first(x),
        Err(e) => Err(e),
    }
}

/// `ATOM`: `T` unless the first argument evaluates to a list.
pub fn atom<F: Fn(ArithOp, Number, Number) -> u64>(
    args: Sexpr,
    alist: Vec<(String, Sexpr)>,
    session: &mut Session,
    depth: usize,
    floats: &F,
) -> (r: Result<Sexpr, LispError>)
    requires
        total(*floats),
    ensures
        forall|m: FloatModel| #[trigger]
            computes(*floats, m) ==> outcome_of(r, final(session)@) == atom_spec(
                m,
                args@,
                bindings(alist@),
                old(session)@,
                depth as nat,
            ),
        grown(old(session)@, final(session)@),
    decreases depth, items(args@), 1nat,
{
    proof {
        lemma_unchanged_has_grown(session@);
    }
    match first_argument(&args, &alist, session, depth, floats) {
        Ok(x) => Ok(is_atom(&x)),
        Err(e) => Err(e),
    }
}

/// `LISTP`: `T` where the first argument evaluates to a list or to `Nil`.
pub fn listp<F: Fn(ArithOp, Number, Number) -> u64>(
    args: Sexpr,
    alist: Vec<(String, Sexpr)>,
    session: &mut Session,
    depth: usize,
    floats: &F,
) -> (r: Result<Sexpr, LispError>)
    requires
        total(*floats),
    ensures
        forall|m: FloatModel| #[trigger]
            computes(*floats, m) ==> outcome_of(r, final(session)@) == listp_spec(
                m,
                args@,
                bindings(alist@),
                old(session)@,
                depth as nat,
            ),
        grown(old(session)@, final(session)@),
    decreases depth, items(args@), 1nat,
{
    proof {
        lemma_unchanged_has_grown(session@);
    }
    match first_argument(&args, &alist, session, depth, floats) {
        Ok(x) => Ok(is_list_value(&x)),
        Err(e) => Err(e),
    }
}

/// `NULL`: `T` where the first argument evaluates to the empty value.
pub fn null<F: Fn(ArithOp, Number, Number) -> u64>(
    args: Sexpr,
    alist: Vec<(String, Sexpr)>,
    session: &mut Session,
    depth: usize,
    floats: &F,
) -> (r: Result<Sexpr, LispError>)
    requires
        total(*floats),
    ensures
        forall|m: FloatModel| #[trigger]
            computes(*floats, m) ==> outcome_of(r, final(session)@) == null_spec(
                m,
                args@,
                bindings(alist@),
                old(session)@,
                depth as nat,
            ),
        grown(old(session)@, final(session)@),
    decreases depth, items(args@), 1nat,
{
    proof {
        lemma_unchanged_has_grown(session@);
    }
    match first_argument(&args, &alist, session, depth, floats) {
        Ok(x) => Ok(truth_value(is_empty_value(&x))),
        Err(e) => Err(e),
    }
}

/// `FLOOR`: the number that the first argument evaluates to, as an integer.
pub fn floor<F: Fn(ArithOp, Number, Number) -> u64>(
    args: Sexpr,
    alist: Vec<(String, Sexpr)>,
    session: &mut Session,
    depth: usize,
    floats: &F,
) -> (r: Result<Sexpr, LispError>)
    requires
        total(*floats),
    ensures
        forall|m: FloatModel| #[trigger]
            computes(*floats, m) ==> outcome_of(r, final(session)@) == floor_spec(
                m,
                args@,
                bindings(alist@),
                old(session)@,
                depth as nat,
            ),
        grown(old(session)@, final(session)@),
    decreases depth, items(args@), 1nat,
{
    proof {
        lemma_unchanged_has_grown(session@);
    }
    match first_argument(&args, &alist, session, depth, floats) {
        Ok(x) => floor_value(&x),
        Err(e) => Err(e),
    }
}

/// `EQUAL`: `T` where the first two arguments evaluate to structurally equal values.
pub fn equal<F: Fn(ArithOp, Number, Number) -> u64>(
    args: Sexpr,
    alist: Vec<(String, Sexpr)>,
    session: &mut Session,
    depth: usize,
    floats: &F,
) -> (r: Result<Sexpr, LispError>)
    requires
        total(*floats),
    ensures
        forall|m: FloatModel| #[trigger]
            computes(*floats, m) ==> outcome_of(r, final(session)@) == equal_spec(
                m,
                args@,
                bindings(alist@),
                old(session)@,
                depth as nat,
            ),
        grown(old(session)@, final(session)@),
    decreases depth, items(args@), 3nat,
{
    proof {
        lemma_unchanged_has_grown(session@);
    }
    match two_arguments(&args, &alist, session, depth, floats) {
        Ok((x, y)) => Ok(truth_value(equal_sexprs(&x, &y))),
        Err(e) => Err(e),
    }
}

/// `CONS`: the value of the first argument put before that of the second.
pub fn cons<F: Fn(ArithOp, Number, Number) -> u64>(
    args: Sexpr,
    alist: Vec<(String, Sexpr)>,
    session: &mut Session,
    depth: usize,
    floats: &F,
) -> (r: Result<Sexpr, LispError>)
    requires
        total(*floats),
    ensures
        forall|m: FloatModel| #[trigger]
            computes(*floats, m) ==> outcome_of(r, final(session)@) == cons_spec(
                m,
                args@,
                bindings(alist@),
                old(session)@,
                depth as nat,
            ),
        grown(old(session)@, final(session)@),
    decreases depth, items(args@), 3nat,
{
    proof {
        lemma_unchanged_has_grown(session@);
    }
    match two_arguments(&args, &alist, session, depth, floats) {
        Ok((x, y)) => Ok(cons_values(x, y)),
        Err(e) => Err(e),
    }
}

/// `+`: the sum of the values of the first two arguments.
pub fn add<F: Fn(ArithOp, Number, Number) -> u64>(
    args: Sexpr,
    alist: Vec<(String, Sexpr)>,
    session: &mut Session,
    depth: usize,
    floats: &F,
) -> (r: Result<Sexpr, LispError>)
    requires
        total(*floats),
    ensures
        forall|m: FloatModel| #[trigger]
            computes(*floats, m) ==> outcome_of(r, final(session)@) == add_spec(
                m,
                args@,
                bindings(alist@),
                old(session)@,
                depth as nat,
            ),
        grown(old(session)@, final(session)@),
    decreases depth, items(args@), 3nat,
{
    proof {
        lemma_unchanged_has_grown(session@);
    }
    match two_arguments(&args, &alist, session, depth, floats) {
        Ok((x, y)) => arith_values(ArithOp::Add, &x, &y, floats),
        Err(e) => Err(e),
    }
}

/// `-`: the value of the first argument less that of the second.
pub fn subtract<F: Fn(ArithOp, Number, Number) -> u64>(
    args: Sexpr,
    alist: Vec<(String, Sexpr)>,
    session: &mut Session,
    depth: usize,
    floats: &F,
) -> (r: Result<Sexpr, LispError>)
    requires
        total(*floats),
    ensures
        forall|m: FloatModel| #[trigger]
            computes(*floats, m) ==> outcome_of(r, final(session)@) == subtract_spec(
                m,
                args@,
                bindings(alist@),
                old(session)@,
                depth as nat,
            ),
        grown(old(session)@, final(session)@),
    decreases depth, items(args@), 3nat,
{
    proof {
        lemma_unchanged_has_grown(session@);
    }
    match two_arguments(&args, &alist, session, depth, floats) {
        Ok((x, y)) => arith_values(ArithOp::Sub, &x, &y, floats),
        Err(e) => Err(e),
    }
}

/// `*`: the product of the values of the first two arguments.
pub fn multiply<F: Fn(ArithOp, Number, Number) -> u64>(
    args: Sexpr,
    alist: Vec<(String, Sexpr)>,
    session: &mut Session,
    depth: usize,
    floats: &F,
) -> (r: Result<Sexpr, LispError>)
    requires
        total(*floats),
    ensures
        forall|m: FloatModel| #[trigger]
            computes(*floats, m) ==> outcome_of(r, final(session)@) == multiply_spec(
                m,
                args@,
                bindings(alist@),
                old(session)@,
                depth as nat,
            ),
        grown(old(session)@, final(session)@),
    decreases depth, items(args@), 3nat,
{
    proof {
        lemma_unchanged_has_grown(session@);
    }
    match two_arguments(&args, &alist, session, depth, floats) {
        Ok((x, y)) => arith_values(ArithOp::Mul, &x, &y, floats),
        Err(e) => Err(e),
    }
}

/// `/`: the value of the first argument divided by that of the second.
pub fn divide<F: Fn(ArithOp, Number, Number) -> u64>(
    args: Sexpr,
    alist: Vec<(String, Sexpr)>,
    session: &mut Session,
    depth: usize,
    floats: &F,
) -> (r: Result<Sexpr, LispError>)
    requires
        total(*floats),
    ensures
        forall|m: FloatModel| #[trigger]
            computes(*floats, m) ==> outcome_of(r, final(session)@) == divide_spec(
                m,
                args@,
                bindings(alist@),
                old(session)@,
                depth as nat,
            ),
        grown(old(session)@, final(session)@),
    decreases depth, items(args@), 3nat,
{
    proof {
        lemma_unchanged_has_grown(session@);
    }
    match two_arguments(&args, &alist, session, depth, floats) {
        Ok((x, y)) => arith_values(ArithOp::Div, &x, &y, floats),
        Err(e) => Err(e),
    }
}

/// `MOD`: the remainder of the first argument divided by the second.
pub fn modulo<F: Fn(ArithOp, Number, Number) -> u64>(
    args: Sexpr,
    alist: Vec<(String, Sexpr)>,
    session: &mut Session,
    depth: usize,
    floats: &F,
) -> (r: Result<Sexpr, LispError>)
    requires
        total(*floats),
    ensures
        forall|m: FloatModel| #[trigger]
            computes(*floats, m) ==> outcome_of(r, final(session)@) == modulo_spec(
                m,
                args@,
                bindings(alist@),
                old(session)@,
                depth as nat,
            ),
        grown(old(session)@, final(session)@),
    decreases depth, items(args@), 3nat,
{
    proof {
        lemma_unchanged_has_grown(session@);
    }
    match two_arguments(&args, &alist, session, depth, floats) {
        Ok((x, y)) => arith_values(ArithOp::Rem, &x, &y, floats),
        Err(e) => Err(e),
    }
}

/// `PRINT`: evaluates the first argument, hands the value to the session's
/// output, and returns the empty string.
pub fn print<F: Fn(ArithOp, Number, Number) -> u64>(
    args: Sexpr,
    alist: Vec<(String, Sexpr)>,
    session: &mut Session,
    depth: usize,
    floats: &F,
) -> (r: Result<Sexpr, LispError>)
    requires
        total(*floats),
    ensures
        forall|m: FloatModel| #[trigger]
            computes(*floats, m) ==> outcome_of(r, final(session)@) == print_spec(
                m,
                args@,
                bindings(alist@),
                old(session)@,
                depth as nat,
            ),
        grown(old(session)@, final(session)@),
    decreases depth, items(args@), 1nat,
{
    proof {
        lemma_unchanged_has_grown(session@);
    }
    match first_argument(&args, &alist, session, depth, floats) {
        Ok(x) => {
            let ghost before = session@;
            session.output.push(x);
            proof {
                assert(session@.output =~= before.output.push(x@));
                assert(session@.output.take(before.output.len() as int) =~= before.output);
                assert(session@.globals.take(before.globals.len() as int) =~= before.globals);
                lemma_grown_twice(old(session)@, before, session@);
            }
            Ok(Sexpr::String(String::new()))
        },
        Err(e) => Err(e),
    }
}

/// `EVAL`: evaluates the first argument, and then its value.
pub fn eval<F: Fn(ArithOp, Number, Number) -> u64>(
    args: Sexpr,
    alist: Vec<(String, Sexpr)>,
    session: &mut Session,
    depth: usize,
    floats: &F,
) -> (r: Result<Sexpr, LispError>)
    requires
        total(*floats),
    ensures
        forall|m: FloatModel| #[trigger]
            computes(*floats, m) ==> outcome_of(r, final(session)@) == eval_spec(
                m,
                args@,
                bindings(alist@),
                old(session)@,
                depth as nat,
            ),
        grown(old(session)@, final(session)@),
    decreases depth, items(args@), 1nat,
{
    proof {
        lemma_unchanged_has_grown(session@);
    }
    match first_argument(&args, &alist, session, depth, floats) {
        Ok(x) => {
            if depth == 0 {
                Err(LispError::DepthExceeded)
            } else {
                let ghost between = session@;
                let r = evaluate(x, alist, session, depth - 1, floats);
                proof {
                    lemma_grown_twice(old(session)@, between, session@);
                }
                r
            }
        },
        Err(e) => Err(e),
    }
}

/// `SETQ`: evaluates the second argument and binds the value to the symbol
/// that the first argument is, after all the global bindings there are.
pub fn setq<F: Fn(ArithOp, Number, Number) -> u64>(
    args: Sexpr,
    alist: Vec<(String, Sexpr)>,
    session: &mut Session,
    depth: usize,
    floats: &F,
) -> (r: Result<Sexpr, LispError>)
    requires
        total(*floats),
    ensures
        forall|m: FloatModel| #[trigger]
            computes(*floats, m) ==> outcome_of(r, final(session)@) == setq_spec(
                m,
                args@,
                bindings(alist@),
                old(session)@,
                depth as nat,
            ),
        grown(old(session)@, final(session)@),
    decreases depth, items(args@), 1nat,
{
    proof {
        lemma_unchanged_has_grown(session@);
    }
    let target = match &args {
        Sexpr::List(l) => {
            assert(views(l@).len() == l.len());
            if l.len() < 2 {
                return Err(LispError::MissingArgument);
            }
            l[0].clone()
        },
        _ => {
            return Err(LispError::ArgumentsNotList);
        },
    };
    let value = match second_argument(&args, &alist, session, depth, floats) {
        Ok(value) => value,
        Err(e) => {
            return Err(e);
        },
    };
    let ghost between = session@;
    match target {
        Sexpr::Nil => Err(LispError::ReservedName),
        Sexpr::Symbol(name) => {
            let bound = session.bind(name, value.clone());
            proof {
                lemma_grown_twice(old(session)@, between, session@);
            }
            match bound {
                Ok(()) => Ok(value),
                Err(e) => Err(e),
            }
        },
        _ => Err(LispError::NotASymbol),
    }
}

} // verus!
