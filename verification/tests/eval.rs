use pure_lisp::eval::{
    apply, apply_atom, apply_lambda, assoc, eval_atom, evaluate, find_builtin, is_empty_value,
    rest_of, Builtin, Session,
};
use pure_lisp::float::{ArithOp, Number};
use pure_lisp::sexpr::equal_sexprs;
use pure_lisp::{LispError, Sexpr};

const DEPTH: usize = 100;

fn eval_value(n: Number) -> f64 {
    match n {
        Number::Integer(i) => i as f64,
        Number::Float(bits) => f64::from_bits(bits),
    }
}

fn eval_arith(op: ArithOp, a: Number, b: Number) -> u64 {
    let (x, y) = (eval_value(a), eval_value(b));
    let r = match op {
        ArithOp::Add => x + y,
        ArithOp::Sub => x - y,
        ArithOp::Mul => x * y,
        ArithOp::Div => x / y,
        ArithOp::Rem => x % y,
    };
    r.to_bits()
}

fn sym(name: &str) -> Sexpr {
    Sexpr::Symbol(String::from(name))
}

fn quoted(v: Sexpr) -> Sexpr {
    Sexpr::List(vec![sym("QUOTE"), v])
}

fn value_of(v: Sexpr, alist: Vec<(String, Sexpr)>) -> Result<Sexpr, LispError> {
    let mut session = Session::new();
    evaluate(v, alist, &mut session, DEPTH, &eval_arith)
}

#[test]
fn test_assoc() {
    let mut v: String = String::from("A");
    let mut alist: Vec<(String, Sexpr)> = Vec::new();
    let mut result: Sexpr = Sexpr::Nil;
    assert!(equal_sexprs(&assoc(v, alist.clone()), &result));

    v = String::from("A");
    alist.push((String::from("A"), Sexpr::Symbol(String::from("hello"))));
    result = Sexpr::Symbol(String::from("hello"));
    assert!(equal_sexprs(&assoc(v, alist.clone()), &result));

    // Local scope variable is used before anything else
    v = String::from("A");
    alist.push((String::from("A"), Sexpr::Integer(1)));
    result = Sexpr::Integer(1);
    assert!(equal_sexprs(&assoc(v, alist.clone()), &result));
}

#[test]
fn test_eval_atom() {
    let mut v: Sexpr = Sexpr::Symbol(String::from("A"));
    let mut alist: Vec<(String, Sexpr)> = Vec::new();
    let mut result: Sexpr = Sexpr::Nil;
    assert!(equal_sexprs(&eval_atom(v, alist.clone()), &result));

    v = Sexpr::Symbol(String::from("A"));
    alist.push((String::from("A"), Sexpr::Symbol(String::from("hello"))));
    result = Sexpr::Symbol(String::from("hello"));
    assert!(equal_sexprs(&eval_atom(v, alist.clone()), &result));

    // Local scope variable is used before anything else
    v = Sexpr::Symbol(String::from("A"));
    alist.push((String::from("A"), Sexpr::Integer(1)));
    result = Sexpr::Integer(1);
    assert!(equal_sexprs(&eval_atom(v, alist.clone()), &result));
}

#[test]
fn test_evaluate() {
    let args: Sexpr = Sexpr::List(vec![
        Sexpr::Integer(1),
        Sexpr::Integer(2),
        Sexpr::Integer(3),
    ]);
    let v: Sexpr = Sexpr::List(vec![Sexpr::Symbol(String::from("QUOTE")), args.clone()]);
    let alist: Vec<(String, Sexpr)> = Vec::new();
    assert!(equal_sexprs(
        &value_of(v.clone(), alist.clone()).unwrap(),
        &args
    ));

    // () == NIL tests
    let v: Sexpr = Sexpr::List(Vec::new());
    assert!(equal_sexprs(
        &value_of(v.clone(), alist.clone()).unwrap(),
        &Sexpr::Nil
    ));
    let v: Sexpr = Sexpr::List(vec![Sexpr::Nil]);
    assert!(equal_sexprs(
        &value_of(v.clone(), alist.clone()).unwrap(),
        &Sexpr::Nil
    ));
}

#[test]
fn test_apply() {
    let args: Sexpr = Sexpr::List(vec![
        Sexpr::Integer(1),
        Sexpr::Integer(2),
        Sexpr::Integer(3),
    ]);
    let v: Sexpr = Sexpr::List(vec![Sexpr::Symbol(String::from("QUOTE")), args.clone()]);
    let alist: Vec<(String, Sexpr)> = Vec::new();
    let mut session = Session::new();
    assert!(equal_sexprs(
        &apply(v.clone(), alist.clone(), &mut session, DEPTH, &eval_arith).unwrap(),
        &args
    ));
}

#[test]
fn test_apply_atom() {
    let f = Sexpr::Symbol(String::from("QUOTE"));
    let quoted = Sexpr::List(vec![
        Sexpr::Integer(1),
        Sexpr::Integer(2),
        Sexpr::Integer(3),
    ]);
    let args = Sexpr::List(vec![quoted.clone()]);
    let alist = Vec::new();
    let mut session = Session::new();
    assert!(equal_sexprs(
        &apply_atom(f.clone(), args.clone(), alist.clone(), &mut session, DEPTH, &eval_arith)
            .unwrap(),
        &quoted
    ));
}

#[test]
fn literals_evaluate_to_themselves() {
    let literals = vec![
        Sexpr::Integer(7),
        Sexpr::Float(2.5f64.to_bits()),
        Sexpr::Float(f64::NAN.to_bits()),
        Sexpr::String(String::from("\"s\"")),
        Sexpr::T,
        Sexpr::Nil,
    ];
    let alist = vec![(String::from("X"), Sexpr::Integer(1))];
    for a in literals {
        let mut session = Session::new();
        assert_eq!(evaluate(a.clone(), alist.clone(), &mut session, 0, &eval_arith), Ok(a));
        assert!(session.globals.is_empty());
        assert!(session.output.is_empty());
    }
}

#[test]
fn quote_does_not_evaluate() {
    let forms = vec![
        Sexpr::Integer(1),
        sym("UNBOUND"),
        Sexpr::List(vec![sym("CAR"), Sexpr::Integer(1)]),
        Sexpr::List(vec![sym("PRINT"), Sexpr::Integer(1)]),
        Sexpr::List(vec![sym("SETQ"), sym("X"), Sexpr::Integer(1)]),
        Sexpr::List(vec![]),
        Sexpr::Lambda(String::from("F"), vec![]),
    ];
    for x in forms {
        let mut session = Session::new();
        assert_eq!(
            evaluate(quoted(x.clone()), Vec::new(), &mut session, 0, &eval_arith),
            Ok(x)
        );
        assert!(session.globals.is_empty());
        assert!(session.output.is_empty());
    }
}

#[test]
fn unbound_symbol_is_nil() {
    assert_eq!(value_of(sym("UNDEFINED"), Vec::new()), Ok(Sexpr::Nil));
    let alist = vec![(String::from("X"), Sexpr::Integer(1))];
    assert_eq!(value_of(sym("Y"), alist.clone()), Ok(Sexpr::Nil));
    assert_eq!(value_of(sym("x"), alist), Ok(Sexpr::Nil));
}

#[test]
fn last_binding_wins() {
    let alist = vec![
        (String::from("X"), Sexpr::Integer(1)),
        (String::from("Y"), Sexpr::Integer(2)),
        (String::from("X"), Sexpr::Integer(3)),
    ];
    assert_eq!(value_of(sym("X"), alist.clone()), Ok(Sexpr::Integer(3)));
    assert_eq!(value_of(sym("Y"), alist.clone()), Ok(Sexpr::Integer(2)));
    assert_eq!(assoc(String::from("X"), alist), Sexpr::Integer(3));
}

#[test]
fn lists_that_are_no_calls() {
    assert_eq!(value_of(Sexpr::List(vec![]), Vec::new()), Ok(Sexpr::Nil));
    assert_eq!(
        value_of(Sexpr::List(vec![Sexpr::Nil, Sexpr::Integer(1)]), Vec::new()),
        Ok(Sexpr::Nil)
    );
    assert_eq!(
        value_of(Sexpr::List(vec![Sexpr::List(vec![]), Sexpr::Integer(1)]), Vec::new()),
        Ok(Sexpr::Nil)
    );
}

#[test]
fn what_cannot_be_called() {
    let one = Sexpr::Integer(1);
    assert_eq!(
        value_of(Sexpr::List(vec![one.clone(), one.clone()]), Vec::new()),
        Err(LispError::NotCallable)
    );
    assert_eq!(
        value_of(Sexpr::List(vec![Sexpr::T, one.clone()]), Vec::new()),
        Err(LispError::NotCallable)
    );
    assert_eq!(
        value_of(Sexpr::List(vec![Sexpr::List(vec![sym("CAR")]), one.clone()]), Vec::new()),
        Err(LispError::NotCallable)
    );
    assert_eq!(
        value_of(Sexpr::Lambda(String::from("F"), vec![]), Vec::new()),
        Err(LispError::NotCallable)
    );
    assert_eq!(
        value_of(Sexpr::List(vec![sym("CAR")]), Vec::new()),
        Err(LispError::MissingArgument)
    );
    assert_eq!(
        value_of(Sexpr::List(vec![one.clone()]), Vec::new()),
        Err(LispError::MissingArgument)
    );
    let mut session = Session::new();
    assert_eq!(
        apply(Sexpr::List(vec![]), Vec::new(), &mut session, DEPTH, &eval_arith),
        Err(LispError::EmptyList)
    );
    assert_eq!(
        apply(one.clone(), Vec::new(), &mut session, DEPTH, &eval_arith),
        Err(LispError::NotCallable)
    );
    assert_eq!(
        apply_atom(one.clone(), Sexpr::List(vec![]), Vec::new(), &mut session, DEPTH, &eval_arith),
        Err(LispError::NotCallable)
    );
}

#[test]
fn procedures_and_unknown_names_give_nil() {
    let f = Sexpr::Lambda(String::from("F"), vec![Sexpr::Integer(1)]);
    assert_eq!(
        value_of(Sexpr::List(vec![f.clone(), Sexpr::Integer(1)]), Vec::new()),
        Ok(Sexpr::Nil)
    );
    assert_eq!(apply_lambda(f, Sexpr::List(vec![]), Vec::new()), Ok(Sexpr::Nil));
    assert_eq!(
        value_of(Sexpr::List(vec![sym("NO-SUCH"), Sexpr::Integer(1)]), Vec::new()),
        Ok(Sexpr::Nil)
    );
    assert_eq!(
        value_of(Sexpr::List(vec![sym("car"), quoted(Sexpr::List(vec![Sexpr::T]))]), Vec::new()),
        Ok(Sexpr::Nil)
    );
}

#[test]
fn builtins_are_found_by_name() {
    let names = [
        ("QUOTE", Builtin::Quote),
        ("CAR", Builtin::Car),
        ("CDR", Builtin::Cdr),
        ("SETQ", Builtin::Setq),
        ("EQUAL", Builtin::Equal),
        ("EQ", Builtin::Equal),
        ("ATOM", Builtin::Atom),
        ("LISTP", Builtin::Listp),
        ("NULL", Builtin::Null),
        ("FLOOR", Builtin::Floor),
        ("+", Builtin::Add),
        ("-", Builtin::Subtract),
        ("*", Builtin::Multiply),
        ("/", Builtin::Divide),
        ("MOD", Builtin::Modulo),
        ("PRINT", Builtin::Print),
        ("EVAL", Builtin::Eval),
        ("CONS", Builtin::Cons),
    ];
    for (name, builtin) in names {
        assert_eq!(find_builtin(name), Some(builtin));
    }
    assert_eq!(find_builtin("quote"), None);
    assert_eq!(find_builtin(""), None);
    assert_eq!(find_builtin("CARS"), None);
}

#[test]
fn every_builtin_is_reached_by_its_name() {
    let two = |name: &str, a: Sexpr, b: Sexpr| {
        value_of(Sexpr::List(vec![sym(name), a, b]), Vec::new())
    };
    let list = quoted(Sexpr::List(vec![Sexpr::Integer(1), Sexpr::Integer(2)]));
    assert_eq!(two("CAR", list.clone(), Sexpr::Nil), Ok(Sexpr::Integer(1)));
    assert_eq!(
        two("CDR", list.clone(), Sexpr::Nil),
        Ok(Sexpr::List(vec![Sexpr::Integer(2)]))
    );
    assert_eq!(two("SETQ", sym("X"), Sexpr::Integer(5)), Ok(Sexpr::Integer(5)));
    assert_eq!(two("EQUAL", Sexpr::Integer(1), Sexpr::Integer(1)), Ok(Sexpr::T));
    assert_eq!(two("EQ", Sexpr::Integer(1), Sexpr::Integer(2)), Ok(Sexpr::Nil));
    assert_eq!(two("ATOM", Sexpr::Integer(1), Sexpr::Nil), Ok(Sexpr::T));
    assert_eq!(two("LISTP", Sexpr::Integer(1), Sexpr::Nil), Ok(Sexpr::Nil));
    assert_eq!(two("NULL", Sexpr::Nil, Sexpr::Nil), Ok(Sexpr::T));
    assert_eq!(two("FLOOR", Sexpr::Float(2.5f64.to_bits()), Sexpr::Nil), Ok(Sexpr::Integer(2)));
    assert_eq!(two("+", Sexpr::Integer(7), Sexpr::Integer(2)), Ok(Sexpr::Integer(9)));
    assert_eq!(two("-", Sexpr::Integer(7), Sexpr::Integer(2)), Ok(Sexpr::Integer(5)));
    assert_eq!(two("*", Sexpr::Integer(7), Sexpr::Integer(2)), Ok(Sexpr::Integer(14)));
    assert_eq!(two("/", Sexpr::Integer(7), Sexpr::Integer(2)), Ok(Sexpr::Integer(3)));
    assert_eq!(two("MOD", Sexpr::Integer(7), Sexpr::Integer(2)), Ok(Sexpr::Integer(1)));
    assert_eq!(two("PRINT", Sexpr::Integer(7), Sexpr::Nil), Ok(Sexpr::String(String::new())));
    assert_eq!(two("EVAL", quoted(Sexpr::Integer(7)), Sexpr::Nil), Ok(Sexpr::Integer(7)));
    assert_eq!(
        two("CONS", Sexpr::Integer(1), Sexpr::Integer(2)),
        Ok(Sexpr::List(vec![Sexpr::Integer(1), Sexpr::Integer(2)]))
    );
}

#[test]
fn failures_pass_up_unchanged() {
    // (CONS (CAR 1) (PRINT 2)): the first argument fails, the second is not reached.
    let form = Sexpr::List(vec![
        sym("CONS"),
        Sexpr::List(vec![sym("CAR"), Sexpr::Integer(1)]),
        Sexpr::List(vec![sym("PRINT"), Sexpr::Integer(2)]),
    ]);
    let mut session = Session::new();
    assert_eq!(
        evaluate(form, Vec::new(), &mut session, DEPTH, &eval_arith),
        Err(LispError::NotAList)
    );
    assert!(session.output.is_empty());

    // What was done before the failure stays done.
    let form = Sexpr::List(vec![
        sym("CONS"),
        Sexpr::List(vec![sym("SETQ"), sym("X"), Sexpr::Integer(1)]),
        Sexpr::List(vec![sym("CAR"), Sexpr::Integer(1)]),
    ]);
    assert_eq!(
        evaluate(form, Vec::new(), &mut session, DEPTH, &eval_arith),
        Err(LispError::NotAList)
    );
    assert_eq!(session.globals, vec![(String::from("X"), Sexpr::Integer(1))]);
}

#[test]
fn small_helpers() {
    assert!(is_empty_value(&Sexpr::Nil));
    assert!(is_empty_value(&Sexpr::List(vec![])));
    assert!(!is_empty_value(&Sexpr::List(vec![Sexpr::Nil])));
    assert!(!is_empty_value(&Sexpr::T));
    assert!(!is_empty_value(&Sexpr::Integer(0)));
    assert_eq!(
        rest_of(&vec![Sexpr::Integer(1), Sexpr::Integer(2), Sexpr::Integer(3)]),
        vec![Sexpr::Integer(2), Sexpr::Integer(3)]
    );
    assert_eq!(rest_of(&vec![Sexpr::Integer(1)]), Vec::<Sexpr>::new());
}
