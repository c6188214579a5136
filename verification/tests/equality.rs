use pure_lisp::float::floats_equal;
use pure_lisp::sexpr::{clone_alist, clone_list, equal_sexpr_lists, equal_sexprs};
use pure_lisp::Sexpr;

#[test]
fn test_equal_sexprs_atom() {
    let mut l = Sexpr::Integer(55);
    let mut r = Sexpr::Integer(55);
    assert!(equal_sexprs(&l, &r));

    l = Sexpr::String(String::from("Hello"));
    assert!(!equal_sexprs(&l, &r));

    r = Sexpr::String(String::from("Hello"));
    assert!(equal_sexprs(&l, &r));
}

#[test]
fn test_equal_sexpr_lists() {
    let mut l = Sexpr::List(Vec::new());
    let mut r = Sexpr::List(Vec::new());
    assert!(equal_sexprs(&l, &r));

    l = Sexpr::List(vec![Sexpr::Integer(51)]);
    r = Sexpr::List(vec![Sexpr::Integer(51)]);
    assert!(equal_sexprs(&l, &r));

    l = Sexpr::List(vec![Sexpr::List(vec![Sexpr::Integer(51)])]);
    r = Sexpr::List(vec![Sexpr::List(vec![Sexpr::Integer(51)])]);
    assert!(equal_sexprs(&l, &r));

    r = Sexpr::List(vec![Sexpr::List(vec![Sexpr::Integer(1)])]);
    assert!(!equal_sexprs(&l, &r));
}

#[test]
fn lists_of_different_length_are_unequal() {
    let short = vec![Sexpr::Integer(1)];
    let long = vec![Sexpr::Integer(1), Sexpr::Integer(2)];
    assert!(!equal_sexpr_lists(&short, &long));
    assert!(!equal_sexpr_lists(&long, &short));
    assert!(!equal_sexprs(&Sexpr::List(short), &Sexpr::List(long)));
    assert!(!equal_sexprs(&Sexpr::List(vec![]), &Sexpr::List(vec![Sexpr::Nil])));
}

#[test]
fn empty_list_equals_nil() {
    assert!(equal_sexprs(&Sexpr::List(vec![]), &Sexpr::Nil));
    assert!(equal_sexprs(&Sexpr::Nil, &Sexpr::List(vec![])));
    assert!(!equal_sexprs(&Sexpr::List(vec![Sexpr::Nil]), &Sexpr::Nil));
    assert!(equal_sexprs(
        &Sexpr::List(vec![Sexpr::List(vec![]), Sexpr::T]),
        &Sexpr::List(vec![Sexpr::Nil, Sexpr::T])
    ));
}

#[test]
fn kinds_do_not_mix() {
    let values = vec![
        Sexpr::Integer(1),
        Sexpr::Float(1.0f64.to_bits()),
        Sexpr::String(String::from("1")),
        Sexpr::Symbol(String::from("1")),
        Sexpr::List(vec![Sexpr::Integer(1)]),
        Sexpr::Lambda(String::from("1"), vec![Sexpr::Integer(1)]),
        Sexpr::T,
        Sexpr::Nil,
    ];
    for (i, a) in values.iter().enumerate() {
        for (j, b) in values.iter().enumerate() {
            assert_eq!(equal_sexprs(a, b), i == j);
            assert_eq!(equal_sexprs(a, b), equal_sexprs(b, a));
        }
    }
}

#[test]
fn floats_compare_as_doubles_do() {
    let samples = [
        0.0f64,
        -0.0,
        1.0,
        -1.0,
        1.5,
        f64::MIN_POSITIVE,
        5e-324,
        f64::MAX,
        f64::MIN,
        f64::INFINITY,
        f64::NEG_INFINITY,
        f64::NAN,
        -f64::NAN,
        f64::from_bits(0x7ff0_0000_0000_0001),
        f64::from_bits(0xfff8_0000_0000_0001),
    ];
    for a in samples {
        for b in samples {
            assert_eq!(floats_equal(a.to_bits(), b.to_bits()), a == b);
            assert_eq!(
                equal_sexprs(&Sexpr::Float(a.to_bits()), &Sexpr::Float(b.to_bits())),
                a == b
            );
        }
    }
    let nan = Sexpr::List(vec![Sexpr::Float(f64::NAN.to_bits())]);
    assert!(!equal_sexprs(&nan, &nan));
}

#[test]
fn lambdas_compare_by_name_and_body() {
    let f = Sexpr::Lambda(String::from("F"), vec![Sexpr::Integer(1)]);
    assert!(equal_sexprs(&f, &Sexpr::Lambda(String::from("F"), vec![Sexpr::Integer(1)])));
    assert!(!equal_sexprs(&f, &Sexpr::Lambda(String::from("G"), vec![Sexpr::Integer(1)])));
    assert!(!equal_sexprs(&f, &Sexpr::Lambda(String::from("F"), vec![Sexpr::Integer(2)])));
    assert!(!equal_sexprs(&f, &Sexpr::Lambda(String::from("F"), vec![])));
}

#[test]
fn copies_equal_their_source() {
    let list = vec![Sexpr::Integer(1), Sexpr::List(vec![Sexpr::T])];
    assert_eq!(clone_list(&list), list);
    let alist = vec![(String::from("X"), Sexpr::Integer(1)), (String::from("Y"), Sexpr::Nil)];
    assert_eq!(clone_alist(&alist), alist);
}
