use pure_lisp::arith::integer_arith;
use pure_lisp::decimal::{int_chars, read_int};
use pure_lisp::float::{truncate, ArithOp};
use pure_lisp::text::{char_is_space, chars_of, quoted, same_text, string_of, trim};
use pure_lisp::{ErrorKind, LispError};

fn letters(text: &str) -> Vec<char> {
    text.chars().collect()
}

#[test]
fn truncate_agrees_with_the_cast() {
    let samples = [
        0.0f64,
        -0.0,
        0.5,
        -0.5,
        0.999999,
        1.0,
        1.1,
        -1.1,
        6.7,
        -6.7,
        2.5,
        1e10,
        -1e10,
        4503599627370496.0,
        4503599627370497.0,
        9007199254740992.0,
        9007199254740993.0,
        1e18,
        -1e18,
        9223372036854774784.0,
        9223372036854775807.0,
        9223372036854775808.0,
        -9223372036854775808.0,
        -9223372036854777856.0,
        1e19,
        -1e19,
        1e300,
        -1e300,
        f64::MIN_POSITIVE,
        5e-324,
        f64::MAX,
        f64::MIN,
        f64::INFINITY,
        f64::NEG_INFINITY,
        f64::NAN,
        -f64::NAN,
    ];
    for x in samples {
        assert_eq!(truncate(x.to_bits()), x as i64, "{}", x);
    }
    let mut bits: u64 = 0x9e37_79b9_7f4a_7c15;
    for _ in 0..200000 {
        bits = bits.wrapping_mul(6364136223846793005).wrapping_add(1442695040888963407);
        assert_eq!(truncate(bits), f64::from_bits(bits) as i64);
        let near = (bits & 0x800f_ffff_ffff_ffff) | ((1000 + (bits >> 52) % 100) << 52);
        assert_eq!(truncate(near), f64::from_bits(near) as i64);
    }
    assert_eq!(truncate(1.1f64.to_bits()), 1);
    assert_eq!(truncate(6.7f64.to_bits()), 6);
    assert_eq!(truncate((-6.7f64).to_bits()), -6);
}

#[test]
fn white_space_is_what_the_standard_says() {
    let mut c: u32 = 0;
    while c <= 0x10ffff {
        if let Some(ch) = char::from_u32(c) {
            assert_eq!(char_is_space(ch), ch.is_whitespace(), "{:x}", c);
        }
        c += 1;
    }
}

#[test]
fn integers_read_as_the_standard_reads_them() {
    let texts = [
        "0",
        "1",
        "-1",
        "+1",
        "007",
        "-007",
        "+",
        "-",
        "",
        "--1",
        "+-1",
        "1-",
        "1 ",
        " 1",
        "12a",
        "a12",
        "1.0",
        "1_000",
        "9223372036854775807",
        "9223372036854775808",
        "-9223372036854775808",
        "-9223372036854775809",
        "+9223372036854775807",
        "00000000000000000000000000000000009223372036854775807",
        "-00000000000000000000000000000000009223372036854775808",
        "92233720368547758070",
        "99999999999999999999999999999999999999",
        "-99999999999999999999999999999999999999",
        "18446744073709551616",
        "18446744073709551617",
        "٣",
        "１２",
    ];
    for text in texts {
        assert_eq!(read_int(&letters(text)), text.parse::<i64>().ok(), "{:?}", text);
    }
}

#[test]
fn integers_print_as_the_standard_prints_them() {
    let values = [
        0i64,
        1,
        -1,
        9,
        10,
        -10,
        99,
        100,
        12345,
        -12345,
        i64::MAX,
        i64::MIN,
        i64::MIN + 1,
        1000000007,
    ];
    for v in values {
        let text: String = int_chars(v).into_iter().collect();
        assert_eq!(text, v.to_string());
        assert_eq!(read_int(&letters(&text)), Some(v));
    }
}

#[test]
fn integer_arithmetic_wraps_and_truncates() {
    assert_eq!(integer_arith(ArithOp::Add, 1, 2), Ok(3));
    assert_eq!(integer_arith(ArithOp::Sub, 1, 2), Ok(-1));
    assert_eq!(integer_arith(ArithOp::Mul, -3, 4), Ok(-12));
    assert_eq!(integer_arith(ArithOp::Div, 7, 2), Ok(3));
    assert_eq!(integer_arith(ArithOp::Div, -7, 2), Ok(-3));
    assert_eq!(integer_arith(ArithOp::Div, 7, -2), Ok(-3));
    assert_eq!(integer_arith(ArithOp::Div, -7, -2), Ok(3));
    assert_eq!(integer_arith(ArithOp::Rem, 7, 2), Ok(1));
    assert_eq!(integer_arith(ArithOp::Rem, -7, 2), Ok(-1));
    assert_eq!(integer_arith(ArithOp::Rem, 7, -2), Ok(1));
    assert_eq!(integer_arith(ArithOp::Rem, -7, -2), Ok(-1));
    assert_eq!(integer_arith(ArithOp::Add, i64::MAX, 1), Ok(i64::MIN));
    assert_eq!(integer_arith(ArithOp::Sub, i64::MIN, 1), Ok(i64::MAX));
    assert_eq!(integer_arith(ArithOp::Mul, i64::MAX, 2), Ok(-2));
    assert_eq!(integer_arith(ArithOp::Mul, i64::MIN, -1), Ok(i64::MIN));
    assert_eq!(integer_arith(ArithOp::Div, 1, 0), Err(LispError::Division));
    assert_eq!(integer_arith(ArithOp::Rem, 1, 0), Err(LispError::Division));
    assert_eq!(integer_arith(ArithOp::Div, i64::MIN, -1), Err(LispError::Division));
    assert_eq!(integer_arith(ArithOp::Rem, i64::MIN, -1), Err(LispError::Division));
    assert_eq!(integer_arith(ArithOp::Div, i64::MIN, 1), Ok(i64::MIN));
    assert_eq!(integer_arith(ArithOp::Rem, i64::MIN, 2), Ok(0));
}

#[test]
fn text_helpers() {
    assert_eq!(chars_of("aß√"), vec!['a', 'ß', '√']);
    assert_eq!(chars_of(""), Vec::<char>::new());
    assert_eq!(string_of(&vec!['a', 'ß', '√']), "aß√");
    assert_eq!(trim(&letters("  a b \t\n")), letters("a b"));
    assert_eq!(trim(&letters(" \u{3000} ")), letters(""));
    assert_eq!(trim(&letters("ab")), letters("ab"));
    assert!(quoted(&letters("\"a\"")));
    assert!(quoted(&letters("\"")));
    assert!(!quoted(&letters("\"a")));
    assert!(!quoted(&letters("")));
    assert!(same_text("CAR", "CAR"));
    assert!(!same_text("CAR", "CDR"));
    assert!(!same_text("CAR", "CA"));
    assert!(same_text("", ""));
}

#[test]
fn every_error_has_its_message() {
    let all = [
        LispError::EmptyInput,
        LispError::DanglingQuote,
        LispError::NoTokens,
        LispError::NotCallable,
        LispError::MissingArgument,
        LispError::ArgumentsNotList,
        LispError::NotAList,
        LispError::EmptyList,
        LispError::NotASymbol,
        LispError::ReservedName,
        LispError::NotANumber,
        LispError::Division,
        LispError::DepthExceeded,
    ];
    for (i, a) in all.iter().enumerate() {
        assert!(!a.message().is_empty());
        for (j, b) in all.iter().enumerate() {
            assert_eq!(a.message() == b.message(), i == j);
        }
    }
    assert_eq!(
        LispError::EmptyInput.message(),
        "tokenize_input: input is required to tokenize"
    );
    assert_eq!(LispError::ReservedName.message(), "setq: NIL is not a valid symbol name");
}

#[test]
fn every_error_has_its_class() {
    assert_eq!(LispError::EmptyInput.kind(), ErrorKind::Lex);
    assert_eq!(LispError::DanglingQuote.kind(), ErrorKind::Lex);
    assert_eq!(LispError::NoTokens.kind(), ErrorKind::Parse);
    assert_eq!(LispError::NotCallable.kind(), ErrorKind::Apply);
    assert_eq!(LispError::MissingArgument.kind(), ErrorKind::Arity);
    assert_eq!(LispError::ArgumentsNotList.kind(), ErrorKind::Type);
    assert_eq!(LispError::NotAList.kind(), ErrorKind::Type);
    assert_eq!(LispError::EmptyList.kind(), ErrorKind::Type);
    assert_eq!(LispError::NotASymbol.kind(), ErrorKind::Type);
    assert_eq!(LispError::NotANumber.kind(), ErrorKind::Type);
    assert_eq!(LispError::ReservedName.kind(), ErrorKind::ReservedName);
    assert_eq!(LispError::Division.kind(), ErrorKind::Division);
    assert_eq!(LispError::DepthExceeded.kind(), ErrorKind::Depth);
}
