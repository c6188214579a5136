use pure_lisp::error::LispError;
use pure_lisp::lexer::{
    get_datatype, space_inputs, space_separate_inputs, token_to_string, tokenize, tokenize_input,
    tokenize_inputs, tokenize_list, Token,
};

fn read_float(text: String) -> Option<u64> {
    text.parse::<f64>().ok().map(f64::to_bits)
}

fn show_float(bits: u64) -> String {
    f64::from_bits(bits).to_string()
}

fn compare_token_vectors(result: Vec<Token>, expected: Vec<Token>) -> bool {
    let comp = result.iter().zip(&expected);
    for (r, e) in comp {
        if r != e {
            return false;
        }
    }
    true
}

fn strings(words: &[&str]) -> Vec<String> {
    words.iter().map(|w| String::from(*w)).collect()
}

fn symbol(name: &str) -> Token {
    Token::Symbol(String::from(name))
}

#[test]
fn test_space_inputs() {
    let mut input = String::from("(+)");
    let mut expected = String::from(" ( + ) ");
    assert_eq!(space_inputs(&input), expected);

    input = String::from("()");
    expected = String::from(" (  ) ");
    assert_eq!(space_inputs(&input), expected);

    input = String::from("+");
    expected = String::from("+");
    assert_eq!(space_inputs(&input), expected);

    input = String::from("");
    expected = String::from("");
    assert_eq!(space_inputs(&input), expected);

    input = String::from("'(1)");
    expected = String::from(" '  ( 1 ) ");
    assert_eq!(space_inputs(&input), expected);
}

#[test]
fn test_space_separate_inputs() {
    let mut input = " ( + ) ";
    let mut expected: Vec<String> = vec![String::from("("), String::from("+"), String::from(")")];
    assert_eq!(space_separate_inputs(input), expected);

    input = " (  ) ";
    expected = vec![String::from("("), String::from(")")];
    assert_eq!(space_separate_inputs(input), expected);

    input = "+";
    expected = vec![String::from("+")];
    assert_eq!(space_separate_inputs(input), expected);

    input = "";
    expected = Vec::new();
    assert_eq!(space_separate_inputs(input), expected);
}

#[test]
fn test_get_datatype() {
    let mut input = String::from("(");
    assert_eq!(get_datatype(&input, &read_float), Token::LParen);

    input = String::from(")");
    assert_eq!(get_datatype(&input, &read_float), Token::RParen);

    input = String::from("1");
    assert_eq!(get_datatype(&input, &read_float), Token::Integer(1));

    input = String::from("234.1");
    assert_eq!(get_datatype(&input, &read_float), Token::Float(234.1f64.to_bits()));

    input = String::from("\"hello\"");
    assert_eq!(
        get_datatype(&input, &read_float),
        Token::String(String::from("\"hello\""))
    );
}

#[test]
fn test_tokenize_inputs() {
    // A list that has an item gets no `NIL` before the token that closes it.
    let mut input: Vec<String> = vec![String::from("("), String::from("+"), String::from(")")];
    let mut result = tokenize_inputs(input, &read_float);
    let mut expected: Vec<Token> = vec![Token::LParen, Token::Symbol(String::from("+")), Token::RParen];
    assert_eq!(result, Ok(expected));

    input = vec![String::from("("), String::from(")")];
    result = tokenize_inputs(input, &read_float);
    expected = vec![
        Token::LParen,
        Token::Symbol(String::from("NIL")),
        Token::RParen,
    ];
    assert!(compare_token_vectors(result.unwrap(), expected));

    input = vec![String::from("+")];
    result = tokenize_inputs(input, &read_float);
    expected = vec![Token::Symbol(String::from("+"))];
    assert!(compare_token_vectors(result.unwrap(), expected));

    input = vec![String::from("+")];
    result = tokenize_inputs(input, &read_float);
    expected = vec![Token::Symbol(String::from("-"))];
    assert!(!compare_token_vectors(result.unwrap(), expected));

    input = Vec::new();
    result = tokenize_inputs(input, &read_float);
    assert_eq!(
        result.map_err(|e| e.message()),
        Err(String::from("tokenize_input: input is required to tokenize",))
    );

    input = vec![String::from("1")];
    result = tokenize_inputs(input, &read_float);
    expected = vec![Token::Integer(1)];
    assert!(compare_token_vectors(result.unwrap(), expected));

    input = vec![String::from("1.1")];
    result = tokenize_inputs(input, &read_float);
    expected = vec![Token::Float(1.1f64.to_bits())];
    assert!(compare_token_vectors(result.unwrap(), expected));
}

#[test]
fn test_tokenize() {
    // A list that has an item gets no `NIL` before the token that closes it.
    let mut input = String::from("(+)");
    let mut result = tokenize(&input, &read_float);
    let mut expected: Vec<Token> = vec![Token::LParen, Token::Symbol(String::from("+")), Token::RParen];
    assert_eq!(result, Ok(expected));

    input = String::from("()");
    result = tokenize(&input, &read_float);
    expected = vec![
        Token::LParen,
        Token::Symbol(String::from("NIL")),
        Token::RParen,
    ];
    assert!(compare_token_vectors(result.unwrap(), expected));

    input = String::from("+");
    result = tokenize(&input, &read_float);
    expected = vec![Token::Symbol(String::from("+"))];
    assert!(compare_token_vectors(result.unwrap(), expected));

    input = String::from("+");
    result = tokenize(&input, &read_float);
    expected = vec![Token::Symbol(String::from("-"))];
    assert!(!compare_token_vectors(result.unwrap(), expected));

    input = String::from("t");
    result = tokenize(&input, &read_float);
    expected = vec![Token::Symbol(String::from("T"))];
    assert!(compare_token_vectors(result.unwrap(), expected));

    input = String::new();
    result = tokenize(&input, &read_float);
    assert_eq!(
        result.map_err(|e| e.message()),
        Err(String::from("tokenize_input: input is required to tokenize",))
    );

    input = String::from("\"hello\"");
    result = tokenize(&input, &read_float);
    expected = vec![Token::String(String::from("\"hello\""))];
    assert!(compare_token_vectors(result.unwrap(), expected));
}

#[test]
fn tokenize_call_form() {
    let result = tokenize(&String::from("(+ 1 2)"), &read_float);
    assert_eq!(
        result,
        Ok(vec![
            Token::LParen,
            symbol("+"),
            Token::Integer(1),
            Token::Integer(2),
            Token::RParen,
        ])
    );
}

#[test]
fn tokenize_empty_list_has_nil_before_close() {
    let result = tokenize(&String::from("()"), &read_float).unwrap();
    assert_eq!(result, vec![Token::LParen, symbol("NIL"), Token::RParen]);
    let n = result.len();
    assert_eq!(result[n - 2], symbol("NIL"));
    assert_eq!(result[n - 1], Token::RParen);
}

#[test]
fn tokenize_nested_lists() {
    let result = tokenize(&String::from("(a (b) () c)"), &read_float);
    assert_eq!(
        result,
        Ok(vec![
            Token::LParen,
            symbol("A"),
            Token::LParen,
            symbol("B"),
            Token::RParen,
            Token::LParen,
            symbol("NIL"),
            Token::RParen,
            symbol("C"),
            Token::RParen,
        ])
    );
}

#[test]
fn tokenize_quote_sigil_wraps_next_form() {
    assert_eq!(
        tokenize(&String::from("'x"), &read_float),
        Ok(vec![Token::LParen, symbol("QUOTE"), symbol("X"), Token::RParen])
    );
    assert_eq!(
        tokenize(&String::from("'(1 2)"), &read_float),
        Ok(vec![
            Token::LParen,
            symbol("QUOTE"),
            Token::LParen,
            Token::Integer(1),
            Token::Integer(2),
            Token::RParen,
            Token::RParen,
        ])
    );
    assert_eq!(
        tokenize(&String::from("(car '(1 2))"), &read_float),
        Ok(vec![
            Token::LParen,
            symbol("CAR"),
            Token::LParen,
            symbol("QUOTE"),
            Token::LParen,
            Token::Integer(1),
            Token::Integer(2),
            Token::RParen,
            Token::RParen,
            Token::RParen,
        ])
    );
    assert_eq!(
        tokenize(&String::from("''x"), &read_float),
        Ok(vec![
            Token::LParen,
            symbol("QUOTE"),
            Token::LParen,
            symbol("QUOTE"),
            symbol("X"),
            Token::RParen,
            Token::RParen,
        ])
    );
}

#[test]
fn tokenize_dangling_quote_fails() {
    assert_eq!(tokenize(&String::from("'"), &read_float), Err(LispError::DanglingQuote));
    assert_eq!(tokenize(&String::from("(a ')"), &read_float), Err(LispError::DanglingQuote));
    assert_eq!(tokenize(&String::from("  "), &read_float), Err(LispError::EmptyInput));
}

#[test]
fn tokenize_reads_first_form_only() {
    assert_eq!(tokenize(&String::from("1 2 3"), &read_float), Ok(vec![Token::Integer(1)]));
    assert_eq!(
        tokenize(&String::from("(a) b"), &read_float),
        Ok(vec![Token::LParen, symbol("A"), Token::RParen])
    );
    assert_eq!(
        tokenize(&String::from("(a"), &read_float),
        Ok(vec![Token::LParen, symbol("A")])
    );
    assert_eq!(tokenize(&String::from(")"), &read_float), Ok(vec![Token::RParen]));
}

#[test]
fn tokenize_input_tells_where_form_ends() {
    let pieces = strings(&["(", "A", "(", "B", ")", ")", "C"]);
    let (tokens, next) = tokenize_input(&pieces, 0, &read_float).unwrap();
    assert_eq!(next, 6);
    assert_eq!(tokens.len(), 6);
    let (tokens, next) = tokenize_input(&pieces, 2, &read_float).unwrap();
    assert_eq!(next, 5);
    assert_eq!(tokens, vec![Token::LParen, symbol("B"), Token::RParen]);
    let (tokens, next) = tokenize_input(&pieces, 6, &read_float).unwrap();
    assert_eq!(next, 7);
    assert_eq!(tokens, vec![symbol("C")]);
    assert_eq!(tokenize_input(&pieces, 7, &read_float), Err(LispError::EmptyInput));
}

#[test]
fn tokenize_list_closes_or_runs_out() {
    let pieces = strings(&[")", "X", "Y"]);
    assert_eq!(
        tokenize_list(&pieces, 0, true, &read_float),
        Ok((vec![symbol("NIL"), Token::RParen], 1))
    );
    assert_eq!(tokenize_list(&pieces, 0, false, &read_float), Ok((vec![Token::RParen], 1)));
    assert_eq!(
        tokenize_list(&pieces, 1, true, &read_float),
        Ok((vec![symbol("X"), symbol("Y")], 3))
    );
    assert_eq!(tokenize_list(&pieces, 3, true, &read_float), Ok((vec![], 3)));
}

#[test]
fn pieces_keep_quoted_text_and_raise_the_rest() {
    assert_eq!(
        space_separate_inputs("car \"Hello\" straße \"x"),
        strings(&["CAR", "\"Hello\"", "STRASSE", "\"X"])
    );
    assert_eq!(space_separate_inputs("a\tb\n c\u{3000}d\u{a0}e"), strings(&["A", "B", "C", "D", "E"]));
    assert_eq!(space_separate_inputs(" \" "), strings(&["\""]));
}

#[test]
fn classify_literals() {
    let kind = |text: &str| get_datatype(&String::from(text), &read_float);
    assert_eq!(kind("-12"), Token::Integer(-12));
    assert_eq!(kind("+12"), Token::Integer(12));
    assert_eq!(kind("007"), Token::Integer(7));
    assert_eq!(kind(" 5 "), Token::Integer(5));
    assert_eq!(kind("9223372036854775807"), Token::Integer(i64::MAX));
    assert_eq!(kind("-9223372036854775808"), Token::Integer(i64::MIN));
    assert_eq!(kind("9223372036854775808"), Token::Float(9223372036854775808f64.to_bits()));
    assert_eq!(kind("1.5"), Token::Float(1.5f64.to_bits()));
    assert_eq!(kind("-.5"), Token::Float((-0.5f64).to_bits()));
    assert_eq!(kind("1E3"), Token::Float(1000f64.to_bits()));
    assert_eq!(kind("+"), symbol("+"));
    assert_eq!(kind("-"), symbol("-"));
    assert_eq!(kind("1_0"), symbol("1_0"));
    assert_eq!(kind("FOO"), symbol("FOO"));
    assert_eq!(kind("\""), Token::String(String::from("\"")));
    assert_eq!(kind("\"12\""), Token::String(String::from("\"12\"")));
    assert_eq!(kind("'"), symbol("'"));
}

#[test]
fn token_texts() {
    assert_eq!(token_to_string(&Token::Integer(-40), &show_float), "-40");
    assert_eq!(token_to_string(&Token::Integer(0), &show_float), "0");
    assert_eq!(token_to_string(&Token::Integer(i64::MIN), &show_float), "-9223372036854775808");
    assert_eq!(token_to_string(&Token::Float(2.5f64.to_bits()), &show_float), "2.5");
    assert_eq!(token_to_string(&Token::String(String::from("\"a b\"")), &show_float), "\"a b\"");
    assert_eq!(token_to_string(&symbol("CAR"), &show_float), "CAR");
    assert_eq!(token_to_string(&Token::LParen, &show_float), "(");
    assert_eq!(token_to_string(&Token::RParen, &show_float), ")");
}
