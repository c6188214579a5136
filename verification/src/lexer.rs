//! The reader: from text to tokens.
use crate::decimal::{int_chars, int_text, parse_int, read_int};
use crate::error::LispError;
use crate::text::{
    char_is_space, chars_of, is_quoted, is_space, quoted, string_of, trim, trimmed, uppercase,
};
use vstd::prelude::*;

verus! {

/// A token of the reader.
///
/// A float is held as the bits of an IEEE 754 double.
#[derive(Debug, PartialEq)]
pub enum Token {
    Integer(i64),
    Float(u64),
    String(String),
    Symbol(String),
    LParen,
    RParen,
}

/// The mathematical value of a [`Token`].
pub enum Lexeme {
    Integer(i64),
    Float(u64),
    String(Seq<char>),
    Symbol(Seq<char>),
    LParen,
    RParen,
}

impl View for Token {
    type V = Lexeme;

    open spec fn view(&self) -> Lexeme {
        match self {
            Token::Integer(i) => Lexeme::Integer(*i),
            Token::Float(bits) => Lexeme::Float(*bits),
            Token::String(s) => Lexeme::String(s@),
            Token::Symbol(s) => Lexeme::Symbol(s@),
            Token::LParen => Lexeme::LParen,
            Token::RParen => Lexeme::RParen,
        }
    }
}

impl Clone for Token {
    fn clone(&self) -> (r: Token)
        ensures
            r@ == self@,
    {
        match self {
            Token::Integer(i) => Token::Integer(*i),
            Token::Float(bits) => Token::Float(*bits),
            Token::String(s) => Token::String(s.clone()),
            Token::Symbol(s) => Token::Symbol(s.clone()),
            Token::LParen => Token::LParen,
            Token::RParen => Token::RParen,
        }
    }
}

/// The lexemes of a sequence of tokens, one for one.
pub open spec fn lexemes(tokens: Seq<Token>) -> Seq<Lexeme> {
    Seq::new(tokens.len(), |i: int| tokens[i]@)
}

/// The character sequences of a sequence of strings, one for one.
pub open spec fn texts(pieces: Seq<String>) -> Seq<Seq<char>> {
    Seq::new(pieces.len(), |i: int| pieces[i]@)
}

/// The text of a lexeme, given the text of each float.
pub open spec fn lexeme_text(model: spec_fn(u64) -> Seq<char>, t: Lexeme) -> Seq<char> {
    match t {
        Lexeme::Integer(i) => int_text(i as int),
        Lexeme::Float(bits) => model(bits),
        Lexeme::String(s) => s,
        Lexeme::Symbol(s) => s,
        Lexeme::LParen => seq!['('],
        Lexeme::RParen => seq![')'],
    }
}

/// The text of a token, with a float rendered by `render_float`.
pub fn token_to_string<R: Fn(u64) -> String>(v: &Token, render_float: &R) -> (r: String)
    requires
        forall|bits: u64| render_float.requires((bits,)),
    ensures
        forall|model: spec_fn(u64) -> Seq<char>| #[trigger]
            crate::printer::renders(*render_float, model) ==> r@ == lexeme_text(model, v@),
{
    match v {
        Token::Integer(i) => string_of(&int_chars(*i)),
        Token::Float(bits) => render_float(*bits),
        Token::String(s) => s.clone(),
        Token::Symbol(s) => s.clone(),
        Token::LParen => {
            let mut out = String::new();
            out.push('(');
            assert(out@ =~= seq!['(']);
            out
        },
        Token::RParen => {
            let mut out = String::new();
            out.push(')');
            assert(out@ =~= seq![')']);
            out
        },
    }
}

/// Whether a character stands for itself as a token: a parenthesis or the
/// quote sigil.
pub open spec fn is_structural(c: char) -> bool {
    c == '(' || c == ')' || c == '\''
}

/// The text with a space before and after each structural character.
pub open spec fn spaced(s: Seq<char>) -> Seq<char>
    decreases s.len(),
{
    if s.len() == 0 {
        Seq::empty()
    } else if is_structural(s.last()) {
        spaced(s.drop_last()) + seq![' ', s.last(), ' ']
    } else {
        spaced(s.drop_last()).push(s.last())
    }
}

/// Puts a space before and after each parenthesis and each quote sigil.
pub fn space_inputs(input: &String) -> (r: String)
    ensures
        r@ == spaced(input@),
{
    let chars = chars_of(input.as_str());
    let mut out = String::new();
    let mut i: usize = 0;
    assert(chars@.take(0) =~= Seq::<char>::empty());
    while i < chars.len()
        invariant
            i <= chars.len(),
            out@ == spaced(chars@.take(i as int)),
        decreases chars.len() - i,
    {
        let c = chars[i];
        let ghost before = out@;
        assert(chars@.take(i + 1).drop_last() =~= chars@.take(i as int));
        assert(chars@.take(i + 1).last() == c);
        if c == '(' || c == ')' || c == '\'' {
            out.push(' ');
            out.push(c);
            out.push(' ');
            assert(out@ =~= before + seq![' ', c, ' ']);
        } else {
            out.push(c);
        }
        i += 1;
    }
    assert(chars@.take(chars.len() as int) =~= chars@);
    out
}

/// The words read so far and the word being read, after the characters of
/// `s`: a white-space character ends the word being read, and any other
/// character goes to its end.
pub open spec fn scan(s: Seq<char>) -> (Seq<Seq<char>>, Seq<char>)
    decreases s.len(),
{
    if s.len() == 0 {
        (Seq::empty(), Seq::empty())
    } else {
        let (done, word) = scan(s.drop_last());
        if !is_space(s.last()) {
            (done, word.push(s.last()))
        } else if word.len() > 0 {
            (done.push(word), Seq::empty())
        } else {
            (done, word)
        }
    }
}

/// The words of a text: its longest runs of characters that are not white
/// space, in order.
pub open spec fn words(s: Seq<char>) -> Seq<Seq<char>> {
    let (done, word) = scan(s);
    if word.len() > 0 {
        done.push(word)
    } else {
        done
    }
}

/// Whether a text is a word: not empty, and without white space.
pub open spec fn is_word(w: Seq<char>) -> bool {
    w.len() > 0 && forall|j: int| 0 <= j < w.len() ==> !is_space(#[trigger] w[j])
}

/// Every word read so far is a word, and the word being read holds no
/// white space.
pub proof fn lemma_scan_gives_words(s: Seq<char>)
    ensures
        forall|i: int| 0 <= i < scan(s).0.len() ==> is_word(#[trigger] scan(s).0[i]),
        forall|j: int| 0 <= j < scan(s).1.len() ==> !is_space(#[trigger] scan(s).1[j]),
    decreases s.len(),
{
    if s.len() > 0 {
        lemma_scan_gives_words(s.drop_last());
        let (done, word) = scan(s.drop_last());
        assert forall|i: int| 0 <= i < scan(s).0.len() implies is_word(#[trigger] scan(s).0[i]) by {
            if i < done.len() {
                assert(scan(s).0[i] == done[i]);
            } else {
                assert(scan(s).0[i] == word);
            }
        }
        assert forall|j: int| 0 <= j < scan(s).1.len() implies !is_space(
            #[trigger] scan(s).1[j],
        ) by {
            if j < word.len() {
                assert(scan(s).1[j] == word[j]);
            }
        }
    }
}

/// Every word of a text is a word: none is empty, and none holds white
/// space.
pub proof fn lemma_words_are_words(s: Seq<char>)
    ensures
        forall|i: int| 0 <= i < words(s).len() ==> is_word(#[trigger] words(s)[i]),
{
    lemma_scan_gives_words(s);
}

/// A word as the reader takes it: as it stands where double quotes delimit
/// it, else in upper case.
pub open spec fn normalized(word: Seq<char>) -> Seq<char> {
    if is_quoted(word) {
        word
    } else {
        uppercase(word)
    }
}

/// The words, each normalized.
pub open spec fn normalized_all(ws: Seq<Seq<char>>) -> Seq<Seq<char>> {
    Seq::new(ws.len(), |i: int| normalized(ws[i]))
}

/// The pieces of a text: its words, each normalized.
pub open spec fn pieces_of(s: Seq<char>) -> Seq<Seq<char>> {
    normalized_all(words(s))
}

fn normalize(word: &Vec<char>) -> (r: String)
    ensures
        r@ == normalized(word@),
{
    let text = string_of(word);
    if quoted(word) {
        text
    } else {
        text.as_str().to_uppercase()
    }
}

/// Splits a text at white space, and puts every piece that is not delimited
/// by double quotes in upper case.
pub fn space_separate_inputs(input: &str) -> (r: Vec<String>)
    ensures
        texts(r@) == pieces_of(input@),
{
    let chars = chars_of(input);
    let mut out: Vec<String> = Vec::new();
    let mut word: Vec<char> = Vec::new();
    let mut i: usize = 0;
    assert(chars@.take(0) =~= Seq::<char>::empty());
    assert(texts(out@) =~= normalized_all(Seq::<Seq<char>>::empty()));
    while i < chars.len()
        invariant
            i <= chars.len(),
            word@ == scan(chars@.take(i as int)).1,
            texts(out@) == normalized_all(scan(chars@.take(i as int)).0),
        decreases chars.len() - i,
    {
        let c = chars[i];
        assert(chars@.take(i + 1).drop_last() =~= chars@.take(i as int));
        assert(chars@.take(i + 1).last() == c);
        let ghost done = scan(chars@.take(i as int)).0;
        if !char_is_space(c) {
            word.push(c);
        } else if word.len() > 0 {
            let piece = normalize(&word);
            let ghost before = out@;
            assert(texts(before).len() == normalized_all(done).len());
            out.push(piece);
            assert forall|k: int| 0 <= k < out@.len() implies texts(out@)[k] == normalized_all(
                done.push(word@),
            )[k] by {
                if k < before.len() {
                    assert(texts(before)[k] == normalized_all(done)[k]);
                    assert(done.push(word@)[k] == done[k]);
                }
            }
            assert(texts(out@) =~= normalized_all(done.push(word@)));
            word = Vec::new();
        }
        i += 1;
    }
    assert(chars@.take(chars.len() as int) =~= chars@);
    if word.len() > 0 {
        let ghost done = scan(chars@).0;
        let piece = normalize(&word);
        let ghost before = out@;
        assert(texts(before).len() == normalized_all(done).len());
        out.push(piece);
        assert forall|k: int| 0 <= k < out@.len() implies texts(out@)[k] == normalized_all(
            done.push(word@),
        )[k] by {
            if k < before.len() {
                assert(texts(before)[k] == normalized_all(done)[k]);
                assert(done.push(word@)[k] == done[k]);
            }
        }
        assert(texts(out@) =~= normalized_all(done.push(word@)));
    }
    out
}

/// A model of reading floats: the bits of the double that a text denotes, if
/// it denotes one.
pub type FloatReader = spec_fn(Seq<char>) -> Option<u64>;

/// Whether `f` reads floats as `model` says: whatever `f` may return for a
/// text is what `model` gives for its characters.
pub open spec fn reads<P: Fn(String) -> Option<u64>>(f: P, model: FloatReader) -> bool {
    forall|text: String, r: Option<u64>| #[trigger] f.ensures((text,), r) ==> r == model(text@)
}

/// Whether `f` may be called on every text.
pub open spec fn reads_all<P: Fn(String) -> Option<u64>>(f: P) -> bool {
    forall|text: String| #[trigger] f.requires((text,))
}

/// The lexeme that a piece is.
///
/// The two parentheses are themselves. Any other piece, without the white
/// space at its ends, is an integer where it denotes one, else a float where
/// the model reads one. What is left is a string where double quotes
/// delimit it, and a symbol where they do not.
pub open spec fn classify(model: FloatReader, piece: Seq<char>) -> Lexeme {
    if piece == seq!['('] {
        Lexeme::LParen
    } else if piece == seq![')'] {
        Lexeme::RParen
    } else {
        match parse_int(trimmed(piece)) {
            Some(i) => Lexeme::Integer(i),
            None => match model(trimmed(piece)) {
                Some(bits) => Lexeme::Float(bits),
                None => if is_quoted(piece) {
                    Lexeme::String(piece)
                } else {
                    Lexeme::Symbol(piece)
                },
            },
        }
    }
}

fn is_char(piece: &Vec<char>, c: char) -> (r: bool)
    ensures
        r == (piece@ == seq![c]),
{
    if piece.len() == 1 && piece[0] == c {
        assert(piece@ =~= seq![c]);
        true
    } else {
        false
    }
}

/// Tells which token a piece is; `parse_float` reads the floats.
pub fn get_datatype<P: Fn(String) -> Option<u64>>(input: &String, parse_float: &P) -> (r: Token)
    requires
        reads_all(*parse_float),
    ensures
        forall|model: FloatReader| #[trigger]
            reads(*parse_float, model) ==> r@ == classify(model, input@),
{
    let chars = chars_of(input.as_str());
    if is_char(&chars, '(') {
        return Token::LParen;
    }
    if is_char(&chars, ')') {
        return Token::RParen;
    }
    let inner = trim(&chars);
    match read_int(&inner) {
        Some(i) => Token::Integer(i),
        None => match parse_float(string_of(&inner)) {
            Some(bits) => Token::Float(bits),
            None => if quoted(&chars) {
                Token::String(input.clone())
            } else {
                Token::Symbol(input.clone())
            },
        },
    }
}

/// The tokens of the form that starts at `pieces[pos]`, and the place after
/// it.
///
/// `(` opens a list: its token, then those of the list's items. The quote
/// sigil stands for a list of the symbol `QUOTE` and the form after it, and
/// fails where no form follows. Any other piece is one token. Past the end
/// there is nothing to read.
pub open spec fn read_form(model: FloatReader, pieces: Seq<Seq<char>>, pos: nat) -> Result<
    (Seq<Lexeme>, nat),
    LispError,
>
    decreases pieces.len() - pos, 0nat,
{
    if pos >= pieces.len() {
        Err(LispError::EmptyInput)
    } else if pieces[pos as int] == seq!['('] {
        match read_items(model, pieces, pos + 1, true) {
            Ok((tokens, next)) => Ok((seq![Lexeme::LParen] + tokens, next)),
            Err(e) => Err(e),
        }
    } else if pieces[pos as int] == seq!['\''] {
        if pos + 1 >= pieces.len() || pieces[pos as int + 1] == seq![')'] {
            Err(LispError::DanglingQuote)
        } else {
            match read_form(model, pieces, pos + 1) {
                Ok((tokens, next)) => Ok(
                    (
                        seq![Lexeme::LParen, Lexeme::Symbol("QUOTE"@)] + tokens + seq![
                            Lexeme::RParen,
                        ],
                        next,
                    ),
                ),
                Err(e) => Err(e),
            }
        }
    } else {
        Ok((seq![classify(model, pieces[pos as int])], pos + 1))
    }
}

/// The tokens of the items of a list from `pieces[pos]` on, with those that
/// close it, and the place after them. `empty` says that no item of the list
/// was read yet.
///
/// `)` closes the list; in a list without items the symbol `NIL` comes
/// before it. Where the pieces end, the list ends without a closing token.
/// Anything else is a form, and more items follow it. (A form takes at least
/// one piece; the comparison of the places is what shows that reading ends.)
pub open spec fn read_items(
    model: FloatReader,
    pieces: Seq<Seq<char>>,
    pos: nat,
    empty: bool,
) -> Result<(Seq<Lexeme>, nat), LispError>
    decreases pieces.len() - pos, 1nat,
{
    if pos >= pieces.len() {
        Ok((Seq::empty(), pos))
    } else if pieces[pos as int] == seq![')'] {
        if empty {
            Ok((seq![Lexeme::Symbol("NIL"@), Lexeme::RParen], pos + 1))
        } else {
            Ok((seq![Lexeme::RParen], pos + 1))
        }
    } else {
        match read_form(model, pieces, pos) {
            Ok((tokens, next)) => if next <= pos || next > pieces.len() {
                Ok((tokens, next))
            } else {
                match read_items(model, pieces, next, false) {
                    Ok((more, end)) => Ok((tokens + more, end)),
                    Err(e) => Err(e),
                }
            },
            Err(e) => Err(e),
        }
    }
}

/// A form takes at least one piece and ends within the pieces.
pub proof fn lemma_read_form_advances(model: FloatReader, pieces: Seq<Seq<char>>, pos: nat)
    ensures
        read_form(model, pieces, pos) is Ok ==> pos < read_form(model, pieces, pos)->Ok_0.1
            <= pieces.len(),
    decreases pieces.len() - pos, 0nat,
{
    if pos < pieces.len() {
        if pieces[pos as int] == seq!['('] {
            lemma_read_items_advances(model, pieces, pos + 1, true);
        } else if pieces[pos as int] == seq!['\''] {
            if !(pos + 1 >= pieces.len() || pieces[pos as int + 1] == seq![')']) {
                lemma_read_form_advances(model, pieces, pos + 1);
            }
        }
    }
}

/// The items of a list end at or after the place where they start, within
/// the pieces.
pub proof fn lemma_read_items_advances(
    model: FloatReader,
    pieces: Seq<Seq<char>>,
    pos: nat,
    empty: bool,
)
    requires
        pos <= pieces.len(),
    ensures
        read_items(model, pieces, pos, empty) is Ok ==> pos <= read_items(
            model,
            pieces,
            pos,
            empty,
        )->Ok_0.1 <= pieces.len(),
    decreases pieces.len() - pos, 1nat,
{
    if pos < pieces.len() && pieces[pos as int] != seq![')'] {
        lemma_read_form_advances(model, pieces, pos);
        match read_form(model, pieces, pos) {
            Ok((tokens, next)) => {
                lemma_read_items_advances(model, pieces, next, false);
            },
            Err(_) => {},
        }
    }
}

fn is_piece(piece: &String, c: char) -> (r: bool)
    ensures
        r == (piece@ == seq![c]),
{
    let chars = chars_of(piece.as_str());
    is_char(&chars, c)
}

fn symbol_of(name: &str) -> (r: Token)
    ensures
        r@ == Lexeme::Symbol(name@),
{
    Token::Symbol(name.to_string())
}

fn append_tokens(tokens: &mut Vec<Token>, more: Vec<Token>)
    ensures
        lexemes(final(tokens)@) == lexemes(old(tokens)@) + lexemes(more@),
{
    let mut more = more;
    let ghost added = more@;
    tokens.append(&mut more);
    assert(lexemes(tokens@) =~= lexemes(old(tokens)@) + lexemes(added));
}

/// Reads the tokens of one form, from `pieces[pos]` on, and tells where the
/// form ends.
pub fn tokenize_input<P: Fn(String) -> Option<u64>>(
    pieces: &Vec<String>,
    pos: usize,
    parse_float: &P,
) -> (r: Result<(Vec<Token>, usize), LispError>)
    requires
        reads_all(*parse_float),
    ensures
        forall|model: FloatReader| #[trigger]
            reads(*parse_float, model) ==> match read_form(model, texts(pieces@), pos as nat) {
                Ok((tokens, next)) => r is Ok && lexemes(r->Ok_0.0@) == tokens && r->Ok_0.1 == next,
                Err(e) => r == Err::<(Vec<Token>, usize), LispError>(e),
            },
    decreases pieces.len() - pos, 0nat,
{
    if pos >= pieces.len() {
        return Err(LispError::EmptyInput);
    }
    let mut tokens: Vec<Token> = Vec::new();
    if is_piece(&pieces[pos], '(') {
        tokens.push(Token::LParen);
        match tokenize_list(pieces, pos + 1, true, parse_float) {
            Ok((items, next)) => {
                let ghost listed = lexemes(items@);
                append_tokens(&mut tokens, items);
                assert(lexemes(tokens@) =~= seq![Lexeme::LParen] + listed);
                Ok((tokens, next))
            },
            Err(e) => Err(e),
        }
    } else if is_piece(&pieces[pos], '\'') {
        if pos + 1 >= pieces.len() || is_piece(&pieces[pos + 1], ')') {
            return Err(LispError::DanglingQuote);
        }
        tokens.push(Token::LParen);
        tokens.push(symbol_of("QUOTE"));
        match tokenize_input(pieces, pos + 1, parse_float) {
            Ok((form, next)) => {
                let ghost quoted = lexemes(form@);
                let ghost head = tokens@;
                assert(lexemes(head) =~= seq![Lexeme::LParen, Lexeme::Symbol("QUOTE"@)]);
                append_tokens(&mut tokens, form);
                let ghost body = tokens@;
                tokens.push(Token::RParen);
                assert(lexemes(tokens@) =~= lexemes(body) + seq![Lexeme::RParen]);
                assert(lexemes(tokens@) =~= seq![Lexeme::LParen, Lexeme::Symbol("QUOTE"@)] + quoted
                    + seq![Lexeme::RParen]);
                Ok((tokens, next))
            },
            Err(e) => Err(e),
        }
    } else {
        let token = get_datatype(&pieces[pos], parse_float);
        tokens.push(token);
        proof {
            assert forall|model: FloatReader| #[trigger] reads(*parse_float, model) implies lexemes(
                tokens@,
            ) == seq![classify(model, texts(pieces@)[pos as int])] by {
                assert(lexemes(tokens@) =~= seq![classify(model, texts(pieces@)[pos as int])]);
            }
        }
        Ok((tokens, pos + 1))
    }
}

/// Reads the tokens of the items of a list, from `pieces[pos]` on, with the
/// tokens that close it, and tells where the list ends.
pub fn tokenize_list<P: Fn(String) -> Option<u64>>(
    pieces: &Vec<String>,
    pos: usize,
    empty: bool,
    parse_float: &P,
) -> (r: Result<(Vec<Token>, usize), LispError>)
    requires
        reads_all(*parse_float),
    ensures
        forall|model: FloatReader| #[trigger]
            reads(*parse_float, model) ==> match read_items(
                model,
                texts(pieces@),
                pos as nat,
                empty,
            ) {
                Ok((tokens, next)) => r is Ok && lexemes(r->Ok_0.0@) == tokens && r->Ok_0.1 == next,
                Err(e) => r == Err::<(Vec<Token>, usize), LispError>(e),
            },
    decreases pieces.len() - pos, 1nat,
{
    let mut tokens: Vec<Token> = Vec::new();
    if pos >= pieces.len() {
        assert(lexemes(tokens@) =~= Seq::<Lexeme>::empty());
        return Ok((tokens, pos));
    }
    if is_piece(&pieces[pos], ')') {
        if empty {
            tokens.push(symbol_of("NIL"));
        }
        tokens.push(Token::RParen);
        proof {
            if empty {
                assert(lexemes(tokens@) =~= seq![Lexeme::Symbol("NIL"@), Lexeme::RParen]);
            } else {
                assert(lexemes(tokens@) =~= seq![Lexeme::RParen]);
            }
        }
        return Ok((tokens, pos + 1));
    }
    match tokenize_input(pieces, pos, parse_float) {
        Ok((form, next)) => {
            if next <= pos || next > pieces.len() {
                return Ok((form, next));
            }
            match tokenize_list(pieces, next, false, parse_float) {
                Ok((more, end)) => {
                    let mut form = form;
                    append_tokens(&mut form, more);
                    Ok((form, end))
                },
                Err(e) => Err(e),
            }
        },
        Err(e) => Err(e),
    }
}

/// The tokens of a sequence of pieces: those of its first form.
pub open spec fn tokens_of(model: FloatReader, pieces: Seq<Seq<char>>) -> Result<
    Seq<Lexeme>,
    LispError,
> {
    match read_form(model, pieces, 0) {
        Ok((tokens, _)) => Ok(tokens),
        Err(e) => Err(e),
    }
}

/// Reads the tokens of the first form among the pieces. No piece at all is
/// an error.
pub fn tokenize_inputs<P: Fn(String) -> Option<u64>>(input: Vec<String>, parse_float: &P) -> (r:
    Result<Vec<Token>, LispError>)
    requires
        reads_all(*parse_float),
    ensures
        forall|model: FloatReader| #[trigger]
            reads(*parse_float, model) ==> match tokens_of(model, texts(input@)) {
                Ok(tokens) => r is Ok && lexemes(r->Ok_0@) == tokens,
                Err(e) => r == Err::<Vec<Token>, LispError>(e),
            },
{
    match tokenize_input(&input, 0, parse_float) {
        Ok((tokens, _)) => Ok(tokens),
        Err(e) => Err(e),
    }
}

/// Reads a text: the tokens of its first form.
///
/// The text is spaced out round its structural characters and split at
/// white space; the pieces are put in upper case, but for those between
/// double quotes; then the tokens of the first form are read. A text
/// without a piece is an error, and so is a quote sigil without a form.
pub fn tokenize<P: Fn(String) -> Option<u64>>(input: &String, parse_float: &P) -> (r: Result<
    Vec<Token>,
    LispError,
>)
    requires
        reads_all(*parse_float),
    ensures
        forall|model: FloatReader| #[trigger]
            reads(*parse_float, model) ==> match tokens_of(model, pieces_of(spaced(input@))) {
                Ok(tokens) => r is Ok && lexemes(r->Ok_0@) == tokens,
                Err(e) => r == Err::<Vec<Token>, LispError>(e),
            },
{
    let spaced_input = space_inputs(input);
    let space_separated_input: Vec<String> = space_separate_inputs(spaced_input.as_str());
    tokenize_inputs(space_separated_input, parse_float)
}

/// Where reading succeeds, there is at least one token.
pub proof fn lemma_tokens_nonempty(model: FloatReader, pieces: Seq<Seq<char>>)
    ensures
        tokens_of(model, pieces) is Ok ==> tokens_of(model, pieces)->Ok_0.len() > 0,
{
    if pieces.len() > 0 && pieces[0] == seq!['\''] && !(1 >= pieces.len() || pieces[1] == seq![
        ')',
    ]) {
        assert(read_form(model, pieces, 0) is Ok ==> read_form(model, pieces, 0)->Ok_0.0.len()
            > 0);
    }
}

} // verus!
