//! The parser: from tokens to an expression.
use crate::error::LispError;
use crate::lexer::{lexemes, Lexeme, Token};
use crate::sexpr::{views, Form, Sexpr};
use crate::text::same_text;
use vstd::prelude::*;

verus! {

/// The atom that a lexeme stands for.
///
/// A number and a string are themselves. The symbol `T` is the true
/// singleton and the symbol `NIL` the empty one; any other symbol is
/// itself. A parenthesis is no atom and stands for `Nil`.
pub open spec fn atom_form(t: Lexeme) -> Form {
    match t {
        Lexeme::Integer(i) => Form::Integer(i),
        Lexeme::Float(bits) => Form::Float(bits),
        Lexeme::String(s) => Form::String(s),
        Lexeme::Symbol(s) => if s == "T"@ {
            Form::T
        } else if s == "NIL"@ {
            Form::Nil
        } else {
            Form::Symbol(s)
        },
        _ => Form::Nil,
    }
}

/// The items of a list whose tokens start at `tokens[pos]`, and the place
/// after the token that closes it.
///
/// `)` closes the list. `(` opens an inner list, which is one item, and
/// more items follow it. Any other token is an atom. Where the tokens end,
/// the list ends. (An inner list takes at least one token; the comparison
/// of the places is what shows that parsing ends.)
pub open spec fn parse_items(tokens: Seq<Lexeme>, pos: nat) -> (Seq<Form>, nat)
    decreases tokens.len() - pos,
{
    if pos >= tokens.len() {
        (Seq::empty(), pos)
    } else {
        match tokens[pos as int] {
            Lexeme::RParen => (Seq::empty(), pos + 1),
            Lexeme::LParen => {
                let (inner, next) = parse_items(tokens, pos + 1);
                if next <= pos || next > tokens.len() {
                    (seq![Form::List(inner)], next)
                } else {
                    let (more, end) = parse_items(tokens, next);
                    (seq![Form::List(inner)] + more, end)
                }
            },
            atom => {
                let (more, end) = parse_items(tokens, pos + 1);
                (seq![atom_form(atom)] + more, end)
            },
        }
    }
}

/// The items of a list end after the place where they start, within the
/// tokens.
pub proof fn lemma_parse_items_advances(tokens: Seq<Lexeme>, pos: nat)
    requires
        pos <= tokens.len(),
    ensures
        pos <= parse_items(tokens, pos).1 <= tokens.len(),
        pos < tokens.len() ==> pos < parse_items(tokens, pos).1,
    decreases tokens.len() - pos,
{
    if pos < tokens.len() {
        match tokens[pos as int] {
            Lexeme::RParen => {},
            Lexeme::LParen => {
                lemma_parse_items_advances(tokens, pos + 1);
                let (inner, next) = parse_items(tokens, pos + 1);
                lemma_parse_items_advances(tokens, next);
            },
            _ => {
                lemma_parse_items_advances(tokens, pos + 1);
            },
        }
    }
}

/// The form that a sequence of tokens stands for: the list that they open
/// where the first is `(`, else the atom that the first is.
pub open spec fn parse_form(tokens: Seq<Lexeme>) -> Form
    recommends
        tokens.len() > 0,
{
    if tokens[0] is LParen {
        Form::List(parse_items(tokens, 1).0)
    } else {
        atom_form(tokens[0])
    }
}

/// Turns a token that is no parenthesis into the atom it stands for.
pub fn parse_atom(token: &Token) -> (r: Sexpr)
    ensures
        r@ == atom_form(token@),
{
    match token {
        Token::Integer(i) => Sexpr::Integer(*i),
        Token::Float(bits) => Sexpr::Float(*bits),
        Token::String(s) => Sexpr::String(s.clone()),
        Token::Symbol(s) => {
            if same_text(s.as_str(), "T") {
                Sexpr::T
            } else if same_text(s.as_str(), "NIL") {
                Sexpr::Nil
            } else {
                Sexpr::Symbol(s.clone())
            }
        },
        _ => Sexpr::Nil,
    }
}

/// Tells whether the tokens open a list.
pub fn is_list(tokens: &Vec<Token>) -> (r: bool)
    requires
        tokens.len() > 0,
    ensures
        r == (tokens[0]@ is LParen),
{
    match &tokens[0] {
        Token::LParen => true,
        _ => false,
    }
}

/// Parses a list from tokens that stand in reverse order, the next one at
/// the end: takes the token that opens the list, whatever it is, then the
/// items up to the token that closes it, and leaves the tokens after that.
pub fn parse_list(tokens: &mut Vec<Token>) -> (r: Sexpr)
    ensures
        ({
            let forward = lexemes(old(tokens)@.reverse());
            let (listed, next) = parse_items(forward, 1);
            &&& r@ == Form::List(listed)
            &&& final(tokens)@ == if old(tokens)@.len() == 0 {
                old(tokens)@
            } else {
                old(tokens)@.take(old(tokens)@.len() - next)
            }
            &&& old(tokens)@.len() > 0 ==> final(tokens)@.len() < old(tokens)@.len()
        }),
    decreases old(tokens)@.len(),
{
    let ghost start = tokens@;
    let ghost forward = lexemes(start.reverse());
    let nothing = tokens.len() == 0;
    let _ = tokens.pop();
    let mut list: Vec<Sexpr> = Vec::new();
    if nothing {
        assert(views(list@) =~= Seq::<Form>::empty());
        assert(forward =~= Seq::<Lexeme>::empty());
        return Sexpr::List(list);
    }
    let ghost mut pos: nat = 1;
    assert(tokens@ =~= start.take(start.len() - 1));
    assert(views(list@) + parse_items(forward, 1).0 =~= parse_items(forward, 1).0);
    while tokens.len() > 0
        invariant
            start == old(tokens)@,
            forward == lexemes(start.reverse()),
            1 <= pos <= start.len(),
            tokens@ == start.take(start.len() - pos),
            parse_items(forward, 1).0 == views(list@) + parse_items(forward, pos).0,
            parse_items(forward, 1).1 == parse_items(forward, pos).1,
        decreases start.len() - pos,
    {
        let ghost before = tokens@;
        let ghost done = views(list@);
        proof {
            lemma_parse_items_advances(forward, pos + 1);
        }
        let token = tokens.pop();
        if let Some(token1) = token {
            assert(token1@ == forward[pos as int]);
            assert(tokens@ =~= start.take(start.len() - pos - 1));
            match token1 {
                Token::RParen => {
                    assert(views(list@) + Seq::<Form>::empty() =~= views(list@));
                    return Sexpr::List(list);
                },
                Token::LParen => {
                    tokens.push(Token::LParen);
                    assert(tokens@ =~= before);
                    assert(lexemes(before.reverse()) =~= forward.skip(pos as int - 0)) by {
                        assert(before.reverse() =~= start.reverse().skip(pos as int));
                    }
                    proof {
                        lemma_parse_items_shift(forward, pos, 1);
                    }
                    let inner = parse_list(tokens);
                    let ghost next = parse_items(forward, pos + 1).1;
                    assert(tokens@ =~= start.take(start.len() - next));
                    proof {
                        lemma_parse_items_advances(forward, next);
                    }
                    list.push(inner);
                    assert(views(list@) =~= done + seq![inner@]);
                    assert(done + (seq![inner@] + parse_items(forward, next).0) =~= (done + seq![
                        inner@,
                    ]) + parse_items(forward, next).0);
                    proof {
                        pos = next;
                    }
                },
                t => {
                    let atom = parse_atom(&t);
                    list.push(atom);
                    assert(views(list@) =~= done + seq![atom@]);
                    assert(done + (seq![atom@] + parse_items(forward, pos + 1).0) =~= (done + seq![
                        atom@,
                    ]) + parse_items(forward, pos + 1).0);
                    proof {
                        pos = pos + 1;
                    }
                },
            }
        }
    }
    assert(views(list@) + Seq::<Form>::empty() =~= views(list@));
    Sexpr::List(list)
}

/// Parsing the items of a list gives the same items wherever the tokens
/// stand: dropping `k` tokens from the front moves every place by `k`.
pub proof fn lemma_parse_items_shift(tokens: Seq<Lexeme>, k: nat, pos: nat)
    requires
        k <= tokens.len(),
    ensures
        parse_items(tokens.skip(k as int), pos).0 == parse_items(tokens, k + pos).0,
        parse_items(tokens.skip(k as int), pos).1 + k == parse_items(tokens, k + pos).1,
    decreases tokens.len() - k - pos,
{
    let tail = tokens.skip(k as int);
    if pos < tail.len() {
        assert(tail[pos as int] == tokens[(k + pos) as int]);
        match tail[pos as int] {
            Lexeme::RParen => {},
            Lexeme::LParen => {
                lemma_parse_items_shift(tokens, k, pos + 1);
                lemma_parse_items_advances(tail, pos + 1);
                let (inner, next) = parse_items(tail, pos + 1);
                lemma_parse_items_shift(tokens, k, next);
            },
            _ => {
                lemma_parse_items_shift(tokens, k, pos + 1);
            },
        }
    }
}

/// Puts the tokens in reverse order.
pub fn reverse_tokens(tokens: &mut Vec<Token>)
    ensures
        final(tokens)@ == old(tokens)@.reverse(),
{
    let mut out: Vec<Token> = Vec::new();
    let ghost start = tokens@;
    while tokens.len() > 0
        invariant
            tokens@.len() <= start.len(),
            tokens@ == start.take(tokens@.len() as int),
            out@ == start.skip(tokens@.len() as int).reverse(),
        decreases tokens.len(),
    {
        let ghost n = tokens@.len();
        match tokens.pop() {
            Some(t) => {
                out.push(t);
                assert(tokens@ =~= start.take(n - 1));
                assert(out@ =~= start.skip(n - 1).reverse());
            },
            None => {},
        }
    }
    assert(start.skip(0) =~= start);
    *tokens = out;
}

/// Parses the form that the tokens stand for.
///
/// A list consumes its tokens: what is left are the tokens after the one
/// that closes it, in reverse order. An atom leaves the tokens as they are.
/// Without a token there is nothing to parse.
pub fn parse(tokens: &mut Vec<Token>) -> (r: Result<Sexpr, LispError>)
    ensures
        ({
            let given = old(tokens)@;
            let left = final(tokens)@;
            if given.len() == 0 {
                r == Err::<Sexpr, LispError>(LispError::NoTokens) && left == given
            } else {
                &&& r is Ok
                &&& r->Ok_0@ == parse_form(lexemes(given))
                &&& left == if given[0]@ is LParen {
                    given.skip(parse_items(lexemes(given), 1).1 as int).reverse()
                } else {
                    given
                }
            }
        }),
{
    if tokens.len() == 0 {
        return Err(LispError::NoTokens);
    }
    if is_list(tokens) {
        let ghost start = tokens@;
        reverse_tokens(tokens);
        assert(tokens@.reverse() =~= start);
        let r = parse_list(tokens);
        proof {
            let next = parse_items(lexemes(start), 1).1;
            lemma_parse_items_advances(lexemes(start), 1);
            assert(start.reverse().take(start.len() - next) =~= start.skip(next as int).reverse());
        }
        return Ok(r);
    }
    Ok(parse_atom(&tokens[0]))
}

} // verus!
