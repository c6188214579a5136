//! What a command line front end needs besides reading and printing:
//! counting parentheses, telling commands apart, and one turn of the loop.
use crate::error::LispError;
use crate::eval::{
    computes, eval_form, evaluate, grown, lemma_unchanged_has_grown, outcome_of, result_of,
    total, FloatModel, Outcome, Session, World,
};
use crate::float::{ArithOp, Number};
use crate::lexer::{pieces_of, reads, reads_all, spaced, tokenize, tokens_of, FloatReader};
use crate::parse::{parse, parse_form};
use crate::printer::{form_text, renders, sexpr_to_string, write_sexpr};
use crate::sexpr::{clone_alist, views, Form, Sexpr};
use crate::text::chars_of;
use vstd::prelude::*;

verus! {

/// What a character adds to the balance of parentheses: one for `(`, minus
/// one for `)`, nothing for any other.
pub open spec fn paren_weight(c: char) -> int {
    if c == '(' {
        1
    } else if c == ')' {
        -1
    } else {
        0
    }
}

/// The number of `(` in a text less the number of `)`.
pub open spec fn balance(s: Seq<char>) -> int
    decreases s.len(),
{
    if s.len() == 0 {
        0
    } else {
        balance(s.drop_last()) + paren_weight(s.last())
    }
}

/// Whether the balance of every prefix of the text fits in an `i16`.
pub open spec fn balance_fits(s: Seq<char>) -> bool {
    forall|k: int| 0 <= k <= s.len() ==> i16::MIN <= #[trigger] balance(s.take(k)) <= i16::MAX
}

/// Counts the parentheses that a command opens and does not close.
pub fn paren_balance(command: &str) -> (bal: i16)
    requires
        balance_fits(command@),
    ensures
        bal == balance(command@),
{
    let chars = chars_of(command);
    let mut bal: i16 = 0;
    let mut i: usize = 0;
    assert(chars@.take(0) =~= Seq::<char>::empty());
    while i < chars.len()
        invariant
            i <= chars.len(),
            chars@ == command@,
            balance_fits(command@),
            bal == balance(chars@.take(i as int)),
        decreases chars.len() - i,
    {
        let c = chars[i];
        assert(chars@.take(i + 1).drop_last() =~= chars@.take(i as int));
        assert(chars@.take(i + 1).last() == c);
        assert(i16::MIN <= balance(command@.take(i + 1)) <= i16::MAX);
        if c == '(' {
            bal += 1;
        } else if c == ')' {
            bal -= 1;
        }
        i += 1;
    }
    assert(chars@.take(chars.len() as int) =~= chars@);
    bal
}

/// A text whose length fits in an `i16` has a balance that fits at every
/// prefix.
pub proof fn lemma_short_text_fits(s: Seq<char>)
    requires
        s.len() <= i16::MAX,
    ensures
        balance_fits(s),
{
    assert forall|k: int| 0 <= k <= s.len() implies i16::MIN <= #[trigger] balance(s.take(k))
        <= i16::MAX by {
        lemma_balance_bound(s.take(k));
    }
}

/// The balance of a text lies between minus its length and its length.
pub proof fn lemma_balance_bound(s: Seq<char>)
    ensures
        -s.len() <= balance(s) <= s.len(),
    decreases s.len(),
{
    if s.len() > 0 {
        lemma_balance_bound(s.drop_last());
    }
}

/// Whether a command that starts with `(` also ends with `)`; any other
/// command is in order.
pub open spec fn closes_last(s: Seq<char>) -> bool {
    s.len() > 0 && s[0] == '(' ==> s.last() == ')'
}

/// Tells whether a command that starts with `(` ends with `)`.
pub fn rparen_is_last(input: &String) -> (r: bool)
    ensures
        r == closes_last(input@),
{
    let chars = chars_of(input.as_str());
    if chars.len() > 0 && chars[0] == '(' {
        chars[chars.len() - 1] == ')'
    } else {
        true
    }
}

/// What the shell does with a command.
#[derive(Clone, Copy, Debug, PartialEq, Eq, Structural)]
pub enum Command {
    /// Leave the loop.
    Exit,
    /// Nothing to do: the command holds only spaces.
    Skip,
    /// Read and evaluate the command.
    Evaluate,
}

/// An ASCII letter in upper case; any other character as it is.
pub open spec fn ascii_upper(c: char) -> char {
    if 'a' <= c <= 'z' {
        ((c as u8) - 32) as char
    } else {
        c
    }
}

/// The text without its spaces, its ASCII letters in upper case.
pub open spec fn squeezed(s: Seq<char>) -> Seq<char>
    decreases s.len(),
{
    if s.len() == 0 {
        Seq::empty()
    } else if s.last() == ' ' {
        squeezed(s.drop_last())
    } else {
        squeezed(s.drop_last()).push(ascii_upper(s.last()))
    }
}

/// What a command asks for: to leave where it spells `EXIT` in any case and
/// with any spaces, nothing where it holds only spaces, else an evaluation.
pub open spec fn command_kind(s: Seq<char>) -> Command {
    if squeezed(s) == seq!['E', 'X', 'I', 'T'] {
        Command::Exit
    } else if squeezed(s).len() == 0 {
        Command::Skip
    } else {
        Command::Evaluate
    }
}

/// Tells what a command asks for.
pub fn match_command(command: &String) -> (r: Command)
    ensures
        r == command_kind(command@),
{
    let chars = chars_of(command.as_str());
    let mut word: Vec<char> = Vec::new();
    let mut i: usize = 0;
    assert(chars@.take(0) =~= Seq::<char>::empty());
    while i < chars.len()
        invariant
            i <= chars.len(),
            word@ == squeezed(chars@.take(i as int)),
        decreases chars.len() - i,
    {
        let c = chars[i];
        assert(chars@.take(i + 1).drop_last() =~= chars@.take(i as int));
        assert(chars@.take(i + 1).last() == c);
        if c != ' ' {
            if 'a' <= c && c <= 'z' {
                word.push(((c as u8) - 32) as char);
            } else {
                word.push(c);
            }
        }
        i += 1;
    }
    assert(chars@.take(chars.len() as int) =~= chars@);
    if word.len() == 4 && word[0] == 'E' && word[1] == 'X' && word[2] == 'I' && word[3] == 'T' {
        assert(word@ =~= seq!['E', 'X', 'I', 'T']);
        Command::Exit
    } else if word.len() == 0 {
        Command::Skip
    } else {
        Command::Evaluate
    }
}

/// What reading and evaluating a line gives: its first form, parsed and
/// evaluated against the global bindings as they stand before.
pub open spec fn interpret_form(
    reader: FloatReader,
    m: FloatModel,
    line: Seq<char>,
    w: World,
    depth: nat,
) -> Outcome {
    match tokens_of(reader, pieces_of(spaced(line))) {
        Ok(tokens) => eval_form(m, parse_form(tokens), w.globals, w, depth),
        Err(e) => Outcome { result: Err(e), world: w },
    }
}

/// One turn of the loop: reads the first form of a line, parses it, and
/// evaluates it against a copy of the session's global bindings.
pub fn interpret<P: Fn(String) -> Option<u64>, F: Fn(ArithOp, Number, Number) -> u64>(
    line: &String,
    session: &mut Session,
    depth: usize,
    parse_float: &P,
    floats: &F,
) -> (r: Result<Sexpr, LispError>)
    requires
        reads_all(*parse_float),
        total(*floats),
    ensures
        forall|reader: FloatReader, m: FloatModel|
            reads(*parse_float, reader) && computes(*floats, m) ==> outcome_of(
                r,
                final(session)@,
            ) == #[trigger] interpret_form(reader, m, line@, old(session)@, depth as nat),
        grown(old(session)@, final(session)@),
        old(session).well_formed() ==> final(session).well_formed(),
{
    proof {
        lemma_unchanged_has_grown(session@);
    }
    let mut tokens = match tokenize(line, parse_float) {
        Ok(tokens) => tokens,
        Err(e) => {
            return Err(e);
        },
    };
    proof {
        assert forall|reader: FloatReader| #[trigger] reads(*parse_float, reader) implies tokens_of(
            reader,
            pieces_of(spaced(line@)),
        ) is Ok && tokens_of(reader, pieces_of(spaced(line@)))->Ok_0.len() > 0 by {
            crate::lexer::lemma_tokens_nonempty(reader, pieces_of(spaced(line@)));
        }
    }
    let form = match parse(&mut tokens) {
        Ok(form) => form,
        Err(e) => {
            return Err(e);
        },
    };
    let snapshot = clone_alist(&session.globals);
    evaluate(form, snapshot, session, depth, floats)
}

/// What the shell shows for a result: the text of a value, or `Error: ` and
/// the message of a failure.
pub open spec fn response_text(
    model: spec_fn(u64) -> Seq<char>,
    result: Result<Form, LispError>,
) -> Seq<char> {
    match result {
        Ok(v) => form_text(model, v),
        Err(e) => "Error: "@ + e.text(),
    }
}

/// The line that the shell shows for a result.
pub fn response<R: Fn(u64) -> String>(result: &Result<Sexpr, LispError>, render_float: &R) -> (r:
    String)
    requires
        forall|bits: u64| render_float.requires((bits,)),
    ensures
        forall|model: spec_fn(u64) -> Seq<char>| #[trigger]
            renders(*render_float, model) ==> r@ == response_text(model, result_of(*result)),
{
    match result {
        Ok(v) => sexpr_to_string(v, render_float),
        Err(e) => {
            let mut out = "Error: ".to_string();
            out.append(e.message().as_str());
            out
        },
    }
}

/// The text of what was printed: the texts of the values, one after the
/// other, with nothing between them.
pub open spec fn printed_text(model: spec_fn(u64) -> Seq<char>, output: Seq<Form>) -> Seq<char>
    decreases output.len(),
{
    if output.len() == 0 {
        Seq::empty()
    } else {
        printed_text(model, output.drop_last()) + form_text(model, output.last())
    }
}

/// Takes what was printed out of the session, as the text to write: the
/// output is empty afterwards, and the bindings are as before.
pub fn take_output<R: Fn(u64) -> String>(session: &mut Session, render_float: &R) -> (r: String)
    requires
        forall|bits: u64| render_float.requires((bits,)),
    ensures
        forall|model: spec_fn(u64) -> Seq<char>| #[trigger]
            renders(*render_float, model) ==> r@ == printed_text(model, old(session)@.output),
        final(session)@.output == Seq::<Form>::empty(),
        final(session)@.globals == old(session)@.globals,
{
    let mut out = String::new();
    let mut i: usize = 0;
    assert(views(session.output@).take(0) =~= Seq::<Form>::empty());
    while i < session.output.len()
        invariant
            i <= session.output.len(),
            *session == *old(session),
            forall|bits: u64| render_float.requires((bits,)),
            forall|model: spec_fn(u64) -> Seq<char>| #[trigger]
                renders(*render_float, model) ==> out@ == printed_text(
                    model,
                    views(session.output@).take(i as int),
                ),
        decreases session.output.len() - i,
    {
        let ghost before = out@;
        write_sexpr(&session.output[i], render_float, &mut out);
        proof {
            let done = views(session.output@).take(i as int);
            let next = views(session.output@).take(i + 1);
            assert(next.drop_last() =~= done);
            assert(next.last() == session.output[i as int]@);
        }
        i += 1;
    }
    assert(views(session.output@).take(session.output.len() as int) =~= views(session.output@));
    session.output = Vec::new();
    assert(session@.output =~= Seq::<Form>::empty());
    out
}

} // verus!
