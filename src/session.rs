//! Reading and evaluating program text: one expression at a prompt, or a
//! whole program.
use vstd::prelude::*;
use crate::errors::prefixed;
use crate::interpreter::{Environment, EVAL_FUEL};
use crate::parser::{parse_at, read_by, scan, tokenize, tokens_view, ParseError, Parsed, Parser};
use crate::primitives::FloatArith;
use crate::semantics::{eval, eval_each, extends_log, follows, HostAnswer, HostOracle, Outcome, Store};
use crate::symbolic_expression::{printed, SExpression, SexpV};
use crate::text::append_text;

verus! {

/// The printed forms of `xs`, one per line.
pub open spec fn lines_printed(xs: Seq<SexpV>) -> Seq<char>
    decreases xs.len(),
{
    if xs.len() == 0 {
        Seq::empty()
    } else if xs.len() == 1 {
        printed(xs[0])
    } else {
        printed(xs[0]) + "\n"@ + lines_printed(xs.subrange(1, xs.len() as int))
    }
}

fn push_lines_from(vs: &Vec<SExpression>, i: usize, s: &mut String)
    requires
        i <= vs@.len(),
    ensures
        final(s)@ == old(s)@ + lines_printed(vs@.map_values(|e: SExpression| e@).subrange(i as int, vs@.len() as int)),
    decreases vs@.len() - i,
{
    let ghost xs = vs@.map_values(|e: SExpression| e@).subrange(i as int, vs@.len() as int);
    if i == vs.len() {
        assert(final(s)@ =~= old(s)@ + lines_printed(xs));
        return;
    }
    assert(xs[0] == vs@[i as int]@);
    vs[i].print_into(s);
    if i + 1 < vs.len() {
        append_text(s, "\n");
        push_lines_from(vs, i + 1, s);
        assert(xs.subrange(1, xs.len() as int) =~= vs@.map_values(|e: SExpression| e@).subrange(
            i + 1,
            vs@.len() as int,
        ));
        assert(final(s)@ =~= old(s)@ + lines_printed(xs));
    } else {
        assert(final(s)@ =~= old(s)@ + lines_printed(xs));
    }
}

/// The evaluation `o` ends in state `st`, and `r` is its printed value, or
/// its error under `prefix`.
pub open spec fn replies(o: Outcome<SexpV>, st: Store, r: Seq<char>, prefix: Seq<char>) -> bool {
    match o {
        Outcome::Done(s, Ok(v)) => s == st && r == printed(v),
        Outcome::Done(s, Err(m)) => s == st && r == prefix + m,
    }
}

/// The evaluations `o` end in state `st`, and `r` is their printed values
/// one per line, or the error under `prefix`.
pub open spec fn replies_each(o: Outcome<Seq<SexpV>>, st: Store, r: Seq<char>, prefix: Seq<char>) -> bool {
    match o {
        Outcome::Done(s, Ok(vs)) => s == st && r == lines_printed(vs),
        Outcome::Done(s, Err(m)) => s == st && r == prefix + m,
    }
}

/// Reading gave `p`; then, for the first expression read, the evaluation from
/// `st` ends in `fin` and `r` is the reply, whatever the host answered
/// (as recorded in `log`).
pub open spec fn answers_one(p: Parsed, st: Store, fin: Store, log: Seq<HostAnswer>, r: Seq<char>) -> bool {
    match p {
        Parsed::Done(Err(m)) => r == m && fin == st,
        Parsed::Done(Ok((e, _))) => forall|orc: HostOracle| #[trigger] follows(orc, log)
            ==> replies(eval(st, e, EVAL_FUEL as nat, orc), fin, r, "Interpreter Error: "@),
    }
}

/// As `answers_one`, for a whole program: a list read is evaluated element
/// by element.
pub open spec fn answers_all(p: Parsed, st: Store, fin: Store, log: Seq<HostAnswer>, r: Seq<char>) -> bool {
    match p {
        Parsed::Done(Err(m)) => r == m && fin == st,
        Parsed::Done(Ok((SexpV::List(xs), _))) => forall|orc: HostOracle| #[trigger] follows(orc, log)
            ==> replies_each(eval_each(st, xs, EVAL_FUEL as nat, orc), fin, r, "Interpreter error "@),
        Parsed::Done(Ok((e, _))) => forall|orc: HostOracle| #[trigger] follows(orc, log)
            ==> replies(eval(st, e, EVAL_FUEL as nat, orc), fin, r, "Interpreter error "@),
    }
}

/// Reads the first expression of `program`, evaluates it in `environment`
/// and gives its printed value, or the error.
pub fn interpret<F: FloatArith>(program: String, environment: &mut Environment<F>) -> (r: String)
    requires
        old(environment).wf(),
    ensures
        final(environment).wf(),
        final(environment).depth() == old(environment).depth(),
        extends_log(final(environment).answers(), old(environment).answers()),
        match scan(program@, 0) {
            Err(m) => r@ == m && final(environment).store() == old(environment).store(),
            Ok(ls) => exists|po: HostOracle| #[trigger] answers_one(
                parse_at(ls, 0, po),
                old(environment).store(),
                final(environment).store(),
                final(environment).answers(),
                r@,
            ),
        },
{
    let tokens = match tokenize(program) {
        Err(ParseError::Reason(m)) => {
            return m;
        },
        Ok(t) => t,
    };
    assert(tokens_view(tokens@) == tokens@.map_values(|t: crate::parser::Token| t.token_type@));
    let p = Parser::new();
    let ghost st0 = environment.store();
    let parsed = p.parse_tokens(tokens.as_slice(), environment.arith());
    let ghost po = choose|po: HostOracle| read_by(parse_at(tokens_view(tokens@), 0, po), tokens@, parsed);
    let r = match parsed {
        Ok((ast, _)) => match environment.evaluate(ast) {
            Ok(v) => v.print(),
            Err(e) => prefixed("Interpreter Error: ", e.as_str()),
        },
        Err(ParseError::Reason(reason)) => reason,
    };
    assert(answers_one(parse_at(tokens_view(tokens@), 0, po), st0, environment.store(), environment.answers(), r@));
    r
}

/// Evaluates every top-level expression of `program`, in order, in
/// `environment`; gives their printed values one per line, or the first error.
pub fn interpret_top_level<F: FloatArith>(program: String, environment: &mut Environment<F>) -> (r: String)
    requires
        old(environment).wf(),
    ensures
        final(environment).wf(),
        final(environment).depth() == old(environment).depth(),
        extends_log(final(environment).answers(), old(environment).answers()),
        match scan("("@ + program@ + "\n)"@, 0) {
            Err(m) => r@ == m && final(environment).store() == old(environment).store(),
            Ok(ls) => exists|po: HostOracle| #[trigger] answers_all(
                parse_at(ls, 0, po),
                old(environment).store(),
                final(environment).store(),
                final(environment).answers(),
                r@,
            ),
        },
{
    let mut main_program = String::from_str("(");
    append_text(&mut main_program, program.as_str());
    append_text(&mut main_program, "\n)");
    let tokens = match tokenize(main_program) {
        Err(ParseError::Reason(m)) => {
            return m;
        },
        Ok(t) => t,
    };
    let p = Parser::new();
    let ghost st0 = environment.store();
    let parsed = p.parse_tokens(tokens.as_slice(), environment.arith());
    let ghost po = choose|po: HostOracle| read_by(parse_at(tokens_view(tokens@), 0, po), tokens@, parsed);
    let r = match parsed {
        Ok((valid_ast, _)) => match valid_ast {
            SExpression::List(list) => match environment.eval_each(list) {
                Ok(items) => {
                    let mut s = String::new();
                    push_lines_from(&items, 0, &mut s);
                    assert(items@.map_values(|e: SExpression| e@).subrange(0, items@.len() as int)
                        =~= items@.map_values(|e: SExpression| e@));
                    assert(s@ =~= lines_printed(items@.map_values(|e: SExpression| e@)));
                    s
                },
                Err(error) => prefixed("Interpreter error ", error.as_str()),
            },
            other => match environment.evaluate(other) {
                Ok(result) => result.print(),
                Err(error) => prefixed("Interpreter error ", error.as_str()),
            },
        },
        Err(ParseError::Reason(reason)) => reason,
    };
    assert(answers_all(parse_at(tokens_view(tokens@), 0, po), st0, environment.store(), environment.answers(), r@));
    r
}

} // verus!
