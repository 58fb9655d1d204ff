use lisp_interpreter::interpreter::Environment;
use lisp_interpreter::list::{cons, Link, List};
use lisp_interpreter::numeric::{arith_step, int_arith};
use lisp_interpreter::parser::{lex, tokenize, Lexer, Parser, TokenType};
use lisp_interpreter::primitives::{
    map_cell_from_string, Cell, CoreFunc, Float64, FloatArith, LogicalOperator, NumericOperator,
    SpecialForm,
};
use lisp_interpreter::session::{interpret, interpret_top_level};
use lisp_interpreter::symbolic_expression::SExpression;

struct HostFloat;

fn host(v: f64) -> Float64 {
    Float64 { bits: v.to_bits(), text: v.to_string() }
}

fn value(f: &Float64) -> f64 {
    f64::from_bits(f.bits)
}

fn float_of(v: f64) -> Float64 {
    host(v)
}

fn number(c: &Cell) -> f64 {
    match c {
        Cell::Int(i) => *i as f64,
        Cell::Flt(f) => value(f),
        _ => f64::NAN,
    }
}

impl FloatArith for HostFloat {
    fn arith(&self, op: NumericOperator, a: &Cell, b: &Cell) -> Float64 {
        let (x, y) = (number(a), number(b));
        float_of(match op {
            NumericOperator::Add => x + y,
            NumericOperator::Subtract => x - y,
            NumericOperator::Multiply => x * y,
            NumericOperator::Divide => x / y,
            NumericOperator::Modulo => x % y,
        })
    }

    fn compare(&self, op: LogicalOperator, a: &Cell, b: &Cell) -> bool {
        let (x, y) = (number(a), number(b));
        match op {
            LogicalOperator::Less => x < y,
            LogicalOperator::Greater => x > y,
            LogicalOperator::Equal => x == y,
            LogicalOperator::LessEqual => x <= y,
            _ => x >= y,
        }
    }

    fn parse(&self, text: &str) -> Option<Float64> {
        text.parse::<f64>().ok().map(host)
    }
}

fn env() -> Environment<HostFloat> {
    Environment::new(HostFloat)
}

fn run(program: &str) -> String {
    let mut e = env();
    interpret_top_level(program.to_string(), &mut e)
}

fn last_line(program: &str) -> String {
    run(program).lines().last().unwrap_or("").to_string()
}

fn one(program: &str) -> String {
    let mut e = env();
    interpret(program.to_string(), &mut e)
}

#[test]
fn nested_sum() {
    assert_eq!(one("(+ 1 2 3 (+ 5 6))"), "17");
}

#[test]
fn mixed_arithmetic_with_integer_division() {
    assert_eq!(one("(- 8 (* 2 25) (+ 2 3) (/ 5 10))"), "-47");
}

#[test]
fn define_then_set() {
    assert_eq!(last_line("(define x 10) (set! x (+ x 5)) x"), "15");
}

#[test]
fn top_level_prints_each_value() {
    assert_eq!(run("(define x 10) (set! x (+ x 5)) x"), "x\n0\n15");
}

#[test]
fn function_definition_and_call() {
    assert_eq!(last_line("(define (sq n) (* n n)) (sq 7)"), "49");
}

#[test]
fn while_loop_sums() {
    let p = "(define i 0) (define s 0) (while (< i 5) (begin (set! s (+ s i)) (set! i (+ i 1)))) s";
    assert_eq!(last_line(p), "10");
}

#[test]
fn if_picks_branch() {
    assert_eq!(one("(if (> 3 2) \"yes\" \"no\")"), "yes");
    assert_eq!(one("(if (> 2 3) \"yes\" \"no\")"), "no");
}

#[test]
fn operator_needs_two_operands() {
    assert_eq!(one("(+ 1)"), "Interpreter Error: Operator + requires two arguments");
}

#[test]
fn undefined_function() {
    assert_eq!(one("(foo 1 2)"), "Interpreter Error: Symbol foo not defined.");
}

#[test]
fn redefinition_in_same_frame() {
    assert_eq!(run("(define x 1) (define x 2)"), "Interpreter error x already defined.");
}

#[test]
fn set_of_undefined_name() {
    assert_eq!(one("(set! y 3)"), "Interpreter Error: y not defined.");
}

#[test]
fn literal_evaluates_to_itself() {
    let mut e = env();
    for c in [Cell::Int(5), Cell::Bool(true), Cell::Str("hi".to_string()), Cell::Op(NumericOperator::Add)] {
        let printed = SExpression::Cell(c.copy()).print();
        let r = e.evaluate(SExpression::Cell(c)).unwrap();
        assert_eq!(r.print(), printed);
    }
    assert_eq!(e.evaluate(SExpression::Null).unwrap().print(), "Null");
}

#[test]
fn lookup_through_child_frames() {
    let mut e = env();
    assert_eq!(e.define("x".to_string(), SExpression::Cell(Cell::Int(42))), Ok(0));
    e.make_child();
    e.make_child();
    e.define("y".to_string(), SExpression::Cell(Cell::Int(1))).unwrap();
    let v = e.get_definition_by_symbol("x".to_string()).unwrap();
    assert_eq!(v.print(), "42");
    let r = e.evaluate(SExpression::Cell(Cell::Symbol(0, "x".to_string()))).unwrap();
    assert_eq!(r.print(), "42");
    e.drop_child();
    e.drop_child();
    assert!(e.get_definition_by_symbol("y".to_string()).is_err());
}

#[test]
fn shadowing_in_child_frame() {
    let mut e = env();
    e.define("x".to_string(), SExpression::Cell(Cell::Int(1))).unwrap();
    e.make_child();
    assert_eq!(e.define("x".to_string(), SExpression::Cell(Cell::Int(2))), Ok(0));
    assert_eq!(e.get_definition_by_symbol("x".to_string()).unwrap().print(), "2");
    e.drop_child();
    assert_eq!(e.get_definition_by_symbol("x".to_string()).unwrap().print(), "1");
}

#[test]
fn set_in_function_changes_outer_binding() {
    assert_eq!(last_line("(define x 1) (define (f) (set! x 5)) (f) x"), "5");
    assert_eq!(last_line("(define x 1) (define (f y) (begin (set! x y) x)) (f 9)"), "9");
}

#[test]
fn child_frame_listing() {
    let mut e = env();
    e.define("a".to_string(), SExpression::Cell(Cell::Int(1))).unwrap();
    e.make_child();
    e.define("b".to_string(), SExpression::Cell(Cell::Int(2))).unwrap();
    e.define("c".to_string(), SExpression::Cell(Cell::Str("s".to_string()))).unwrap();
    assert_eq!(e.print(), "b : 0 2\nc : 1 s");
}

#[test]
fn integer_arithmetic_stays_integer() {
    let a = Cell::Int(7);
    let b = Cell::Int(2);
    let r = arith_step(&HostFloat, NumericOperator::Divide, &a, &b).unwrap();
    assert!(matches!(r, Cell::Int(3)));
    let r = arith_step(&HostFloat, NumericOperator::Multiply, &a, &b).unwrap();
    assert!(matches!(r, Cell::Int(14)));
}

#[test]
fn float_operand_gives_float() {
    let a = Cell::Int(1);
    let b = Cell::Flt(host(0.5));
    let r = arith_step(&HostFloat, NumericOperator::Add, &a, &b).unwrap();
    match r {
        Cell::Flt(f) => assert_eq!(f.text, "1.5"),
        _ => panic!("expected a float"),
    }
    assert_eq!(one("(+ 1 2.5)"), "3.5");
    assert_eq!(one("(* 2 0.25)"), "0.5");
}

#[test]
fn integer_division_truncates_toward_zero() {
    assert!(matches!(int_arith(NumericOperator::Divide, -7, 2), Ok(-3)));
    assert!(matches!(int_arith(NumericOperator::Divide, 7, -2), Ok(-3)));
    assert_eq!(one("(/ 5 10)"), "0");
}

#[test]
fn integer_errors() {
    assert_eq!(one("(/ 1 0)"), "Interpreter Error: Division by zero");
    assert_eq!(one("(+ 9223372036854775807 1)"), "Interpreter Error: Integer overflow");
    assert!(int_arith(NumericOperator::Multiply, i64::MIN, -1).is_err());
}

#[test]
fn comparison_chains() {
    assert_eq!(one("(< 1 2 3)"), "true");
    assert_eq!(one("(< 1 3 2)"), "false");
    assert_eq!(one("(> 3 2 1)"), "true");
    assert_eq!(one("(= 2 2 2)"), "true");
    assert_eq!(one("(= 2 2 3)"), "false");
    assert_eq!(one("(<= 1 1 2)"), "true");
    assert_eq!(one("(>= 3 3 4)"), "false");
    assert_eq!(one("(< 1 2.5)"), "true");
}

#[test]
fn comparison_stops_at_first_failing_pair() {
    let mut e = env();
    let r = interpret_top_level("(< 2 1 (output \"late\"))".to_string(), &mut e);
    assert_eq!(r, "false");
    assert!(e.take_output().is_empty());
}

#[test]
fn or_short_circuits() {
    let mut e = env();
    let r = interpret("(or (> 2 1) (output \"side\"))".to_string(), &mut e);
    assert_eq!(r, "true");
    assert!(e.take_output().is_empty());
    let r = interpret("(or (> 1 2) (output \"side\"))".to_string(), &mut e);
    assert_eq!(r, "Interpreter Error: Not a boolean type!");
    assert_eq!(e.take_output(), vec!["side".to_string()]);
}

#[test]
fn and_short_circuits() {
    let mut e = env();
    let r = interpret("(and (> 1 2) (output \"side\"))".to_string(), &mut e);
    assert_eq!(r, "false");
    assert!(e.take_output().is_empty());
    assert_eq!(one("(and 1 2 3)"), "true");
    assert_eq!(one("(and 2 5 0)"), "false");
    assert_eq!(one("(or 0 0)"), "false");
}

#[test]
fn output_joins_printed_values() {
    let mut e = env();
    let r = interpret("(output 1 \"two\" (+ 1 2))".to_string(), &mut e);
    assert_eq!(r, "1 two 3");
    assert_eq!(e.take_output(), vec!["1 two 3".to_string()]);
}

#[test]
fn truthiness_of_numbers() {
    assert_eq!(one("(if 1 \"t\" \"f\")"), "t");
    assert_eq!(one("(if 0 \"t\" \"f\")"), "f");
    assert_eq!(one("(if -3 \"t\" \"f\")"), "f");
    assert_eq!(one("(if 0.5 \"t\" \"f\")"), "t");
    assert_eq!(one("(if \"s\" 1 2)"), "Interpreter Error: Not a boolean type!");
}

#[test]
fn form_errors() {
    assert_eq!(one("(if 1 2)"), "Interpreter Error: if expression must have three parts.");
    assert_eq!(one("(set! x)"), "Interpreter Error: set! expression must have two arguments.");
    assert_eq!(one("(while 1)"), "Interpreter Error: while expression must have two clauses (test) (body).");
    assert_eq!(one("(begin)"), "Interpreter Error: begin expression must hold at least one expression.");
    assert_eq!(one("(let 1 2)"), "Interpreter Error: Special form let not implemented");
    assert_eq!(one("(% 5 2)"), "Interpreter Error: Operator '%' not implemented");
    assert_eq!(one("(not 1 2)"), "Interpreter Error: Operator 'not' not implemented");
    assert_eq!(one("(map 1)"), "Interpreter Error: Core function map not implemented");
    assert_eq!(one("(+ 1 \"a\")"), "Interpreter Error: Not a number type!");
    assert_eq!(one("()"), "Interpreter Error: cannot apply empty list");
    assert_eq!(one("(1 2)"), "Interpreter Error: Evaluation on this cell type not supported");
    assert_eq!(one("(define 5 1)"), "Interpreter Error: Cannot re-define 5");
    assert_eq!(one("(define x 1 2)"), "Interpreter Error: define can only take one expression as the value: x");
    assert_eq!(one("(set! 3 4)"), "Interpreter Error: First argument to set! must be a symbol.");
}

#[test]
fn call_errors() {
    assert_eq!(run("(define x 1) (x 2)"), "Interpreter error Can't evaluate as function: 1");
    assert_eq!(
        run("(define (f a) a) (f 1 2)"),
        "Interpreter error Mismatch between number of arguments and function parameters"
    );
}

#[test]
fn begin_returns_last() {
    assert_eq!(one("(begin 1 2 3)"), "3");
}

#[test]
fn while_never_run_is_false() {
    assert_eq!(one("(while (< 2 1) 5)"), "false");
}

#[test]
fn recursion() {
    let p = "(define (fact n) (if (< n 2) 1 (* n (fact (- n 1))))) (fact 10)";
    assert_eq!(last_line(p), "3628800");
}

#[test]
fn list_printing_and_parsing() {
    let tokens = tokenize("(a 1 (b -2) \"s t\")".to_string()).unwrap();
    let p = Parser::new();
    let (e, rest) = p.parse_tokens(&tokens, &HostFloat).unwrap();
    assert!(rest.is_empty());
    assert_eq!(e.print(), "(a 1 (b -2) s t)");
    let tokens = tokenize("(a 1 (b -2) ())".to_string()).unwrap();
    let (e, _) = p.parse_tokens(&tokens, &HostFloat).unwrap();
    let again = tokenize(e.print()).unwrap();
    let (e2, _) = p.parse_tokens(&again, &HostFloat).unwrap();
    assert_eq!(e2.print(), e.print());
    assert_eq!(e.print(), "(a 1 (b -2) ())");
}

#[test]
fn parse_errors() {
    let p = Parser::new();
    let tokens = tokenize(")".to_string()).unwrap();
    assert!(matches!(p.parse_tokens(&tokens, &HostFloat), Err(_)));
    assert_eq!(one(")"), "unexpected `)`");
    assert_eq!(one("(+ 1 2"), "could not find closing `)`");
    assert_eq!(one("\"abc"), "unterminated string");
    assert_eq!(one("(+ 1 #)"), "unexpected character");
    assert_eq!(one(""), "could not get token");
}

#[test]
fn lexer_reads_tokens() {
    let mut lx = Lexer::new("  ; note\n (+ x1 \"a b\")".to_string());
    let t = lx.next().unwrap();
    assert!(matches!(t.token_type, TokenType::LeftParen));
    match lx.next().unwrap().token_type {
        TokenType::Other(s) => assert_eq!(s, "+"),
        _ => panic!("expected a word"),
    }
    match lx.next().unwrap().token_type {
        TokenType::Other(s) => assert_eq!(s, "x1"),
        _ => panic!("expected a word"),
    }
    match lx.next().unwrap().token_type {
        TokenType::StringLiteral(s) => assert_eq!(s, "a b"),
        _ => panic!("expected a string"),
    }
    assert!(matches!(lx.next().unwrap().token_type, TokenType::RightParen));
    assert!(matches!(lx.next().unwrap().token_type, TokenType::EOF));
    assert!(lx.end_of_input());
}

#[test]
fn comments_are_skipped() {
    assert_eq!(run("; first\n(+ 1 2) ; trailing\n; last"), "3");
}

#[test]
fn lex_splits_words() {
    assert_eq!(lex("(+ 1\t(* 2 3))".to_string()), vec!["(", "+", "1", "(", "*", "2", "3", ")", ")"]);
    assert!(lex("   ".to_string()).is_empty());
}

#[test]
fn reserved_words() {
    let table = map_cell_from_string();
    assert_eq!(table.len(), 55);
    assert!(table.iter().any(|(s, c)| s == "set!" && matches!(c, Cell::Special(SpecialForm::SetBang))));
    assert!(table.iter().any(|(s, c)| s == "map" && matches!(c, Cell::Core(CoreFunc::MapEach))));
    assert_eq!(CoreFunc::NumberToString.print(), "number->string");
    assert_eq!(NumericOperator::Divide.print(), "/");
    assert_eq!(LogicalOperator::GreaterEqual.print(), ">=");
    assert_eq!(SpecialForm::OutputLine.print(), "output-line");
}

#[test]
fn numbers_and_symbols_read() {
    let p = Parser::new();
    for (text, shown) in [("42", "42"), ("-7", "-7"), ("+3", "3"), ("2.5", "2.5"), ("abc", "abc"), ("-", "-")] {
        let tokens = tokenize(text.to_string()).unwrap();
        let (e, _) = p.parse_tokens(&tokens, &HostFloat).unwrap();
        assert_eq!(e.print(), shown);
    }
    let tokens = tokenize("12".to_string()).unwrap();
    let (e, _) = p.parse_tokens(&tokens, &HostFloat).unwrap();
    assert!(matches!(e, SExpression::Cell(Cell::Int(12))));
    let tokens = tokenize("99999999999999999999".to_string()).unwrap();
    let (e, _) = p.parse_tokens(&tokens, &HostFloat).unwrap();
    assert!(matches!(e, SExpression::Cell(Cell::Flt(_))));
}

#[test]
fn list_operations() {
    let l = List::make_from_cells(vec![Cell::Int(1), Cell::Int(2)]);
    assert_eq!(l.print(), "(1 2)");
    assert!(!l.is_empty());
    assert_eq!(l.first().print(), "1");
    assert_eq!(l.rest().print(), "(2)");
    assert!(l.rest().rest().is_empty());
    assert_eq!(List { head: Link::Nil }.first().print(), "Null");
    let c = List::construct_list(SExpression::Cell(Cell::Int(0)), SExpression::List(l));
    assert_eq!(c.print(), "(0 1 2)");
    let d = List::construct_list(SExpression::Cell(Cell::Int(0)), SExpression::Cell(Cell::Int(9)));
    assert_eq!(d.print(), "(0 9)");
    let s = List::make_from_sexps(vec![SExpression::Null, SExpression::Cell(Cell::Bool(false))]);
    assert_eq!(s.print(), "(Null false)");
    let h = List { head: cons(SExpression::Cell(Cell::Str("x".to_string())), Link::Nil) };
    assert_eq!(h.print(), "(x)");
}

#[test]
fn conversions() {
    assert!(SExpression::Cell(Cell::Int(3)).as_rust_bool().unwrap());
    assert!(!SExpression::Cell(Cell::Int(0)).as_rust_bool().unwrap());
    assert!(SExpression::Null.as_rust_bool().is_err());
    assert!(SExpression::Cell(Cell::Str("a".to_string())).as_number().is_err());
    assert!(matches!(Cell::Flt(host(-1.0)).eval_as_bool(), Ok(Cell::Bool(false))));
    assert!(matches!(Cell::Bool(true).eval_as_number(), Err(_)));
    assert_eq!(Cell::Int(i64::MIN).print(), "-9223372036854775808");
}

#[test]
fn direct_operator_application() {
    let mut e = env();
    let args = List::make_from_cells(vec![Cell::Int(2), Cell::Int(3)]);
    assert_eq!(e.apply_operator(NumericOperator::Multiply, args).unwrap().print(), "6");
    let args = List::make_from_cells(vec![Cell::Int(2), Cell::Int(3)]);
    assert_eq!(e.apply_logical_operator(LogicalOperator::Less, args).unwrap().print(), "true");
    let args = List::make_from_cells(vec![Cell::Bool(true), Cell::Int(0)]);
    assert_eq!(e.eval_and(args).unwrap().print(), "false");
    let vals = e.eval_each(List::make_from_cells(vec![Cell::Int(1), Cell::Str("q".to_string())])).unwrap();
    assert_eq!(vals.len(), 2);
    let args = List::make_from_cells(vec![Cell::Int(2), Cell::Str("b".to_string()), Cell::Str("c".to_string())]);
    assert_eq!(e.apply_special_form(SpecialForm::If, args).unwrap().print(), "b");
    assert!(e.apply_function(0, "nothing".to_string(), List { head: Link::Nil }).is_err());
}

#[test]
fn list_evaluates_as_application() {
    let mut e = env();
    let l = List { head: cons(SExpression::Cell(Cell::Op(NumericOperator::Add)), List::make_from_cells(vec![Cell::Int(25), Cell::Int(5)]).head) };
    assert_eq!(l.evaluate(&mut e).unwrap().print(), "30");
}

#[test]
fn list_procedures() {
    assert_eq!(one("(list 1 2 (+ 1 2))"), "(1 2 3)");
    assert_eq!(one("(cons 1 (list 2 3))"), "(1 2 3)");
    assert_eq!(one("(cons 1 2)"), "(1 2)");
    assert_eq!(one("(car (list 4 5))"), "4");
    assert_eq!(one("(first (list 4 5))"), "4");
    assert_eq!(one("(cdr (list 4 5 6))"), "(5 6)");
    assert_eq!(one("(rest (list 4))"), "()");
    assert_eq!(one("(append (list 1) (list) (list 2 3))"), "(1 2 3)");
    assert_eq!(one("(car (list))"), "Interpreter Error: car: empty list");
    assert_eq!(one("(cdr 7)"), "Interpreter Error: cdr: not a list");
    assert_eq!(one("(append (list 1) 2)"), "Interpreter Error: append: not a list");
    assert_eq!(one("(cons 1)"), "Interpreter Error: Core function cons takes the wrong number of arguments");
}

#[test]
fn type_predicates() {
    assert_eq!(one("(null? (list))"), "true");
    assert_eq!(one("(null? (list 1))"), "false");
    assert_eq!(one("(number? 2.5)"), "true");
    assert_eq!(one("(number? \"x\")"), "false");
    assert_eq!(one("(list? (list 1))"), "true");
    assert_eq!(one("(boolean? (< 1 2))"), "true");
    assert_eq!(one("(string? \"x\")"), "true");
    assert_eq!(one("(exact? 3)"), "true");
    assert_eq!(one("(exact? 3.5)"), "false");
    assert_eq!(one("(exact? \"x\")"), "Interpreter Error: Not a number type!");
}

#[test]
fn float_literal_forms() {
    let p = Parser::new();
    for (text, shown) in [("1e5", "100000"), ("2E-3", "0.002"), ("-1.5e+2", "-150"), (".5", "0.5"), ("5.", "5"), ("inf", "inf"), ("-Infinity", "-inf"), ("NaN", "NaN")] {
        let tokens = tokenize(text.to_string()).unwrap();
        let (e, _) = p.parse_tokens(&tokens, &HostFloat).unwrap();
        assert!(matches!(e, SExpression::Cell(Cell::Flt(_))), "{}", text);
        assert_eq!(e.print(), shown);
    }
    for text in ["e5", "1e", "1.2.3", "infinit", "x1e5"] {
        let tokens = tokenize(text.to_string()).unwrap();
        let (e, _) = p.parse_tokens(&tokens, &HostFloat).unwrap();
        assert!(matches!(e, SExpression::Cell(Cell::Symbol(0, _))), "{}", text);
    }
    assert_eq!(one("(+ 1e2 1)"), "101");
}

#[test]
fn set_arity_messages() {
    assert_eq!(one("(set!)"), "Interpreter Error: set! expression must have two arguments.");
    assert_eq!(one("(set! x)"), "Interpreter Error: set! expression must have two arguments.");
    assert_eq!(run("(define x 1) (set! x 2 3)"), "Interpreter error set! expression must have only two arguments.");
    assert_eq!(last_line("(define x 1) (set! x 2 3) x"), "Interpreter error set! expression must have only two arguments.");
}

#[test]
fn whitespace_classes() {
    assert_eq!(lex("a\u{3000}b\u{a0}c".to_string()), vec!["a", "b", "c"]);
    assert_eq!(lex("a\u{200b}b".to_string()), vec!["a\u{200b}b"]);
}
