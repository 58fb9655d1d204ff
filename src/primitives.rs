//! Atomic cells and the operator / special-form tokens of the language.
use vstd::prelude::*;
use crate::symbolic_expression::{SExpression, SexpV};
use crate::text::{int_text, push_int, append_text};
use crate::errors::{err_text, fixed, msg_not_a_boolean, msg_not_a_number};

verus! {

/// Built-in procedures: type predicates, conversions and list primitives.
#[derive(Debug, Clone, Copy, PartialEq, Eq, Structural)]
pub enum CoreFunc {
    IsChar,
    IsNumber,
    IsList,
    IsNull,
    IsBoolean,
    IsExact,
    IsString,
    NumberToString,
    StringToNumber,
    SymbolToString,
    StringToSymbol,
    CharToNumber,
    NumberToChar,
    MapEach,
    Filter,
    Count,
    Cons,
    List,
    Car,
    Cdr,
    First,
    Rest,
    Append,
}

impl CoreFunc {
    /// The source-text lexeme of the procedure.
    pub open spec fn lexeme(self) -> Seq<char> {
        match self {
            CoreFunc::IsChar => "char?"@,
            CoreFunc::IsNumber => "number?"@,
            CoreFunc::IsList => "list?"@,
            CoreFunc::IsNull => "null?"@,
            CoreFunc::IsBoolean => "boolean?"@,
            CoreFunc::IsString => "string?"@,
            CoreFunc::IsExact => "exact?"@,
            CoreFunc::NumberToString => "number->string"@,
            CoreFunc::StringToNumber => "string->number"@,
            CoreFunc::SymbolToString => "symbol->string"@,
            CoreFunc::StringToSymbol => "string->symbol"@,
            CoreFunc::CharToNumber => "char->number"@,
            CoreFunc::NumberToChar => "number->char"@,
            CoreFunc::MapEach => "map"@,
            CoreFunc::Filter => "filter"@,
            CoreFunc::Count => "count"@,
            CoreFunc::Cons => "cons"@,
            CoreFunc::List => "list"@,
            CoreFunc::Car => "car"@,
            CoreFunc::Cdr => "cdr"@,
            CoreFunc::First => "first"@,
            CoreFunc::Rest => "rest"@,
            CoreFunc::Append => "append"@,
        }
    }

    pub fn print(self) -> (r: &'static str)
        ensures
            r@ == self.lexeme(),
    {
        match self {
            CoreFunc::IsChar => "char?",
            CoreFunc::IsNumber => "number?",
            CoreFunc::IsList => "list?",
            CoreFunc::IsNull => "null?",
            CoreFunc::IsBoolean => "boolean?",
            CoreFunc::IsString => "string?",
            CoreFunc::IsExact => "exact?",
            CoreFunc::NumberToString => "number->string",
            CoreFunc::StringToNumber => "string->number",
            CoreFunc::SymbolToString => "symbol->string",
            CoreFunc::StringToSymbol => "string->symbol",
            CoreFunc::CharToNumber => "char->number",
            CoreFunc::NumberToChar => "number->char",
            CoreFunc::MapEach => "map",
            CoreFunc::Filter => "filter",
            CoreFunc::Count => "count",
            CoreFunc::Cons => "cons",
            CoreFunc::List => "list",
            CoreFunc::Car => "car",
            CoreFunc::Cdr => "cdr",
            CoreFunc::First => "first",
            CoreFunc::Rest => "rest",
            CoreFunc::Append => "append",
        }
    }
}

/// Numeric operators `+ - * / %`.
#[derive(Debug, Clone, Copy, PartialEq, Eq, Structural)]
pub enum NumericOperator {
    Add,
    Subtract,
    Multiply,
    Divide,
    Modulo,
}

impl NumericOperator {
    pub open spec fn lexeme(self) -> Seq<char> {
        match self {
            NumericOperator::Add => "+"@,
            NumericOperator::Subtract => "-"@,
            NumericOperator::Multiply => "*"@,
            NumericOperator::Divide => "/"@,
            NumericOperator::Modulo => "%"@,
        }
    }

    pub fn print(self) -> (r: &'static str)
        ensures
            r@ == self.lexeme(),
    {
        match self {
            NumericOperator::Add => "+",
            NumericOperator::Subtract => "-",
            NumericOperator::Multiply => "*",
            NumericOperator::Divide => "/",
            NumericOperator::Modulo => "%",
        }
    }
}

/// Comparison and boolean operators.
#[derive(Debug, Clone, Copy, PartialEq, Eq, Structural)]
pub enum LogicalOperator {
    Less,
    Greater,
    Equal,
    GreaterEqual,
    LessEqual,
    Or,
    And,
    Not,
    Xor,
}

impl LogicalOperator {
    pub open spec fn lexeme(self) -> Seq<char> {
        match self {
            LogicalOperator::Greater => ">"@,
            LogicalOperator::Less => "<"@,
            LogicalOperator::Equal => "="@,
            LogicalOperator::GreaterEqual => ">="@,
            LogicalOperator::LessEqual => "<="@,
            LogicalOperator::Or => "or"@,
            LogicalOperator::And => "and"@,
            LogicalOperator::Not => "not"@,
            LogicalOperator::Xor => "xor"@,
        }
    }

    pub fn print(self) -> (r: &'static str)
        ensures
            r@ == self.lexeme(),
    {
        match self {
            LogicalOperator::Greater => ">",
            LogicalOperator::Less => "<",
            LogicalOperator::Equal => "=",
            LogicalOperator::GreaterEqual => ">=",
            LogicalOperator::LessEqual => "<=",
            LogicalOperator::Or => "or",
            LogicalOperator::And => "and",
            LogicalOperator::Not => "not",
            LogicalOperator::Xor => "xor",
        }
    }
}

/// Syntactic forms whose operands are not all evaluated before dispatch.
#[derive(Debug, Clone, Copy, PartialEq, Eq, Structural)]
pub enum SpecialForm {
    Define,
    Let,
    SetCar,
    SetBang,
    Cond,
    If,
    Do,
    While,
    When,
    Unless,
    Break,
    Continue,
    Begin,
    Env,
    Exit,
    Input,
    Output,
    OutputLine,
}

impl SpecialForm {
    pub open spec fn lexeme(self) -> Seq<char> {
        match self {
            SpecialForm::Define => "define"@,
            SpecialForm::Let => "let"@,
            SpecialForm::SetCar => "setcar!"@,
            SpecialForm::SetBang => "set!"@,
            SpecialForm::Cond => "cond"@,
            SpecialForm::If => "if"@,
            SpecialForm::Do => "do"@,
            SpecialForm::While => "while"@,
            SpecialForm::When => "when"@,
            SpecialForm::Unless => "unless"@,
            SpecialForm::Break => "break"@,
            SpecialForm::Continue => "continue"@,
            SpecialForm::Begin => "begin"@,
            SpecialForm::Env => "env"@,
            SpecialForm::Exit => "exit"@,
            SpecialForm::Input => "input"@,
            SpecialForm::Output => "output"@,
            SpecialForm::OutputLine => "output-line"@,
        }
    }

    pub fn print(self) -> (r: &'static str)
        ensures
            r@ == self.lexeme(),
    {
        match self {
            SpecialForm::Define => "define",
            SpecialForm::Let => "let",
            SpecialForm::SetCar => "setcar!",
            SpecialForm::SetBang => "set!",
            SpecialForm::Cond => "cond",
            SpecialForm::If => "if",
            SpecialForm::Do => "do",
            SpecialForm::While => "while",
            SpecialForm::When => "when",
            SpecialForm::Unless => "unless",
            SpecialForm::Break => "break",
            SpecialForm::Continue => "continue",
            SpecialForm::Begin => "begin",
            SpecialForm::Env => "env",
            SpecialForm::Exit => "exit",
            SpecialForm::Input => "input",
            SpecialForm::Output => "output",
            SpecialForm::OutputLine => "output-line",
        }
    }
}


/// A floating-point value held as plain data: its IEEE-754 bit pattern and the
/// decimal text the host renders for it.
#[derive(Debug, Clone, PartialEq)]
pub struct Float64 {
    pub bits: u64,
    pub text: String,
}

impl Float64 {
    /// Strictly greater than zero: sign clear, not zero, not NaN.
    pub open spec fn is_positive_spec(self) -> bool {
        0 < self.bits <= 0x7FF0_0000_0000_0000u64
    }

    pub fn is_positive(&self) -> (r: bool)
        ensures
            r == self.is_positive_spec(),
    {
        0 < self.bits && self.bits <= 0x7FF0_0000_0000_0000u64
    }

    pub fn copy(&self) -> (r: Float64)
        ensures
            r.bits == self.bits,
            r.text@ == self.text@,
    {
        Float64 { bits: self.bits, text: self.text.clone() }
    }
}

/// The host's floating-point arithmetic, supplied by the program that embeds
/// the interpreter. The interpreter promises nothing about the values these
/// return beyond their type.
pub trait FloatArith {
    /// `a op b` in floating point, for numbers `a` and `b` that are not both
    /// integers (an integer is converted to a float first).
    fn arith(&self, op: NumericOperator, a: &Cell, b: &Cell) -> Float64;

    /// Compares two numbers that are not both integers, in floating point.
    fn compare(&self, op: LogicalOperator, a: &Cell, b: &Cell) -> bool;

    /// The float a lexeme denotes, if it reads as one.
    fn parse(&self, text: &str) -> Option<Float64>;
}

/// An atomic S-expression.
#[derive(Debug)]
pub enum Cell {
    Int(i64),
    Flt(Float64),
    Str(String),
    Bool(bool),
    Symbol(i32, String),
    Op(NumericOperator),
    Logical(LogicalOperator),
    Special(SpecialForm),
    Core(CoreFunc),
    /// Parameter list and body.
    Lambda(Box<SExpression>, Box<SExpression>),
}

/// The mathematical value of a [`Cell`].
pub enum CellV {
    Int(int),
    Flt(u64, Seq<char>),
    Str(Seq<char>),
    Bool(bool),
    Symbol(int, Seq<char>),
    Op(NumericOperator),
    Logical(LogicalOperator),
    Special(SpecialForm),
    Core(CoreFunc),
    Lambda(Box<SexpV>, Box<SexpV>),
}

impl CellV {
    pub open spec fn is_number(self) -> bool {
        self is Int || self is Flt
    }
}

impl View for Cell {
    type V = CellV;

    open spec fn view(&self) -> CellV
        decreases self,
    {
        match self {
            Cell::Int(i) => CellV::Int(*i as int),
            Cell::Flt(f) => CellV::Flt(f.bits, f.text@),
            Cell::Str(s) => CellV::Str(s@),
            Cell::Bool(b) => CellV::Bool(*b),
            Cell::Symbol(n, s) => CellV::Symbol(*n as int, s@),
            Cell::Op(o) => CellV::Op(*o),
            Cell::Logical(o) => CellV::Logical(*o),
            Cell::Special(f) => CellV::Special(*f),
            Cell::Core(f) => CellV::Core(*f),
            Cell::Lambda(p, b) => CellV::Lambda(Box::new((**p).view()), Box::new((**b).view())),
        }
    }
}


/// The printed form of a cell.
pub open spec fn cell_printed(c: CellV) -> Seq<char> {
    match c {
        CellV::Int(i) => int_text(i),
        CellV::Flt(_, t) => t,
        CellV::Str(s) => s,
        CellV::Bool(b) => if b { "true"@ } else { "false"@ },
        CellV::Symbol(_, name) => name,
        CellV::Op(o) => o.lexeme(),
        CellV::Logical(o) => o.lexeme(),
        CellV::Special(f) => f.lexeme(),
        CellV::Core(f) => f.lexeme(),
        CellV::Lambda(_, _) => "Lambda"@,
    }
}

impl Cell {
    pub fn copy(&self) -> (r: Cell)
        ensures
            r@ == self@,
        decreases self,
    {
        match self {
            Cell::Int(i) => Cell::Int(*i),
            Cell::Flt(f) => Cell::Flt(f.copy()),
            Cell::Str(s) => Cell::Str(s.clone()),
            Cell::Bool(b) => Cell::Bool(*b),
            Cell::Symbol(n, s) => Cell::Symbol(*n, s.clone()),
            Cell::Op(o) => Cell::Op(*o),
            Cell::Logical(o) => Cell::Logical(*o),
            Cell::Special(f) => Cell::Special(*f),
            Cell::Core(f) => Cell::Core(*f),
            Cell::Lambda(p, b) => Cell::Lambda(Box::new((**p).copy()), Box::new((**b).copy())),
        }
    }

    /// Appends the printed form of the cell to `s`.
    pub fn print_into(&self, s: &mut String)
        ensures
            final(s)@ == old(s)@ + cell_printed(self@),
    {
        match self {
            Cell::Int(i) => push_int(s, *i),
            Cell::Flt(f) => append_text(s, f.text.as_str()),
            Cell::Str(t) => append_text(s, t.as_str()),
            Cell::Bool(b) => {
                if *b {
                    append_text(s, "true")
                } else {
                    append_text(s, "false")
                }
            },
            Cell::Symbol(_, name) => append_text(s, name.as_str()),
            Cell::Op(o) => append_text(s, o.print()),
            Cell::Logical(o) => append_text(s, o.print()),
            Cell::Special(f) => append_text(s, f.print()),
            Cell::Core(f) => append_text(s, f.print()),
            Cell::Lambda(_, _) => append_text(s, "Lambda"),
        }
    }

    /// The cell itself when it is a number.
    pub fn eval_as_number(&self) -> (r: Result<Cell, String>)
        ensures
            self@.is_number() ==> r is Ok && r->Ok_0@ == self@,
            !self@.is_number() ==> r is Err && err_text(r) == msg_not_a_number(),
    {
        match self {
            Cell::Int(_) => Ok(self.copy()),
            Cell::Flt(_) => Ok(self.copy()),
            _ => Err(fixed("Not a number type!")),
        }
    }

    /// The truth value of the cell: a boolean is itself, a number is true
    /// when above zero.
    pub fn eval_as_bool(&self) -> (r: Result<Cell, String>)
        ensures
            match self@ {
                CellV::Bool(b) => r is Ok && r->Ok_0@ == CellV::Bool(b),
                CellV::Int(i) => r is Ok && r->Ok_0@ == CellV::Bool(i > 0),
                CellV::Flt(bits, _) => r is Ok && r->Ok_0@ == CellV::Bool(
                    0 < bits <= 0x7FF0_0000_0000_0000u64,
                ),
                _ => r is Err && err_text(r) == msg_not_a_boolean(),
            },
    {
        match self {
            Cell::Int(value) => Ok(Cell::Bool(0 < *value)),
            Cell::Flt(value) => Ok(Cell::Bool(value.is_positive())),
            Cell::Bool(b) => Ok(Cell::Bool(*b)),
            _ => Err(fixed("Not a boolean type!")),
        }
    }

    pub fn print(&self) -> (r: String)
        ensures
            r@ == cell_printed(self@),
    {
        let mut s = String::new();
        self.print_into(&mut s);
        assert(s@ =~= cell_printed(self@));
        s
    }
}

/// Every reserved token cell: operators, logical operators, built-in
/// procedures and special forms.
pub open spec fn reserved_cells() -> Seq<CellV> {
    seq![
        CellV::Core(CoreFunc::IsChar),
        CellV::Core(CoreFunc::IsNumber),
        CellV::Core(CoreFunc::IsList),
        CellV::Core(CoreFunc::IsNull),
        CellV::Core(CoreFunc::IsBoolean),
        CellV::Core(CoreFunc::IsExact),
        CellV::Core(CoreFunc::IsString),
        CellV::Core(CoreFunc::NumberToString),
        CellV::Core(CoreFunc::StringToNumber),
        CellV::Core(CoreFunc::SymbolToString),
        CellV::Core(CoreFunc::StringToSymbol),
        CellV::Core(CoreFunc::CharToNumber),
        CellV::Core(CoreFunc::NumberToChar),
        CellV::Core(CoreFunc::MapEach),
        CellV::Core(CoreFunc::Filter),
        CellV::Core(CoreFunc::Count),
        CellV::Core(CoreFunc::Cons),
        CellV::Core(CoreFunc::List),
        CellV::Core(CoreFunc::Car),
        CellV::Core(CoreFunc::Cdr),
        CellV::Core(CoreFunc::First),
        CellV::Core(CoreFunc::Rest),
        CellV::Core(CoreFunc::Append),
        CellV::Op(NumericOperator::Add),
        CellV::Op(NumericOperator::Subtract),
        CellV::Op(NumericOperator::Multiply),
        CellV::Op(NumericOperator::Divide),
        CellV::Op(NumericOperator::Modulo),
        CellV::Logical(LogicalOperator::Less),
        CellV::Logical(LogicalOperator::Greater),
        CellV::Logical(LogicalOperator::Equal),
        CellV::Logical(LogicalOperator::GreaterEqual),
        CellV::Logical(LogicalOperator::LessEqual),
        CellV::Logical(LogicalOperator::Or),
        CellV::Logical(LogicalOperator::And),
        CellV::Logical(LogicalOperator::Not),
        CellV::Logical(LogicalOperator::Xor),
        CellV::Special(SpecialForm::Define),
        CellV::Special(SpecialForm::Let),
        CellV::Special(SpecialForm::SetCar),
        CellV::Special(SpecialForm::SetBang),
        CellV::Special(SpecialForm::Cond),
        CellV::Special(SpecialForm::If),
        CellV::Special(SpecialForm::Do),
        CellV::Special(SpecialForm::While),
        CellV::Special(SpecialForm::When),
        CellV::Special(SpecialForm::Unless),
        CellV::Special(SpecialForm::Break),
        CellV::Special(SpecialForm::Continue),
        CellV::Special(SpecialForm::Begin),
        CellV::Special(SpecialForm::Env),
        CellV::Special(SpecialForm::Exit),
        CellV::Special(SpecialForm::Input),
        CellV::Special(SpecialForm::Output),
        CellV::Special(SpecialForm::OutputLine),
    ]
}

/// The first reserved cell from position `i` on whose lexeme is `text`.
pub open spec fn reserved_from(text: Seq<char>, i: int) -> Option<CellV>
    decreases reserved_cells().len() - i,
{
    if i < 0 || i >= reserved_cells().len() {
        None
    } else if cell_printed(reserved_cells()[i]) == text {
        Some(reserved_cells()[i])
    } else {
        reserved_from(text, i + 1)
    }
}

/// The reserved cell whose lexeme is `text`, if any.
pub open spec fn reserved(text: Seq<char>) -> Option<CellV> {
    reserved_from(text, 0)
}

fn reserved_cell_list() -> (r: Vec<Cell>)
    ensures
        r@.map_values(|c: Cell| c@) == reserved_cells(),
{
    let r = vec![
        Cell::Core(CoreFunc::IsChar),
        Cell::Core(CoreFunc::IsNumber),
        Cell::Core(CoreFunc::IsList),
        Cell::Core(CoreFunc::IsNull),
        Cell::Core(CoreFunc::IsBoolean),
        Cell::Core(CoreFunc::IsExact),
        Cell::Core(CoreFunc::IsString),
        Cell::Core(CoreFunc::NumberToString),
        Cell::Core(CoreFunc::StringToNumber),
        Cell::Core(CoreFunc::SymbolToString),
        Cell::Core(CoreFunc::StringToSymbol),
        Cell::Core(CoreFunc::CharToNumber),
        Cell::Core(CoreFunc::NumberToChar),
        Cell::Core(CoreFunc::MapEach),
        Cell::Core(CoreFunc::Filter),
        Cell::Core(CoreFunc::Count),
        Cell::Core(CoreFunc::Cons),
        Cell::Core(CoreFunc::List),
        Cell::Core(CoreFunc::Car),
        Cell::Core(CoreFunc::Cdr),
        Cell::Core(CoreFunc::First),
        Cell::Core(CoreFunc::Rest),
        Cell::Core(CoreFunc::Append),
        Cell::Op(NumericOperator::Add),
        Cell::Op(NumericOperator::Subtract),
        Cell::Op(NumericOperator::Multiply),
        Cell::Op(NumericOperator::Divide),
        Cell::Op(NumericOperator::Modulo),
        Cell::Logical(LogicalOperator::Less),
        Cell::Logical(LogicalOperator::Greater),
        Cell::Logical(LogicalOperator::Equal),
        Cell::Logical(LogicalOperator::GreaterEqual),
        Cell::Logical(LogicalOperator::LessEqual),
        Cell::Logical(LogicalOperator::Or),
        Cell::Logical(LogicalOperator::And),
        Cell::Logical(LogicalOperator::Not),
        Cell::Logical(LogicalOperator::Xor),
        Cell::Special(SpecialForm::Define),
        Cell::Special(SpecialForm::Let),
        Cell::Special(SpecialForm::SetCar),
        Cell::Special(SpecialForm::SetBang),
        Cell::Special(SpecialForm::Cond),
        Cell::Special(SpecialForm::If),
        Cell::Special(SpecialForm::Do),
        Cell::Special(SpecialForm::While),
        Cell::Special(SpecialForm::When),
        Cell::Special(SpecialForm::Unless),
        Cell::Special(SpecialForm::Break),
        Cell::Special(SpecialForm::Continue),
        Cell::Special(SpecialForm::Begin),
        Cell::Special(SpecialForm::Env),
        Cell::Special(SpecialForm::Exit),
        Cell::Special(SpecialForm::Input),
        Cell::Special(SpecialForm::Output),
        Cell::Special(SpecialForm::OutputLine),
    ];
    assert(r@.map_values(|c: Cell| c@) =~= reserved_cells());
    r
}

/// Each reserved lexeme with the token cell it reads as.
pub fn map_cell_from_string() -> (r: Vec<(String, Cell)>)
    ensures
        r@.len() == reserved_cells().len(),
        forall|i: int| 0 <= i < r@.len() ==> (#[trigger] r@[i]).1@ == reserved_cells()[i]
            && r@[i].0@ == cell_printed(reserved_cells()[i]),
{
    let cells = reserved_cell_list();
    let mut tokens: Vec<(String, Cell)> = Vec::new();
    let mut i: usize = 0;
    while i < cells.len()
        invariant
            i <= cells@.len(),
            cells@.map_values(|c: Cell| c@) == reserved_cells(),
            tokens@.len() == i,
            forall|j: int| 0 <= j < i ==> (#[trigger] tokens@[j]).1@ == reserved_cells()[j]
                && tokens@[j].0@ == cell_printed(reserved_cells()[j]),
        decreases cells@.len() - i,
    {
        assert(cells@[i as int]@ == reserved_cells()[i as int]);
        tokens.push((cells[i].print(), cells[i].copy()));
        i = i + 1;
    }
    tokens
}

} // verus!
