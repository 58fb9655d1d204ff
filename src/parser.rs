//! The reader: characters to tokens, tokens to S-expressions.
use vstd::prelude::*;
use crate::chars::{alphanumeric, chars_of, is_ascii_alphanumeric, is_alphanumeric, is_whitespace, string_of, unicode_whitespace};
use crate::text::push_char;
use crate::chars::same_text;
use crate::list::List;
use crate::primitives::{cell_printed, map_cell_from_string, reserved, reserved_cells, reserved_from, Cell, CellV, FloatArith};
use crate::semantics::{follows_map, in_i64, HostAnswer, HostOracle};
use crate::symbolic_expression::{SExpression, SexpV};

verus! {

broadcast use {crate::semantics::lemma_follows_submap, crate::semantics::lemma_submap_trans};

#[derive(Debug)]
pub enum ParseError {
    Reason(String),
}

#[derive(Debug)]
pub enum TokenType {
    StringLiteral(String),
    LeftParen,
    RightParen,
    Other(String),
    EOF,
}

/// A token and where it was read.
#[derive(Debug)]
pub struct Token {
    pub token_type: TokenType,
    pub line: usize,
    pub column: usize,
}

/// What a token stands for.
pub enum Lexeme {
    Open,
    Close,
    Text(Seq<char>),
    Atom(Seq<char>),
    End,
}

impl View for TokenType {
    type V = Lexeme;

    open spec fn view(&self) -> Lexeme {
        match self {
            TokenType::StringLiteral(s) => Lexeme::Text(s@),
            TokenType::LeftParen => Lexeme::Open,
            TokenType::RightParen => Lexeme::Close,
            TokenType::Other(s) => Lexeme::Atom(s@),
            TokenType::EOF => Lexeme::End,
        }
    }
}

pub open spec fn is_space(c: char) -> bool {
    c == ' ' || c == '\t' || c == '\n' || c == '\r'
}

/// Characters that make up identifiers, numbers and operators.
pub open spec fn symbol_char(c: char) -> bool {
    is_ascii_alphanumeric(c) || (alphanumeric(c) && !is_space(c) && c != '(' && c != ')' && c != '"' && c != ';')
        || c == '+' || c == '-' || c == '/' || c == '*' || c == '%' || c == '\''
        || c == '.' || c == '?' || c == '=' || c == '<' || c == '>' || c == '!'
}

/// The first position from `i` on that is not a space.
pub open spec fn spaces_end(cs: Seq<char>, i: int) -> int
    decreases cs.len() - i,
{
    if i < cs.len() && is_space(cs[i]) {
        spaces_end(cs, i + 1)
    } else {
        i
    }
}

/// The first line feed from `i` on, or the end.
pub open spec fn line_end(cs: Seq<char>, i: int) -> int
    decreases cs.len() - i,
{
    if i < cs.len() && cs[i] != '\n' {
        line_end(cs, i + 1)
    } else {
        i
    }
}

/// The first double quote from `i` on, or the end.
pub open spec fn quote_end(cs: Seq<char>, i: int) -> int
    decreases cs.len() - i,
{
    if i < cs.len() && cs[i] != '"' {
        quote_end(cs, i + 1)
    } else {
        i
    }
}

/// The end of the run of symbol characters that starts at `i`.
pub open spec fn run_end(cs: Seq<char>, i: int) -> int
    decreases cs.len() - i,
{
    if i < cs.len() && symbol_char(cs[i]) {
        run_end(cs, i + 1)
    } else {
        i
    }
}

/// The first position from `i` on that is neither blank nor in a `;` comment.
pub open spec fn skip_blank(cs: Seq<char>, i: int) -> int
    decreases cs.len() - i,
{
    let j = spaces_end(cs, i);
    if j < cs.len() && cs[j] == ';' {
        let k = line_end(cs, j);
        if i < k && k <= cs.len() {
            skip_blank(cs, k)
        } else {
            k
        }
    } else {
        j
    }
}

/// The lexeme that starts at or after `i`, and where the next one may start.
pub open spec fn next_lexeme(cs: Seq<char>, i: int) -> Result<(Lexeme, int), Seq<char>> {
    let p = skip_blank(cs, i);
    if p >= cs.len() {
        Ok((Lexeme::End, p))
    } else if cs[p] == '(' {
        Ok((Lexeme::Open, p + 1))
    } else if cs[p] == ')' {
        Ok((Lexeme::Close, p + 1))
    } else if cs[p] == '"' {
        let q = quote_end(cs, p + 1);
        if q >= cs.len() {
            Err("unterminated string"@)
        } else {
            Ok((Lexeme::Text(cs.subrange(p + 1, q)), q + 1))
        }
    } else if symbol_char(cs[p]) {
        Ok((Lexeme::Atom(cs.subrange(p, run_end(cs, p))), run_end(cs, p)))
    } else {
        Err("unexpected character"@)
    }
}

/// All lexemes from position `i` on.
pub open spec fn scan(cs: Seq<char>, i: int) -> Result<Seq<Lexeme>, Seq<char>>
    decreases cs.len() - i,
{
    match next_lexeme(cs, i) {
        Err(m) => Err(m),
        Ok((Lexeme::End, _)) => Ok(Seq::empty()),
        Ok((l, j)) => if j <= i || j > cs.len() {
            Ok(seq![l])
        } else {
            match scan(cs, j) {
                Err(m) => Err(m),
                Ok(ls) => Ok(seq![l] + ls),
            }
        },
    }
}

/// Character-level state of lexical analysis, with line and column for
/// diagnostics.
pub struct Lexer {
    pos: usize,
    line: usize,
    column: usize,
    text: String,
    all_chars: Vec<char>,
}

impl Lexer {
    pub closed spec fn chars(&self) -> Seq<char> {
        self.all_chars@
    }

    pub closed spec fn position(&self) -> int {
        self.pos as int
    }

    pub closed spec fn wf(&self) -> bool {
        self.pos <= self.all_chars@.len()
    }

    pub fn new(text: String) -> (r: Self)
        ensures
            r.wf(),
            r.chars() == text@,
            r.position() == 0,
    {
        let all_chars = chars_of(text.as_str());
        Lexer { text, all_chars, pos: 0, line: 1, column: 0 }
    }

    pub fn end_of_input(&self) -> (r: bool)
        requires
            self.wf(),
        ensures
            r == (self.position() >= self.chars().len()),
    {
        self.pos >= self.all_chars.len()
    }

    /// The current character; `\u{4}` (end of transmission) at the end.
    pub fn this_char(&self) -> (r: char)
        requires
            self.wf(),
        ensures
            self.position() < self.chars().len() ==> r == self.chars()[self.position()],
            self.position() >= self.chars().len() ==> r == '\u{4}',
    {
        if self.end_of_input() {
            '\u{4}'
        } else {
            self.all_chars[self.pos]
        }
    }

    /// Moves one character on, unless at the end.
    pub fn advance(&mut self)
        requires
            old(self).wf(),
        ensures
            final(self).wf(),
            final(self).chars() == old(self).chars(),
            final(self).position() == if old(self).position() < old(self).chars().len() {
                old(self).position() + 1
            } else {
                old(self).position()
            },
    {
        if self.pos < self.all_chars.len() {
            self.pos = self.pos + 1;
            if self.this_char() == '\n' {
                if self.line < usize::MAX {
                    self.line = self.line + 1;
                }
                self.column = 1;
            } else if self.column < usize::MAX {
                self.column = self.column + 1;
            }
        }
    }

    pub fn whitespace(&self) -> (r: bool)
        requires
            self.wf(),
        ensures
            r == (self.position() < self.chars().len() && is_space(self.chars()[self.position()])),
    {
        let c = self.this_char();
        c == ' ' || c == '\t' || c == '\n' || c == '\r'
    }

    pub fn begin_comment(&self) -> (r: bool)
        requires
            self.wf(),
        ensures
            r == (self.position() < self.chars().len() && self.chars()[self.position()] == ';'),
    {
        self.this_char() == ';'
    }

    pub fn symbol_or_number_char(&self) -> (r: bool)
        requires
            self.wf(),
        ensures
            r == (self.position() < self.chars().len() && symbol_char(self.chars()[self.position()])),
    {
        if self.end_of_input() {
            return false;
        }
        let c = self.this_char();
        ('a' <= c && c <= 'z') || ('A' <= c && c <= 'Z') || ('0' <= c && c <= '9')
            || (is_alphanumeric(c) && !(c == ' ' || c == '\t' || c == '\n' || c == '\r') && c != '(' && c != ')'
            && c != '"' && c != ';') || c == '+' || c == '-' || c == '/' || c == '*' || c == '%' || c == '\''
            || c == '.' || c == '?' || c == '=' || c == '<' || c == '>' || c == '!'
    }

    pub fn skip_whitespace(&mut self)
        requires
            old(self).wf(),
        ensures
            final(self).wf(),
            final(self).chars() == old(self).chars(),
            final(self).position() == spaces_end(old(self).chars(), old(self).position()),
    {
        while !self.end_of_input() && self.whitespace()
            invariant
                self.wf(),
                self.chars() == old(self).chars(),
                spaces_end(self.chars(), old(self).position()) == spaces_end(self.chars(), self.position()),
            decreases self.chars().len() - self.position(),
        {
            self.advance();
        }
    }

    /// At a `;`, moves to the end of the line (onto its line feed).
    pub fn skip_comment(&mut self)
        requires
            old(self).wf(),
        ensures
            final(self).wf(),
            final(self).chars() == old(self).chars(),
            old(self).position() < old(self).chars().len() && old(self).chars()[old(self).position()] == ';'
                ==> final(self).position() == line_end(old(self).chars(), old(self).position()),
            !(old(self).position() < old(self).chars().len() && old(self).chars()[old(self).position()] == ';')
                ==> final(self).position() == old(self).position(),
    {
        if self.begin_comment() {
            while self.this_char() != '\n' && !self.end_of_input()
                invariant
                    self.wf(),
                    self.chars() == old(self).chars(),
                    line_end(self.chars(), old(self).position()) == line_end(self.chars(), self.position()),
                decreases self.chars().len() - self.position(),
            {
                self.advance();
            }
        }
    }

    /// Skips blanks and comments.
    fn skip_blank(&mut self)
        requires
            old(self).wf(),
        ensures
            final(self).wf(),
            final(self).chars() == old(self).chars(),
            final(self).position() == skip_blank(old(self).chars(), old(self).position()),
    {
        loop
            invariant
                self.wf(),
                self.chars() == old(self).chars(),
                skip_blank(self.chars(), old(self).position()) == skip_blank(self.chars(), self.position()),
            decreases self.chars().len() - self.position(),
        {
            let start = self.pos;
            self.skip_whitespace();
            if self.begin_comment() {
                self.skip_comment();
                if self.pos <= start {
                    return;
                }
            } else {
                return;
            }
        }
    }

    /// Reads the next token.
    pub fn next(&mut self) -> (r: Result<Token, ParseError>)
        requires
            old(self).wf(),
        ensures
            final(self).wf(),
            final(self).chars() == old(self).chars(),
            match next_lexeme(old(self).chars(), old(self).position()) {
                Ok((l, j)) => r matches Ok(t) && t.token_type@ == l && final(self).position() == j,
                Err(m) => r matches Err(ParseError::Reason(e)) && e@ == m,
            },
    {
        self.skip_blank();
        if self.end_of_input() {
            return Ok(Token { token_type: TokenType::EOF, line: self.line, column: self.column });
        }
        let c = self.this_char();
        if c == '(' {
            self.advance();
            Ok(Token { token_type: TokenType::LeftParen, line: self.line, column: self.column })
        } else if c == ')' {
            self.advance();
            Ok(Token { token_type: TokenType::RightParen, line: self.line, column: self.column })
        } else if c == '"' {
            let line = self.line;
            let column = self.column;
            self.advance();
            let from = self.pos;
            while !self.end_of_input() && self.this_char() != '"'
                invariant
                    self.wf(),
                    self.chars() == old(self).chars(),
                    from <= self.pos,
                    quote_end(self.chars(), from as int) == quote_end(self.chars(), self.position()),
                decreases self.chars().len() - self.position(),
            {
                self.advance();
            }
            if self.end_of_input() {
                return Err(ParseError::Reason(String::from_str("unterminated string")));
            }
            let content = string_of(&self.all_chars, from, self.pos);
            self.advance();
            Ok(Token { token_type: TokenType::StringLiteral(content), line, column })
        } else if self.symbol_or_number_char() {
            let from = self.pos;
            while self.symbol_or_number_char()
                invariant
                    self.wf(),
                    self.chars() == old(self).chars(),
                    from <= self.pos,
                    run_end(self.chars(), from as int) == run_end(self.chars(), self.position()),
                decreases self.chars().len() - self.position(),
            {
                self.advance();
            }
            let content = string_of(&self.all_chars, from, self.pos);
            Ok(Token { token_type: TokenType::Other(content), line: self.line, column: self.column })
        } else {
            Err(ParseError::Reason(String::from_str("unexpected character")))
        }
    }
}

/// All tokens of `text`, in order.
pub fn tokenize(text: String) -> (r: Result<Vec<Token>, ParseError>)
    ensures
        match scan(text@, 0) {
            Ok(ls) => r matches Ok(ts) && ts@.map_values(|t: Token| t.token_type@) == ls,
            Err(m) => r matches Err(ParseError::Reason(e)) && e@ == m,
        },
{
    let mut lex = Lexer::new(text);
    let ghost cs = lex.chars();
    let mut all_tokens: Vec<Token> = Vec::new();
    loop
        invariant
            lex.wf(),
            lex.chars() == cs,
            cs == text@,
            ({
                let done = all_tokens@.map_values(|t: Token| t.token_type@);
                match scan(cs, 0) {
                    Ok(ls) => scan(cs, lex.position()) matches Ok(rest) && ls == done + rest,
                    Err(m) => scan(cs, lex.position()) == Err::<Seq<Lexeme>, Seq<char>>(m),
                }
            }),
        decreases cs.len() - lex.position(),
    {
        let start = lex.pos;
        let ghost before = all_tokens@.map_values(|t: Token| t.token_type@);
        match lex.next() {
            Err(e) => {
                return Err(e);
            },
            Ok(t) => {
                if let TokenType::EOF = t.token_type {
                    assert(all_tokens@.map_values(|t: Token| t.token_type@) =~= before + Seq::<Lexeme>::empty());
                    return Ok(all_tokens);
                }
                let progressed = start < lex.pos && lex.pos <= lex.all_chars.len();
                all_tokens.push(t);
                assert(all_tokens@.map_values(|t: Token| t.token_type@) =~= before + seq![t.token_type@]);
                if !progressed {
                    return Ok(all_tokens);
                }
            },
        }
    }
}

/// Splits `expression` into parenthesis tokens and the white-space
/// separated words between them.
pub open spec fn split_words(cs: Seq<char>) -> (Seq<Seq<char>>, Seq<char>)
    decreases cs.len(),
{
    if cs.len() == 0 {
        (Seq::empty(), Seq::empty())
    } else {
        let (words, cur) = split_words(cs.drop_last());
        let c = cs.last();
        let flushed = if cur.len() > 0 { words.push(cur) } else { words };
        if c == '(' || c == ')' {
            (flushed.push(seq![c]), Seq::empty())
        } else if unicode_whitespace(c) {
            (flushed, Seq::empty())
        } else {
            (words, cur.push(c))
        }
    }
}

pub open spec fn lex_words(cs: Seq<char>) -> Seq<Seq<char>> {
    let (words, cur) = split_words(cs);
    if cur.len() > 0 {
        words.push(cur)
    } else {
        words
    }
}

/// The words of `expression`: each parenthesis on its own, and the runs of
/// other non-blank characters.
pub fn lex(expression: String) -> (r: Vec<String>)
    ensures
        r@.map_values(|s: String| s@) == lex_words(expression@),
{
    let cs = chars_of(expression.as_str());
    let mut words: Vec<String> = Vec::new();
    let mut cur = String::new();
    let mut i: usize = 0;
    while i < cs.len()
        invariant
            cs@ == expression@,
            i <= cs@.len(),
            (words@.map_values(|s: String| s@), cur@) == split_words(cs@.subrange(0, i as int)),
        decreases cs@.len() - i,
    {
        let c = cs[i];
        let ghost prev = cs@.subrange(0, i as int);
        assert(cs@.subrange(0, i + 1).drop_last() =~= prev);
        let ghost before = words@.map_values(|s: String| s@);
        if c == '(' || c == ')' || is_whitespace(c) {
            if !cur.as_str().is_empty() {
                let mut done = String::new();
                std::mem::swap(&mut done, &mut cur);
                words.push(done);
                assert(words@.map_values(|s: String| s@) =~= before.push(split_words(prev).1));
            }
            let ghost flushed = words@.map_values(|s: String| s@);
            if c == '(' || c == ')' {
                let mut p = String::new();
                push_char(&mut p, c);
                words.push(p);
                assert(words@.map_values(|s: String| s@) =~= flushed.push(seq![c]));
            }
            assert(cur@ =~= Seq::<char>::empty());
        } else {
            push_char(&mut cur, c);
        }
        i = i + 1;
    }
    assert(cs@.subrange(0, cs@.len() as int) =~= cs@);
    let ghost before = words@.map_values(|s: String| s@);
    if !cur.as_str().is_empty() {
        words.push(cur);
        assert(words@.map_values(|s: String| s@) =~= before.push(split_words(expression@).1));
    }
    words
}

pub open spec fn is_digit(c: char) -> bool {
    '0' <= c && c <= '9'
}

/// The value of a run of decimal digits.
pub open spec fn digits_value(ds: Seq<char>) -> int
    decreases ds.len(),
{
    if ds.len() == 0 {
        0
    } else {
        digits_value(ds.drop_last()) * 10 + (ds.last() as int - '0' as int)
    }
}

pub open spec fn has_sign(a: Seq<char>) -> bool {
    a.len() > 0 && (a[0] == '-' || a[0] == '+')
}

/// The lexeme without its leading sign.
pub open spec fn unsigned_part(a: Seq<char>) -> Seq<char> {
    if has_sign(a) {
        a.subrange(1, a.len() as int)
    } else {
        a
    }
}

/// The integer a lexeme spells: an optional sign and decimal digits, within
/// 64 bits.
pub open spec fn int_literal(a: Seq<char>) -> Option<int> {
    let ds = unsigned_part(a);
    let v = if has_sign(a) && a[0] == '-' { -digits_value(ds) } else { digits_value(ds) };
    if ds.len() > 0 && (forall|i: int| 0 <= i < ds.len() ==> is_digit(#[trigger] ds[i])) && in_i64(v) {
        Some(v)
    } else {
        None
    }
}

/// Digits with at most one decimal point, and at least one digit.
pub open spec fn mantissa_ok(m: Seq<char>) -> bool {
    &&& forall|i: int| 0 <= i < m.len() ==> is_digit(#[trigger] m[i]) || m[i] == '.'
    &&& forall|i: int, j: int| 0 <= i < j < m.len() && #[trigger] m[i] == '.' ==> #[trigger] m[j] != '.'
    &&& exists|i: int| 0 <= i < m.len() && is_digit(#[trigger] m[i])
}

/// One or more decimal digits.
pub open spec fn digits_only(s: Seq<char>) -> bool {
    s.len() > 0 && forall|i: int| 0 <= i < s.len() ==> is_digit(#[trigger] s[i])
}

pub open spec fn is_exp_mark(c: char) -> bool {
    c == 'e' || c == 'E'
}

/// The first exponent mark at or after `i`, or the end.
pub open spec fn first_mark(u: Seq<char>, i: int) -> int
    decreases u.len() - i,
{
    if i >= u.len() {
        u.len() as int
    } else if is_exp_mark(u[i]) {
        i
    } else {
        first_mark(u, i + 1)
    }
}

/// A mantissa, then optionally `e` or `E` and a signed run of digits.
pub open spec fn decimal_number(u: Seq<char>) -> bool {
    let p = first_mark(u, 0);
    &&& mantissa_ok(u.subrange(0, p))
    &&& (p == u.len() || digits_only(unsigned_part(u.subrange(p + 1, u.len() as int))))
}

/// `u` spells the word whose lower- and upper-case letters are `lower` and
/// `upper`, in any mix of cases.
pub open spec fn ci_word(u: Seq<char>, lower: Seq<char>, upper: Seq<char>) -> bool {
    &&& u.len() == lower.len()
    &&& lower.len() == upper.len()
    &&& forall|i: int| 0 <= i < u.len() ==> #[trigger] u[i] == lower[i] || u[i] == upper[i]
}

/// Infinity or not-a-number, spelled in any case.
pub open spec fn special_number(u: Seq<char>) -> bool {
    ci_word(u, "inf"@, "INF"@) || ci_word(u, "infinity"@, "INFINITY"@) || ci_word(u, "nan"@, "NAN"@)
}

/// The text of a floating-point number: an optional sign, then a decimal
/// number with optional exponent, or infinity, or not-a-number.
pub open spec fn number_like(a: Seq<char>) -> bool {
    let u = unsigned_part(a);
    special_number(u) || decimal_number(u)
}

/// What an atom reads as; `None` for a number that only the host's float
/// parsing can give a value.
pub open spec fn atom_value(a: Seq<char>) -> Option<SexpV> {
    match reserved(a) {
        Some(c) => Some(SexpV::Cell(c)),
        None => match int_literal(a) {
            Some(i) => Some(SexpV::Cell(CellV::Int(i))),
            None => if number_like(a) {
                None
            } else {
                Some(SexpV::Cell(CellV::Symbol(0, a)))
            },
        },
    }
}

/// The result of reading one expression: the expression and the position
/// after it.
pub enum Parsed {
    Done(Result<(SexpV, int), Seq<char>>),
}

/// What an atom reads as, given the host's answer `h` to parsing it as a
/// float: a float, or a symbol when the host does not read it as one.
pub open spec fn atom_read(a: Seq<char>, h: HostAnswer) -> SexpV {
    match atom_value(a) {
        Some(v) => v,
        None => match h {
            HostAnswer::Number(bits, text) => SexpV::Cell(CellV::Flt(bits, text)),
            _ => SexpV::Cell(CellV::Symbol(0, a)),
        },
    }
}

/// Every recorded position lies below `bound`.
pub open spec fn below(log: Map<nat, HostAnswer>, bound: int) -> bool {
    forall|i: nat| #[trigger] log.contains_key(i) ==> i < bound
}

/// The parse `p` is what `r` reports.
pub open spec fn parsed_as(p: Parsed, r: Result<(SExpression, usize), ParseError>) -> bool {
    match p {
        Parsed::Done(Ok((v, q))) => r matches Ok((e, q2)) && e@ == v && q2 as int == q,
        Parsed::Done(Err(m)) => r matches Err(ParseError::Reason(x)) && x@ == m,
    }
}

/// Reading one expression from position `pos` of `ts`.
pub open spec fn parse_at(ts: Seq<Lexeme>, pos: int, orc: HostOracle) -> Parsed
    decreases ts.len() - pos, 1int,
{
    if pos < 0 || pos >= ts.len() {
        Parsed::Done(Err("could not get token"@))
    } else {
        match ts[pos] {
            Lexeme::Open => read_list(ts, pos + 1, Seq::empty(), orc),
            Lexeme::Close => Parsed::Done(Err("unexpected `)`"@)),
            Lexeme::Text(s) => Parsed::Done(Ok((SexpV::Cell(CellV::Str(s)), pos + 1))),
            Lexeme::Atom(a) => Parsed::Done(Ok((atom_read(a, orc(pos as nat)), pos + 1))),
            Lexeme::End => Parsed::Done(Err("unexpected end of input"@)),
        }
    }
}

/// Reading list elements from `pos` up to the closing parenthesis; `acc`
/// holds those read so far.
pub open spec fn read_list(ts: Seq<Lexeme>, pos: int, acc: Seq<SexpV>, orc: HostOracle) -> Parsed
    decreases ts.len() - pos + 1, 0int,
{
    if pos < 0 || pos >= ts.len() {
        Parsed::Done(Err("could not find closing `)`"@))
    } else {
        match ts[pos] {
            Lexeme::Close => Parsed::Done(Ok((SexpV::List(acc), pos + 1))),
            Lexeme::End => Parsed::Done(Err("could not find closing `)` and reached end of input."@)),
            _ => match parse_at(ts, pos, orc) {
                Parsed::Done(Ok((e, p2))) => if pos < p2 && p2 <= ts.len() {
                    read_list(ts, p2, acc.push(e), orc)
                } else {
                    Parsed::Done(Err("could not find closing `)`"@))
                },
                other => other,
            },
        }
    }
}

pub open spec fn tokens_view(ts: Seq<Token>) -> Seq<Lexeme> {
    ts.map_values(|t: Token| t.token_type@)
}

/// The digits of `ds` read as a number, when it is at most 2^63; `None` when
/// larger.
fn small_digits_value(ds: &Vec<char>, from: usize) -> (r: Option<u64>)
    requires
        from <= ds@.len(),
        forall|i: int| from <= i < ds@.len() ==> is_digit(#[trigger] ds@[i]),
    ensures
        r matches Some(v) ==> v as int == digits_value(ds@.subrange(from as int, ds@.len() as int))
            && v <= 0x8000_0000_0000_0000u64,
        r is None ==> digits_value(ds@.subrange(from as int, ds@.len() as int)) > 0x8000_0000_0000_0000u64,
{
    let mut acc: u64 = 0;
    let mut i = from;
    while i < ds.len()
        invariant
            from <= i <= ds@.len(),
            forall|k: int| from <= k < ds@.len() ==> is_digit(#[trigger] ds@[k]),
            acc as int == digits_value(ds@.subrange(from as int, i as int)),
            acc <= 0x8000_0000_0000_0000u64,
        decreases ds@.len() - i,
    {
        let d = (ds[i] as u32 - '0' as u32) as u64;
        assert(ds@.subrange(from as int, i + 1).drop_last() =~= ds@.subrange(from as int, i as int));
        if acc > 0x0CCC_CCCC_CCCC_CCCCu64 || acc * 10 + d > 0x8000_0000_0000_0000u64 {
            proof {
                lemma_digits_grow(ds@.subrange(from as int, ds@.len() as int), i + 1 - from);
                assert(ds@.subrange(from as int, ds@.len() as int).subrange(0, i + 1 - from)
                    =~= ds@.subrange(from as int, i + 1));
            }
            return None;
        }
        acc = acc * 10 + d;
        i = i + 1;
    }
    Some(acc)
}

/// A longer run of digits is worth at least as much as its prefix.
proof fn lemma_digits_grow(ds: Seq<char>, k: int)
    requires
        0 <= k <= ds.len(),
        forall|i: int| 0 <= i < ds.len() ==> is_digit(#[trigger] ds[i]),
    ensures
        digits_value(ds.subrange(0, k)) <= digits_value(ds),
        digits_value(ds) >= 0,
    decreases ds.len(),
{
    if ds.len() > 0 {
        let init = ds.drop_last();
        assert forall|i: int| 0 <= i < init.len() implies is_digit(#[trigger] init[i]) by {
            assert(init[i] == ds[i]);
        }
        if k < ds.len() {
            assert(init.subrange(0, k) =~= ds.subrange(0, k));
            lemma_digits_grow(init, k);
        } else {
            assert(ds.subrange(0, k) =~= ds);
            lemma_digits_grow(init, 0);
        }
    }
}

/// `cs[lo..hi]` as a vector.
fn sub_chars(cs: &Vec<char>, lo: usize, hi: usize) -> (r: Vec<char>)
    requires
        lo <= hi <= cs@.len(),
    ensures
        r@ == cs@.subrange(lo as int, hi as int),
{
    let mut r: Vec<char> = Vec::new();
    let mut i = lo;
    while i < hi
        invariant
            lo <= i <= hi <= cs@.len(),
            r@ == cs@.subrange(lo as int, i as int),
        decreases hi - i,
    {
        r.push(cs[i]);
        i = i + 1;
        assert(r@ =~= cs@.subrange(lo as int, i as int));
    }
    r
}

/// The characters without a leading sign.
fn unsigned_chars(cs: &Vec<char>) -> (r: Vec<char>)
    ensures
        r@ == unsigned_part(cs@),
{
    if cs.len() > 0 && (cs[0] == '-' || cs[0] == '+') {
        sub_chars(cs, 1, cs.len())
    } else {
        let r = sub_chars(cs, 0, cs.len());
        assert(r@ =~= cs@);
        r
    }
}

fn is_digits_only(s: &Vec<char>) -> (r: bool)
    ensures
        r == digits_only(s@),
{
    if s.len() == 0 {
        return false;
    }
    let mut i: usize = 0;
    while i < s.len()
        invariant
            i <= s@.len(),
            forall|k: int| 0 <= k < i ==> is_digit(#[trigger] s@[k]),
        decreases s@.len() - i,
    {
        if !('0' <= s[i] && s[i] <= '9') {
            return false;
        }
        i = i + 1;
    }
    true
}

fn is_mantissa(m: &Vec<char>) -> (r: bool)
    ensures
        r == mantissa_ok(m@),
{
    let n = m.len();
    let mut only = true;
    let mut dot_seen = false;
    let mut two_dots = false;
    let mut digit_seen = false;
    let mut i: usize = 0;
    while i < n
        invariant
            n == m@.len(),
            i <= n,
            only <==> forall|k: int| 0 <= k < i ==> is_digit(#[trigger] m@[k]) || m@[k] == '.',
            dot_seen <==> exists|k: int| 0 <= k < i && #[trigger] m@[k] == '.',
            two_dots <==> exists|k: int, j: int| 0 <= k < j < i && #[trigger] m@[k] == '.' && #[trigger] m@[j] == '.',
            digit_seen <==> exists|k: int| 0 <= k < i && is_digit(#[trigger] m@[k]),
        decreases n - i,
    {
        let c = m[i];
        if '0' <= c && c <= '9' {
            digit_seen = true;
        } else if c == '.' {
            if dot_seen {
                two_dots = true;
                let ghost w = choose|k: int| 0 <= k < i && #[trigger] m@[k] == '.';
                assert(0 <= w < i + 1 && m@[w] == '.' && m@[i as int] == '.');
            }
            dot_seen = true;
        } else {
            only = false;
        }
        i = i + 1;
        proof {
            if two_dots {
                if !(c == '.' && dot_seen) {
                    let (k, j) = choose|k: int, j: int| 0 <= k < j < i - 1 && #[trigger] m@[k] == '.' && #[trigger] m@[j] == '.';
                    assert(0 <= k < j < i && m@[k] == '.' && m@[j] == '.');
                }
            } else {
                assert forall|k: int, j: int| 0 <= k < j < i && #[trigger] m@[k] == '.' implies #[trigger] m@[j] != '.' by {
                    if j == i - 1 {
                        assert(m@[k] == '.');
                    }
                }
            }
        }
    }
    assert(two_dots == !(forall|k: int, j: int| 0 <= k < j < n && #[trigger] m@[k] == '.' ==> #[trigger] m@[j] != '.'));
    only && digit_seen && !two_dots
}

fn is_ci_word(u: &Vec<char>, lower: &str, upper: &str) -> (r: bool)
    ensures
        r == ci_word(u@, lower@, upper@),
{
    let lo = chars_of(lower);
    let up = chars_of(upper);
    if u.len() != lo.len() || lo.len() != up.len() {
        return false;
    }
    let mut i: usize = 0;
    while i < u.len()
        invariant
            lo@ == lower@,
            up@ == upper@,
            u@.len() == lo@.len(),
            lo@.len() == up@.len(),
            i <= u@.len(),
            forall|k: int| 0 <= k < i ==> #[trigger] u@[k] == lo@[k] || u@[k] == up@[k],
        decreases u@.len() - i,
    {
        if !(u[i] == lo[i] || u[i] == up[i]) {
            return false;
        }
        i = i + 1;
    }
    true
}

/// Whether the unsigned text `u` is a floating-point number.
fn is_number_text(u: &Vec<char>) -> (r: bool)
    ensures
        r == (special_number(u@) || decimal_number(u@)),
{
    if is_ci_word(u, "inf", "INF") || is_ci_word(u, "infinity", "INFINITY") || is_ci_word(u, "nan", "NAN") {
        return true;
    }
    let n = u.len();
    let mut p: usize = 0;
    while p < n && !(u[p] == 'e' || u[p] == 'E')
        invariant
            n == u@.len(),
            p <= n,
            first_mark(u@, 0) == first_mark(u@, p as int),
        decreases n - p,
    {
        p = p + 1;
    }
    assert(p as int == first_mark(u@, 0));
    let m = sub_chars(u, 0, p);
    if !is_mantissa(&m) {
        return false;
    }
    if p == n {
        return true;
    }
    let t = sub_chars(u, p + 1, n);
    let d = unsigned_chars(&t);
    is_digits_only(&d)
}

/// Turns S-expression tokens into S-expressions.
pub struct Parser {
    reserved_symbol_lookup: Vec<(String, Cell)>,
}

impl Parser {
    pub closed spec fn wf(&self) -> bool {
        &&& self.reserved_symbol_lookup@.len() == reserved_cells().len()
        &&& forall|i: int| 0 <= i < self.reserved_symbol_lookup@.len()
            ==> (#[trigger] self.reserved_symbol_lookup@[i]).1@ == reserved_cells()[i]
            && self.reserved_symbol_lookup@[i].0@ == cell_printed(reserved_cells()[i])
    }

    pub fn new() -> (r: Self)
        ensures
            r.wf(),
    {
        Parser { reserved_symbol_lookup: map_cell_from_string() }
    }

    /// The reserved token cell spelled `text`, if any.
    fn reserved_cell(&self, text: &str) -> (r: Option<Cell>)
        requires
            self.wf(),
        ensures
            match reserved(text@) {
                Some(c) => r matches Some(x) && x@ == c,
                None => r is None,
            },
    {
        let mut i: usize = 0;
        while i < self.reserved_symbol_lookup.len()
            invariant
                self.wf(),
                i <= self.reserved_symbol_lookup@.len(),
                reserved(text@) == reserved_from(text@, i as int),
            decreases self.reserved_symbol_lookup@.len() - i,
        {
            if same_text(self.reserved_symbol_lookup[i].0.as_str(), text) {
                return Some(self.reserved_symbol_lookup[i].1.copy());
            }
            i = i + 1;
        }
        None
    }

    /// The cell a word token reads as.
    fn atom_cell<F: FloatArith>(&self, text: &String, arith: &F) -> (r: (Cell, Ghost<HostAnswer>))
        requires
            self.wf(),
        ensures
            SexpV::Cell(r.0@) == atom_read(text@, r.1@),
    {
        if let Some(c) = self.reserved_cell(text.as_str()) {
            return (c, Ghost(HostAnswer::Nothing));
        }
        let cs = chars_of(text.as_str());
        let u = unsigned_chars(&cs);
        let negative = cs.len() > 0 && cs[0] == '-';
        assert(negative == (has_sign(text@) && text@[0] == '-'));
        if is_digits_only(&u) {
            assert(u@.subrange(0, u@.len() as int) =~= u@);
            match small_digits_value(&u, 0) {
                Some(v) => {
                    if negative {
                        return (Cell::Int((0i128 - v as i128) as i64), Ghost(HostAnswer::Nothing));
                    } else if v <= 0x7FFF_FFFF_FFFF_FFFFu64 {
                        return (Cell::Int(v as i64), Ghost(HostAnswer::Nothing));
                    }
                },
                None => {},
            }
        }
        assert(int_literal(text@) is None);
        if is_number_text(&u) {
            if let Some(f) = arith.parse(text.as_str()) {
                let ghost h = HostAnswer::Number(f.bits, f.text@);
                return (Cell::Flt(f), Ghost(h));
            }
        }
        (Cell::Symbol(0, text.clone()), Ghost(HostAnswer::Nothing))
    }

    /// The S-expression a string or word token stands for.
    pub fn parse_cell_token<F: FloatArith>(&self, token: &Token, arith: &F) -> (r: SExpression)
        requires
            self.wf(),
            token.token_type is StringLiteral || token.token_type is Other,
        ensures
            token.token_type@ matches Lexeme::Text(s) ==> r@ == SexpV::Cell(CellV::Str(s)),
            token.token_type@ matches Lexeme::Atom(a) ==> (atom_value(a) matches Some(v) ==> r@ == v),
            token.token_type@ matches Lexeme::Atom(a) ==> (atom_value(a) is None ==> (r@ is Cell && (r@->Cell_0 is Flt
                || r@->Cell_0 == CellV::Symbol(0, a)))),
    {
        match &token.token_type {
            TokenType::StringLiteral(value) => SExpression::Cell(Cell::Str(value.clone())),
            TokenType::Other(value) => {
                let (c, h) = self.atom_cell(value, arith);
                let r = SExpression::Cell(c);
                assert(r@ == atom_read(value@, h@));
                assert(token.token_type@ == Lexeme::Atom(value@));
                r
            },
            _ => SExpression::Null,
        }
    }

    /// Reads one expression starting at `pos`; gives it and the position after it.
    fn parse_from<F: FloatArith>(&self, tokens: &[Token], pos: usize, arith: &F, log: &mut Ghost<Map<nat, HostAnswer>>) -> (r: Result<(SExpression, usize), ParseError>)
        requires
            self.wf(),
            pos <= tokens@.len(),
            below(old(log)@, pos as int),
        ensures
            r matches Ok((_, q)) ==> pos < q <= tokens@.len() && below(final(log)@, q as int),
            old(log)@.submap_of(final(log)@),
            forall|orc: HostOracle| #[trigger] follows_map(orc, final(log)@) ==> parsed_as(parse_at(tokens_view(tokens@), pos as int, orc), r),
        decreases tokens@.len() - pos, 1int,
    {
        if pos >= tokens.len() {
            return Err(ParseError::Reason(String::from_str("could not get token")));
        }
        let token = &tokens[pos];
        assert(tokens_view(tokens@)[pos as int] == token.token_type@);
        match &token.token_type {
            TokenType::LeftParen => {
                let acc: Vec<SExpression> = Vec::new();
                assert(acc@.map_values(|e: SExpression| e@) =~= Seq::<SexpV>::empty());
                self.read_list_tokens(tokens, pos + 1, acc, arith, log)
            },
            TokenType::RightParen => Err(ParseError::Reason(String::from_str("unexpected `)`"))),
            TokenType::EOF => Err(ParseError::Reason(String::from_str("unexpected end of input"))),
            TokenType::StringLiteral(value) => Ok((SExpression::Cell(Cell::Str(value.clone())), pos + 1)),
            TokenType::Other(value) => {
                let (c, h) = self.atom_cell(value, arith);
                let ghost old_log = log@;
                *log = Ghost(log@.insert(pos as nat, h@));
                assert(!old_log.contains_key(pos as nat));
                assert(old_log.submap_of(log@));
                let r = Ok((SExpression::Cell(c), pos + 1));
                assert(tokens_view(tokens@)[pos as int] == Lexeme::Atom(value@));
                assert forall|orc: HostOracle| #[trigger] follows_map(orc, log@) implies parsed_as(
                    parse_at(tokens_view(tokens@), pos as int, orc),
                    r,
                ) by {
                    assert(log@.contains_key(pos as nat));
                    assert(orc(pos as nat) == h@);
                }
                r
            },
        }
    }

    /// Reads list elements from `pos` up to and including the closing
    /// parenthesis; `acc` holds the elements read so far.
    fn read_list_tokens<F: FloatArith>(&self, tokens: &[Token], pos: usize, acc: Vec<SExpression>, arith: &F, log: &mut Ghost<Map<nat, HostAnswer>>) -> (r: Result<(SExpression, usize), ParseError>)
        requires
            self.wf(),
            pos <= tokens@.len(),
            below(old(log)@, pos as int),
        ensures
            r matches Ok((_, q)) ==> pos < q <= tokens@.len() && below(final(log)@, q as int),
            old(log)@.submap_of(final(log)@),
            forall|orc: HostOracle| #[trigger] follows_map(orc, final(log)@) ==> parsed_as(
                read_list(tokens_view(tokens@), pos as int, acc@.map_values(|e: SExpression| e@), orc),
                r,
            ),
        decreases tokens@.len() - pos + 1, 0int,
    {
        if pos >= tokens.len() {
            return Err(ParseError::Reason(String::from_str("could not find closing `)`")));
        }
        assert(tokens_view(tokens@)[pos as int] == tokens@[pos as int].token_type@);
        match &tokens[pos].token_type {
            TokenType::RightParen => Ok((SExpression::List(List::make_from_sexps(acc)), pos + 1)),
            TokenType::EOF => Err(
                ParseError::Reason(String::from_str("could not find closing `)` and reached end of input.")),
            ),
            _ => match self.parse_from(tokens, pos, arith, log) {
                Err(e) => Err(e),
                Ok((exp, next)) => {
                    let ghost before = acc@.map_values(|e: SExpression| e@);
                    let mut acc = acc;
                    acc.push(exp);
                    assert(acc@.map_values(|e: SExpression| e@) =~= before.push(exp@));
                    self.read_list_tokens(tokens, next, acc, arith, log)
                },
            },
        }
    }

    /// Reads one expression from the front of `tokens`; gives it and the
    /// tokens after it.
    pub fn parse_tokens<'a, F: FloatArith>(&self, tokens: &'a [Token], arith: &F) -> (r: Result<(SExpression, &'a [Token]), ParseError>)
        requires
            self.wf(),
        ensures
            exists|orc: HostOracle| #[trigger] read_by(parse_at(tokens_view(tokens@), 0, orc), tokens@, r),
    {
        let mut log: Ghost<Map<nat, HostAnswer>> = Ghost(Map::empty());
        let res = self.parse_from(tokens, 0, arith, &mut log);
        let ghost orc: HostOracle = |i: nat| if log@.contains_key(i) { log@[i] } else { HostAnswer::Nothing };
        assert(follows_map(orc, log@));
        let r = match res {
            Err(e) => Err(e),
            Ok((exp, next)) => {
                let (_, rest) = tokens.split_at(next);
                Ok((exp, rest))
            },
        };
        assert(read_by(parse_at(tokens_view(tokens@), 0, orc), tokens@, r));
        r
    }
}

/// The parse `p` of `tokens` is what `r` reports, with the tokens left over.
pub open spec fn read_by<'a>(p: Parsed, tokens: Seq<Token>, r: Result<(SExpression, &'a [Token]), ParseError>) -> bool {
    match p {
        Parsed::Done(Ok((v, q))) => r matches Ok((e, rest)) && e@ == v && rest@ == tokens.subrange(q, tokens.len() as int),
        Parsed::Done(Err(m)) => r matches Err(ParseError::Reason(x)) && x@ == m,
    }
}

} // verus!
