//! Printing an S-expression and reading the text back.
use vstd::prelude::*;
use crate::parser::{
    atom_value, next_lexeme, parse_at, read_list, run_end, scan, skip_blank, spaces_end, symbol_char,
    Lexeme, Parsed,
};
use crate::primitives::{cell_printed, reserved_cells, reserved_from, CellV};
use crate::parser::{digits_value, int_literal, is_digit, unsigned_part};
use crate::semantics::{in_i64, HostOracle};
use crate::text::{digit_char, int_text, nat_text};
use crate::semantics::tail;
use crate::symbolic_expression::{items_printed, printed, SexpV};

verus! {

/// An atom that is printed as a run of symbol characters and reads back as
/// itself.
pub open spec fn plain_atom(c: CellV) -> bool {
    let t = cell_printed(c);
    &&& t.len() > 0
    &&& forall|k: int| 0 <= k < t.len() ==> symbol_char(#[trigger] t[k])
    &&& atom_value(t) == Some(SexpV::Cell(c))
}

/// Expressions made of plain atoms and lists of them.
pub open spec fn plain(e: SexpV) -> bool
    decreases e,
{
    match e {
        SexpV::Cell(c) => plain_atom(c),
        SexpV::List(xs) => plain_items(xs),
        SexpV::Null => false,
    }
}

pub open spec fn plain_items(xs: Seq<SexpV>) -> bool
    decreases xs,
{
    if xs.len() == 0 {
        true
    } else {
        plain(xs[0]) && plain_items(xs.subrange(1, xs.len() as int))
    }
}

/// The lexemes an expression is written with.
pub open spec fn lexemes(e: SexpV) -> Seq<Lexeme>
    decreases e,
{
    match e {
        SexpV::Cell(c) => seq![Lexeme::Atom(cell_printed(c))],
        SexpV::List(xs) => seq![Lexeme::Open] + lexemes_of(xs) + seq![Lexeme::Close],
        SexpV::Null => Seq::empty(),
    }
}

pub open spec fn lexemes_of(xs: Seq<SexpV>) -> Seq<Lexeme>
    decreases xs,
{
    if xs.len() == 0 {
        Seq::empty()
    } else {
        lexemes(xs[0]) + lexemes_of(xs.subrange(1, xs.len() as int))
    }
}

pub open spec fn prepend(ls: Seq<Lexeme>, r: Result<Seq<Lexeme>, Seq<char>>) -> Result<Seq<Lexeme>, Seq<char>> {
    match r {
        Ok(rest) => Ok(ls + rest),
        Err(m) => Err(m),
    }
}

pub open spec fn occurs_at(cs: Seq<char>, t: Seq<char>, i: int) -> bool {
    0 <= i && i + t.len() <= cs.len() && cs.subrange(i, i + t.len()) == t
}

/// Position `j` ends a word: the end, a space or a closing parenthesis.
pub open spec fn ends_word(cs: Seq<char>, j: int) -> bool {
    j == cs.len() || (0 <= j < cs.len() && (cs[j] == ' ' || cs[j] == ')'))
}

proof fn lemma_occurs_sub(cs: Seq<char>, t: Seq<char>, i: int, a: int, b: int)
    requires
        occurs_at(cs, t, i),
        0 <= a <= b <= t.len(),
    ensures
        occurs_at(cs, t.subrange(a, b), i + a),
        forall|k: int| a <= k < b ==> cs[i + k] == #[trigger] t[k],
{
    assert forall|k: int| a <= k < b implies cs[i + k] == #[trigger] t[k] by {
        assert(cs.subrange(i, i + t.len())[k] == cs[i + k]);
    }
    assert(cs.subrange(i + a, i + b) =~= t.subrange(a, b));
}

proof fn lemma_run_end_ge(cs: Seq<char>, i: int)
    ensures
        run_end(cs, i) >= i,
    decreases cs.len() - i,
{
    if i < cs.len() && symbol_char(cs[i]) {
        lemma_run_end_ge(cs, i + 1);
    }
}

proof fn lemma_run_end(cs: Seq<char>, i: int, end: int)
    requires
        0 <= i <= end <= cs.len(),
        forall|k: int| i <= k < end ==> symbol_char(#[trigger] cs[k]),
        end == cs.len() || !symbol_char(cs[end]),
    ensures
        run_end(cs, i) == end,
    decreases end - i,
{
    if i < end {
        lemma_run_end(cs, i + 1, end);
    }
}

proof fn lemma_printed_start(e: SexpV)
    requires
        plain(e),
    ensures
        printed(e).len() > 0,
        printed(e)[0] == '(' || symbol_char(printed(e)[0]),
        lexemes(e).len() > 0,
        lexemes(e)[0] is Open || lexemes(e)[0] is Atom,
{
    match e {
        SexpV::List(xs) => {
            assert(printed(e) =~= seq!['('] + items_printed(xs) + seq![')']) by {
                reveal_strlit("(");
                reveal_strlit(")");
            }
        },
        _ => {},
    }
}

/// A space before the start of an expression changes nothing in scanning.
proof fn lemma_scan_space(cs: Seq<char>, k: int)
    requires
        0 <= k,
        k + 1 < cs.len(),
        cs[k] == ' ',
        cs[k + 1] == '(' || symbol_char(cs[k + 1]),
    ensures
        scan(cs, k) == scan(cs, k + 1),
{
    assert(spaces_end(cs, k + 1) == k + 1);
    assert(spaces_end(cs, k) == k + 1);
    assert(skip_blank(cs, k) == k + 1);
    assert(skip_blank(cs, k + 1) == k + 1);
    assert(next_lexeme(cs, k) == next_lexeme(cs, k + 1));
    if cs[k + 1] != '(' {
        lemma_run_end_ge(cs, k + 2);
        assert(run_end(cs, k + 1) >= k + 2);
    }
}

proof fn lemma_scan_expr(cs: Seq<char>, e: SexpV, i: int)
    requires
        plain(e),
        occurs_at(cs, printed(e), i),
        ends_word(cs, i + printed(e).len()),
    ensures
        scan(cs, i) == prepend(lexemes(e), scan(cs, i + printed(e).len())),
    decreases e, 1int,
{
    let t = printed(e);
    lemma_printed_start(e);
    lemma_occurs_sub(cs, t, i, 0, t.len() as int);
    assert(cs[i] == t[0]);
    match e {
        SexpV::Cell(c) => {
            let end = i + t.len();
            assert forall|k: int| i <= k < end implies symbol_char(#[trigger] cs[k]) by {
                assert(cs[k] == t[k - i]);
            }
            lemma_run_end(cs, i, end);
            assert(cs.subrange(i, end) == t);
            assert(next_lexeme(cs, i) == Ok::<(Lexeme, int), Seq<char>>((Lexeme::Atom(t), end)));
            assert(seq![Lexeme::Atom(t)] + Seq::<Lexeme>::empty() =~= seq![Lexeme::Atom(t)]);
            match scan(cs, end) {
                Ok(rest) => {},
                Err(m) => {},
            }
        },
        SexpV::List(xs) => {
            let items = items_printed(xs);
            assert(t =~= seq!['('] + items + seq![')']) by {
                reveal_strlit("(");
                reveal_strlit(")");
            }
            let k = i + 1 + items.len();
            assert(cs[k] == t[items.len() + 1int]);
            lemma_occurs_sub(cs, t, i, 1, 1 + items.len() as int);
            assert(t.subrange(1, 1 + items.len() as int) =~= items);
            assert(next_lexeme(cs, i) == Ok::<(Lexeme, int), Seq<char>>((Lexeme::Open, i + 1)));
            lemma_scan_items(cs, xs, i + 1);
            assert(next_lexeme(cs, k) == Ok::<(Lexeme, int), Seq<char>>((Lexeme::Close, k + 1)));
            match scan(cs, k + 1) {
                Ok(rest) => {
                    assert(seq![Lexeme::Open] + (lexemes_of(xs) + (seq![Lexeme::Close] + rest))
                        =~= lexemes(e) + rest);
                },
                Err(m) => {},
            }
        },
        SexpV::Null => {},
    }
}

proof fn lemma_scan_items(cs: Seq<char>, xs: Seq<SexpV>, i: int)
    requires
        plain_items(xs),
        occurs_at(cs, items_printed(xs), i),
        i + items_printed(xs).len() < cs.len(),
        cs[i + items_printed(xs).len()] == ')',
    ensures
        scan(cs, i) == prepend(lexemes_of(xs), scan(cs, i + items_printed(xs).len())),
    decreases xs, 0int,
{
    let items = items_printed(xs);
    if xs.len() == 0 {
        match scan(cs, i) {
            Ok(rest) => {
                assert(Seq::<Lexeme>::empty() + rest =~= rest);
            },
            Err(m) => {},
        }
    } else {
        let x = xs[0];
        let px = printed(x);
        let rest = xs.subrange(1, xs.len() as int);
        lemma_printed_start(x);
        if xs.len() == 1 {
            lemma_occurs_sub(cs, items, i, 0, px.len() as int);
            assert(items.subrange(0, px.len() as int) =~= px);
            assert(items == px);
            assert(lexemes_of(rest) =~= Seq::<Lexeme>::empty());
            lemma_scan_expr(cs, x, i);
            match scan(cs, i + px.len()) {
                Ok(r) => {
                    assert(lexemes_of(xs) + r =~= lexemes(x) + r);
                },
                Err(m) => {},
            }
        } else {
            let pr = items_printed(rest);
            assert(items =~= px + seq![' '] + pr) by {
                reveal_strlit(" ");
            }
            let k = i + px.len();
            lemma_occurs_sub(cs, items, i, 0, px.len() as int);
            assert(items.subrange(0, px.len() as int) =~= px);
            lemma_occurs_sub(cs, items, i, 0, items.len() as int);
            assert(items[px.len() as int] == ' ');
            assert(cs[k] == ' ');
            lemma_scan_expr(cs, x, i);
            lemma_occurs_sub(cs, items, i, px.len() + 1int, items.len() as int);
            assert(items.subrange(px.len() + 1int, items.len() as int) =~= pr);
            lemma_items_start(rest);
            assert(pr[0] == cs[k + 1]);
            lemma_scan_space(cs, k);
            lemma_scan_items(cs, rest, k + 1);
            match scan(cs, i + items.len()) {
                Ok(r) => {
                    assert(lexemes_of(xs) + r =~= lexemes(x) + (lexemes_of(rest) + r));
                },
                Err(m) => {},
            }
        }
    }
}

proof fn lemma_items_start(xs: Seq<SexpV>)
    requires
        plain_items(xs),
        xs.len() > 0,
    ensures
        items_printed(xs).len() > 0,
        items_printed(xs)[0] == printed(xs[0])[0],
        items_printed(xs)[0] == '(' || symbol_char(items_printed(xs)[0]),
{
    lemma_printed_start(xs[0]);
}

proof fn lemma_parse_expr(ls: Seq<Lexeme>, e: SexpV, p: int, orc: HostOracle)
    requires
        plain(e),
        0 <= p,
        p + lexemes(e).len() <= ls.len(),
        ls.subrange(p, p + lexemes(e).len()) == lexemes(e),
    ensures
        parse_at(ls, p, orc) == Parsed::Done(Ok((e, p + lexemes(e).len()))),
    decreases e, 1int,
{
    assert(ls[p] == lexemes(e)[0]);
    match e {
        SexpV::Cell(c) => {},
        SexpV::List(xs) => {
            let inner = lexemes_of(xs);
            assert(ls.subrange(p + 1, p + 1 + inner.len() + 1) =~= inner + seq![Lexeme::Close]) by {
                assert(ls.subrange(p + 1, p + 1 + inner.len() + 1) =~= lexemes(e).subrange(1, lexemes(e).len() as int));
            }
            lemma_parse_items(ls, xs, p + 1, Seq::empty(), orc);
            assert(Seq::<SexpV>::empty() + xs =~= xs);
        },
        SexpV::Null => {},
    }
}

proof fn lemma_parse_items(ls: Seq<Lexeme>, xs: Seq<SexpV>, p: int, acc: Seq<SexpV>, orc: HostOracle)
    requires
        plain_items(xs),
        0 <= p,
        p + lexemes_of(xs).len() + 1 <= ls.len(),
        ls.subrange(p, p + lexemes_of(xs).len() + 1) == lexemes_of(xs) + seq![Lexeme::Close],
    ensures
        read_list(ls, p, acc, orc) == Parsed::Done(Ok((SexpV::List(acc + xs), p + lexemes_of(xs).len() + 1))),
    decreases xs, 0int,
{
    let lx = lexemes_of(xs);
    if xs.len() == 0 {
        assert(ls[p] == (lx + seq![Lexeme::Close])[0]);
        assert(acc + xs =~= acc);
    } else {
        let x = xs[0];
        let rest = xs.subrange(1, xs.len() as int);
        let l0 = lexemes(x);
        lemma_printed_start(x);
        assert(lx == l0 + lexemes_of(rest));
        assert(ls[p] == ls.subrange(p, p + lx.len() + 1)[0]);
        assert(ls[p] == l0[0]);
        assert(ls.subrange(p, p + l0.len()) =~= l0) by {
            assert(ls.subrange(p, p + l0.len()) =~= (lx + seq![Lexeme::Close]).subrange(0, l0.len() as int));
        }
        lemma_parse_expr(ls, x, p, orc);
        let q = p + l0.len();
        assert(ls.subrange(q, q + lexemes_of(rest).len() + 1) =~= lexemes_of(rest) + seq![Lexeme::Close]) by {
            assert(ls.subrange(q, q + lexemes_of(rest).len() + 1) =~= (lx + seq![Lexeme::Close]).subrange(
                l0.len() as int,
                lx.len() + 1int,
            ));
        }
        lemma_parse_items(ls, rest, q, acc.push(x), orc);
        assert(acc.push(x) + rest =~= acc + xs);
    }
}

/// Reading back the printed form of an expression made of plain atoms
/// (integers, and symbols whose names read as symbols) gives the same
/// expression, using all of the text.
pub proof fn law_print_read_round_trip(e: SexpV, orc: HostOracle)
    requires
        plain(e),
    ensures
        scan(printed(e), 0) == Ok::<Seq<Lexeme>, Seq<char>>(lexemes(e)),
        parse_at(lexemes(e), 0, orc) == Parsed::Done(Ok((e, lexemes(e).len() as int))),
{
    let cs = printed(e);
    assert(cs.subrange(0, cs.len() as int) =~= cs);
    lemma_scan_expr(cs, e, 0);
    assert(skip_blank(cs, cs.len() as int) == cs.len());
    assert(scan(cs, cs.len() as int) == Ok::<Seq<Lexeme>, Seq<char>>(Seq::empty()));
    assert(lexemes(e) + Seq::<Lexeme>::empty() =~= lexemes(e));
    assert(lexemes(e).subrange(0, lexemes(e).len() as int) =~= lexemes(e));
    lemma_parse_expr(lexemes(e), e, 0, orc);
}

/// No reserved lexeme ends in a digit.
proof fn lemma_reserved_last_not_digit()
    ensures
        forall|k: int| 0 <= k < reserved_cells().len() ==> {
            let t = cell_printed(#[trigger] reserved_cells()[k]);
            t.len() > 0 && !is_digit(t.last())
        },
{
    assert forall|k: int| 0 <= k < reserved_cells().len() implies {
        let t = cell_printed(#[trigger] reserved_cells()[k]);
        t.len() > 0 && !is_digit(t.last())
    } by {
        if k == 0 {
            reveal_strlit("char?");
        }
        if k == 1 {
            reveal_strlit("number?");
        }
        if k == 2 {
            reveal_strlit("list?");
        }
        if k == 3 {
            reveal_strlit("null?");
        }
        if k == 4 {
            reveal_strlit("boolean?");
        }
        if k == 5 {
            reveal_strlit("exact?");
        }
        if k == 6 {
            reveal_strlit("string?");
        }
        if k == 7 {
            reveal_strlit("number->string");
        }
        if k == 8 {
            reveal_strlit("string->number");
        }
        if k == 9 {
            reveal_strlit("symbol->string");
        }
        if k == 10 {
            reveal_strlit("string->symbol");
        }
        if k == 11 {
            reveal_strlit("char->number");
        }
        if k == 12 {
            reveal_strlit("number->char");
        }
        if k == 13 {
            reveal_strlit("map");
        }
        if k == 14 {
            reveal_strlit("filter");
        }
        if k == 15 {
            reveal_strlit("count");
        }
        if k == 16 {
            reveal_strlit("cons");
        }
        if k == 17 {
            reveal_strlit("list");
        }
        if k == 18 {
            reveal_strlit("car");
        }
        if k == 19 {
            reveal_strlit("cdr");
        }
        if k == 20 {
            reveal_strlit("first");
        }
        if k == 21 {
            reveal_strlit("rest");
        }
        if k == 22 {
            reveal_strlit("append");
        }
        if k == 23 {
            reveal_strlit("+");
        }
        if k == 24 {
            reveal_strlit("-");
        }
        if k == 25 {
            reveal_strlit("*");
        }
        if k == 26 {
            reveal_strlit("/");
        }
        if k == 27 {
            reveal_strlit("%");
        }
        if k == 28 {
            reveal_strlit("<");
        }
        if k == 29 {
            reveal_strlit(">");
        }
        if k == 30 {
            reveal_strlit("=");
        }
        if k == 31 {
            reveal_strlit(">=");
        }
        if k == 32 {
            reveal_strlit("<=");
        }
        if k == 33 {
            reveal_strlit("or");
        }
        if k == 34 {
            reveal_strlit("and");
        }
        if k == 35 {
            reveal_strlit("not");
        }
        if k == 36 {
            reveal_strlit("xor");
        }
        if k == 37 {
            reveal_strlit("define");
        }
        if k == 38 {
            reveal_strlit("let");
        }
        if k == 39 {
            reveal_strlit("setcar!");
        }
        if k == 40 {
            reveal_strlit("set!");
        }
        if k == 41 {
            reveal_strlit("cond");
        }
        if k == 42 {
            reveal_strlit("if");
        }
        if k == 43 {
            reveal_strlit("do");
        }
        if k == 44 {
            reveal_strlit("while");
        }
        if k == 45 {
            reveal_strlit("when");
        }
        if k == 46 {
            reveal_strlit("unless");
        }
        if k == 47 {
            reveal_strlit("break");
        }
        if k == 48 {
            reveal_strlit("continue");
        }
        if k == 49 {
            reveal_strlit("begin");
        }
        if k == 50 {
            reveal_strlit("env");
        }
        if k == 51 {
            reveal_strlit("exit");
        }
        if k == 52 {
            reveal_strlit("input");
        }
        if k == 53 {
            reveal_strlit("output");
        }
        if k == 54 {
            reveal_strlit("output-line");
        }
    }
}

proof fn lemma_not_reserved(a: Seq<char>, k: int)
    requires
        a.len() > 0,
        is_digit(a.last()),
        0 <= k,
    ensures
        reserved_from(a, k) is None,
    decreases reserved_cells().len() - k,
{
    lemma_reserved_last_not_digit();
    if k < reserved_cells().len() {
        lemma_not_reserved(a, k + 1);
    }
}

proof fn lemma_nat_text(n: nat)
    ensures
        nat_text(n).len() > 0,
        forall|k: int| 0 <= k < nat_text(n).len() ==> is_digit(#[trigger] nat_text(n)[k]),
        digits_value(nat_text(n)) == n,
    decreases n,
{
    let d = n % 10;
    assert(is_digit(digit_char(d)) && digit_char(d) as int - '0' as int == d) by {
        assert(d < 10);
    }
    if n >= 10 {
        lemma_nat_text(n / 10);
        let t = nat_text(n);
        assert(t.drop_last() =~= nat_text(n / 10));
        assert(t.last() == digit_char(d));
        assert(digits_value(t) == digits_value(nat_text(n / 10)) * 10 + (digit_char(d) as int - '0' as int));
        assert((n / 10) * 10 + d == n);
        assert forall|k: int| 0 <= k < t.len() implies is_digit(#[trigger] t[k]) by {
            if k < t.len() - 1 {
                assert(t[k] == nat_text(n / 10)[k]);
            }
        }
    } else {
        assert(nat_text(n).drop_last() =~= Seq::<char>::empty());
        assert(nat_text(n).last() == digit_char(d));
        assert(digits_value(nat_text(n)) == digits_value(Seq::<char>::empty()) * 10 + (digit_char(d) as int - '0' as int));
    }
}

/// Every 64-bit integer is printed as a run of symbol characters that reads
/// back as the same integer.
pub proof fn lemma_int_plain(i: int)
    requires
        in_i64(i),
    ensures
        plain_atom(CellV::Int(i)),
{
    let t = int_text(i);
    let m: nat = if i < 0 { (-i) as nat } else { i as nat };
    lemma_nat_text(m);
    let ds = nat_text(m);
    if i < 0 {
        assert(t[0] == '-');
        assert(unsigned_part(t) =~= ds);
        assert forall|k: int| 0 <= k < t.len() implies symbol_char(#[trigger] t[k]) by {
            if k > 0 {
                assert(t[k] == ds[k - 1]);
            }
        }
        assert(t.last() == ds.last());
    } else {
        assert(is_digit(ds[0]));
        assert(unsigned_part(t) =~= ds);
        assert forall|k: int| 0 <= k < t.len() implies symbol_char(#[trigger] t[k]) by {}
    }
    assert(is_digit(ds.last()));
    lemma_not_reserved(t, 0);
    assert(int_literal(t) == Some(i));
}

} // verus!
