//! S-expressions: an atom, a list, or null.
use vstd::prelude::*;
use crate::list::{List, Link};
use crate::text::append_text;
use crate::errors::{err_text, fixed};
use crate::semantics::{as_number, truth};
use crate::primitives::{Cell, CellV, cell_printed};

verus! {

#[derive(Debug)]
pub enum SExpression {
    List(List),
    Cell(Cell),
    Null,
}

/// The mathematical value of an [`SExpression`]: a list is the sequence of
/// its elements.
pub enum SexpV {
    List(Seq<SexpV>),
    Cell(CellV),
    Null,
}

impl View for SExpression {
    type V = SexpV;

    open spec fn view(&self) -> SexpV
        decreases self,
    {
        match self {
            SExpression::List(l) => SexpV::List(l.head.elems()),
            SExpression::Cell(c) => SexpV::Cell(c.view()),
            SExpression::Null => SexpV::Null,
        }
    }
}


/// The printed form of an S-expression: lists as their space-separated
/// elements inside parentheses, null as `Null`.
pub open spec fn printed(e: SexpV) -> Seq<char>
    decreases e,
{
    match e {
        SexpV::Null => "Null"@,
        SexpV::Cell(c) => cell_printed(c),
        SexpV::List(xs) => "("@ + items_printed(xs) + ")"@,
    }
}

/// The printed forms of `xs`, separated by single spaces.
pub open spec fn items_printed(xs: Seq<SexpV>) -> Seq<char>
    decreases xs,
{
    if xs.len() == 0 {
        Seq::empty()
    } else if xs.len() == 1 {
        printed(xs[0])
    } else {
        printed(xs[0]) + " "@ + items_printed(xs.subrange(1, xs.len() as int))
    }
}

impl SExpression {
    pub fn copy(&self) -> (r: SExpression)
        ensures
            r@ == self@,
        decreases self,
    {
        match self {
            SExpression::List(l) => SExpression::List(List { head: l.head.copy() }),
            SExpression::Cell(c) => SExpression::Cell(c.copy()),
            SExpression::Null => SExpression::Null,
        }
    }

    /// Appends the printed form to `s`.
    pub fn print_into(&self, s: &mut String)
        ensures
            final(s)@ == old(s)@ + printed(self@),
        decreases self,
    {
        match self {
            SExpression::Null => append_text(s, "Null"),
            SExpression::Cell(c) => c.print_into(s),
            SExpression::List(l) => {
                append_text(s, "(");
                print_items(&l.head, s);
                append_text(s, ")");
                assert(final(s)@ =~= old(s)@ + printed(self@));
            },
        }
    }

    /// The number cell this expression is, if it is one.
    pub fn as_number(self) -> (r: Result<Cell, String>)
        ensures
            as_number(self@) matches Ok(c) ==> r is Ok && r->Ok_0@ == c,
            as_number(self@) matches Err(m) ==> r is Err && err_text(r) == m,
    {
        match self {
            SExpression::Cell(cell) => cell.eval_as_number(),
            _ => Err(fixed("Not a number type!")),
        }
    }

    /// The truth value of this expression as a boolean cell.
    pub fn as_bool(self) -> (r: Result<Cell, String>)
        ensures
            truth(self@) matches Ok(b) ==> r is Ok && r->Ok_0@ == CellV::Bool(b),
            truth(self@) matches Err(m) ==> r is Err && err_text(r) == m,
    {
        match self {
            SExpression::Cell(cell) => cell.eval_as_bool(),
            _ => Err(fixed("Not a boolean type!")),
        }
    }

    /// The truth value of this expression.
    pub fn as_rust_bool(self) -> (r: Result<bool, String>)
        ensures
            truth(self@) matches Ok(b) ==> r == Ok::<bool, String>(b),
            truth(self@) matches Err(m) ==> r is Err && err_text(r) == m,
    {
        match self.as_bool() {
            Ok(Cell::Bool(truth)) => Ok(truth),
            Ok(_) => Err(fixed("Not a boolean type!")),
            Err(m) => Err(m),
        }
    }

    pub fn print(&self) -> (r: String)
        ensures
            r@ == printed(self@),
    {
        let mut s = String::new();
        self.print_into(&mut s);
        assert(s@ =~= printed(self@));
        s
    }
}

/// Appends the printed elements of the chain, space-separated, to `s`.
pub fn print_items(link: &Link, s: &mut String)
    ensures
        final(s)@ == old(s)@ + items_printed(link.elems()),
    decreases link,
{
    match link {
        Link::Nil => {
            assert(final(s)@ =~= old(s)@ + items_printed(link.elems()));
        },
        Link::Data(p) => {
            proof {
                link.lemma_unfold();
                p.cdr.lemma_unfold();
            }
            (*p.car).print_into(s);
            match &p.cdr {
                Link::Nil => {
                    assert(link.elems().len() == 1);
                    assert(final(s)@ =~= old(s)@ + items_printed(link.elems()));
                },
                Link::Data(_) => {
                    append_text(s, " ");
                    print_items(&p.cdr, s);
                    assert(final(s)@ =~= old(s)@ + items_printed(link.elems()));
                },
            }
        },
    }
}

/// Appends the printed forms of `vs[i..]`, space-separated, to `s`.
pub fn print_items_from(vs: &Vec<SExpression>, i: usize, s: &mut String)
    requires
        i <= vs@.len(),
    ensures
        final(s)@ == old(s)@ + items_printed(
            vs@.map_values(|e: SExpression| e@).subrange(i as int, vs@.len() as int),
        ),
    decreases vs@.len() - i,
{
    let ghost xs = vs@.map_values(|e: SExpression| e@).subrange(i as int, vs@.len() as int);
    if i == vs.len() {
        assert(xs.len() == 0);
        assert(final(s)@ =~= old(s)@ + items_printed(xs));
        return;
    }
    assert(xs[0] == vs@[i as int]@);
    vs[i].print_into(s);
    if i + 1 < vs.len() {
        append_text(s, " ");
        print_items_from(vs, i + 1, s);
        assert(xs.subrange(1, xs.len() as int) =~= vs@.map_values(|e: SExpression| e@).subrange(
            i + 1,
            vs@.len() as int,
        ));
        assert(final(s)@ =~= old(s)@ + items_printed(xs));
    } else {
        assert(xs.len() == 1);
        assert(final(s)@ =~= old(s)@ + items_printed(xs));
    }
}

} // verus!
