//! Immutable singly linked cons lists of S-expressions.
use vstd::prelude::*;
use crate::symbolic_expression::{SExpression, SexpV};
use crate::primitives::Cell;
use crate::symbolic_expression::{printed, print_items};
use crate::text::append_text;
use crate::errors::result_view;
use crate::interpreter::{Environment, EVAL_FUEL};
use crate::primitives::FloatArith;
use crate::semantics::{eval_list, extends_log, follows, HostOracle, Outcome};

verus! {

#[derive(Debug)]
pub struct Pair {
    pub car: Box<SExpression>,
    pub cdr: Link,
}

#[derive(Debug)]
pub enum Link {
    Data(Box<Pair>),
    Nil,
}

impl Link {
    pub proof fn lemma_unfold(&self)
        ensures
            self is Nil ==> self.elems().len() == 0,
            self matches Link::Data(p) ==> self.elems() == seq![(*p.car)@] + p.cdr.elems()
                && self.elems().len() == 1 + p.cdr.elems().len()
                && self.elems()[0] == (*p.car)@
                && self.elems().subrange(1, self.elems().len() as int) == p.cdr.elems(),
    {
        if let Link::Data(p) = self {
            assert(self.elems() == seq![(*p.car)@] + p.cdr.elems());
            assert(self.elems().subrange(1, self.elems().len() as int) =~= p.cdr.elems());
        }
    }

    pub fn copy(&self) -> (r: Link)
        ensures
            r.elems() == self.elems(),
        decreases self,
    {
        match self {
            Link::Nil => Link::Nil,
            Link::Data(p) => Link::Data(
                Box::new(Pair { car: Box::new((*p.car).copy()), cdr: p.cdr.copy() }),
            ),
        }
    }

    /// The elements of the chain, front first.
    pub open spec fn elems(&self) -> Seq<SexpV>
        decreases self,
    {
        match self {
            Link::Nil => Seq::empty(),
            Link::Data(p) => seq![(*p.car).view()] + p.cdr.elems(),
        }
    }
}

impl Link {
    /// Whether the chain has exactly `n` elements.
    pub fn has_len(&self, n: usize) -> (r: bool)
        ensures
            r == (self.elems().len() == n),
        decreases self,
    {
        proof {
            self.lemma_unfold();
        }
        match self {
            Link::Nil => n == 0,
            Link::Data(p) => n > 0 && p.cdr.has_len(n - 1),
        }
    }

    /// Whether the chain has at least `n` elements.
    pub fn has_at_least(&self, n: usize) -> (r: bool)
        ensures
            r == (self.elems().len() >= n),
        decreases self,
    {
        proof {
            self.lemma_unfold();
        }
        if n == 0 {
            return true;
        }
        match self {
            Link::Nil => false,
            Link::Data(p) => p.cdr.has_at_least(n - 1),
        }
    }

    /// The element at position `i`.
    pub fn nth(&self, i: usize) -> (r: &SExpression)
        requires
            i < self.elems().len(),
        ensures
            r@ == self.elems()[i as int],
        decreases self,
    {
        proof {
            self.lemma_unfold();
        }
        match self {
            Link::Nil => {
                assert(false);
                self.nth(i)
            },
            Link::Data(p) => {
                if i == 0 {
                    &p.car
                } else {
                    proof {
                        p.cdr.lemma_unfold();
                    }
                    p.cdr.nth(i - 1)
                }
            },
        }
    }

    /// The chain without its first element (the empty chain stays empty).
    pub fn tail(&self) -> (r: &Link)
        ensures
            self.elems().len() > 0 ==> r.elems() == self.elems().subrange(1, self.elems().len() as int),
            self.elems().len() == 0 ==> r.elems().len() == 0,
    {
        proof {
            self.lemma_unfold();
        }
        match self {
            Link::Nil => self,
            Link::Data(p) => &p.cdr,
        }
    }
}

#[derive(Debug)]
pub struct List {
    pub head: Link,
}

impl View for List {
    type V = Seq<SexpV>;

    open spec fn view(&self) -> Seq<SexpV> {
        self.head.elems()
    }
}


/// Prepends `object` to `list`.
pub fn cons(object: SExpression, list: Link) -> (r: Link)
    ensures
        r.elems() == seq![object@] + list.elems(),
{
    Link::Data(Box::new(Pair { car: Box::new(object), cdr: list }))
}

impl List {
    pub fn is_empty(&self) -> (r: bool)
        ensures
            r == (self@.len() == 0),
    {
        proof {
            self.head.lemma_unfold();
        }
        match &self.head {
            Link::Nil => true,
            Link::Data(_) => false,
        }
    }

    /// The head element; `Null` for the empty list.
    pub fn first(&self) -> (r: Box<SExpression>)
        ensures
            self@.len() == 0 ==> r@ == SexpV::Null,
            self@.len() > 0 ==> r@ == self@[0],
    {
        match &self.head {
            Link::Nil => Box::new(SExpression::Null),
            Link::Data(pair) => Box::new((*pair.car).copy()),
        }
    }

    /// The list without its head; the empty list stays empty.
    pub fn rest(&self) -> (r: List)
        ensures
            self@.len() == 0 ==> r@.len() == 0,
            self@.len() > 0 ==> r@ == self@.subrange(1, self@.len() as int),
    {
        match &self.head {
            Link::Nil => List { head: Link::Nil },
            Link::Data(pair) => {
                assert(self.head.elems() == seq![(*pair.car)@] + pair.cdr.elems());
                assert(self@.subrange(1, self@.len() as int) =~= pair.cdr.elems());
                List { head: pair.cdr.copy() }
            },
        }
    }

    pub fn make_from_cells(objects: Vec<Cell>) -> (r: List)
        ensures
            r@ == objects@.map_values(|c: Cell| SexpV::Cell(c@)),
    {
        let ghost target = objects@.map_values(|c: Cell| SexpV::Cell(c@));
        let mut head = Link::Nil;
        let mut index: usize = objects.len();
        while index > 0
            invariant
                index <= objects@.len(),
                target == objects@.map_values(|c: Cell| SexpV::Cell(c@)),
                head.elems() == target.subrange(index as int, objects@.len() as int),
            decreases index,
        {
            index = index - 1;
            head = cons(SExpression::Cell(objects[index].copy()), head);
            assert(head.elems() =~= target.subrange(index as int, objects@.len() as int));
        }
        assert(target.subrange(0, objects@.len() as int) =~= target);
        List { head }
    }

    pub fn make_from_sexps(exps: Vec<SExpression>) -> (r: List)
        ensures
            r@ == exps@.map_values(|e: SExpression| e@),
    {
        let ghost target = exps@.map_values(|e: SExpression| e@);
        let mut head = Link::Nil;
        let mut index: usize = exps.len();
        while index > 0
            invariant
                index <= exps@.len(),
                target == exps@.map_values(|e: SExpression| e@),
                head.elems() == target.subrange(index as int, exps@.len() as int),
            decreases index,
        {
            index = index - 1;
            head = cons(exps[index].copy(), head);
            assert(head.elems() =~= target.subrange(index as int, exps@.len() as int));
        }
        assert(target.subrange(0, exps@.len() as int) =~= target);
        List { head }
    }

    /// Scheme `cons`: a list second argument gets `exp1` prepended; anything
    /// else makes the two-element list `(exp1 exp2)`.
    pub fn construct_list(exp1: SExpression, exp2: SExpression) -> (r: List)
        ensures
            r@ == (match exp2@ {
                SexpV::List(xs) => seq![exp1@] + xs,
                other => seq![exp1@, other],
            }),
    {
        let new_link = match exp2 {
            SExpression::List(list) => cons(exp1, list.head),
            other => {
                let end_link = cons(other, Link::Nil);
                let r = cons(exp1, end_link);
                assert(r.elems() =~= seq![exp1@, other@]);
                r
            },
        };
        List { head: new_link }
    }

    /// Evaluates the list as an application: its head says what is applied
    /// to the rest.
    pub fn evaluate<F: FloatArith>(&self, envr: &mut Environment<F>) -> (r: Result<SExpression, String>)
        requires
            old(envr).wf(),
        ensures
            final(envr).wf(),
            final(envr).depth() == old(envr).depth(),
            extends_log(final(envr).answers(), old(envr).answers()),
            forall|orc: HostOracle| #[trigger] follows(orc, final(envr).answers()) ==> eval_list(old(envr).store(), self@, EVAL_FUEL as nat, orc) == Outcome::Done(final(envr).store(), result_view(r)),
    {
        envr.evaluate_link(&self.head, EVAL_FUEL)
    }

    pub fn print(&self) -> (r: String)
        ensures
            r@ == printed(SexpV::List(self@)),
    {
        let mut s = String::new();
        append_text(&mut s, "(");
        print_items(&self.head, &mut s);
        append_text(&mut s, ")");
        assert(s@ =~= printed(SexpV::List(self@)));
        s
    }
}

} // verus!
