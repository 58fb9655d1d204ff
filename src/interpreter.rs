//! The environment of scope frames and the evaluator.
use vstd::prelude::*;
use crate::errors::{err_text, fixed, message, prefixed, result_view, suffixed, msg_already_defined, msg_not_defined, msg_too_many, msg_undefined};
use crate::list::{Link, List};
use crate::builtins::{apply_core, is_implemented};
use crate::numeric::{arith_step, compare};
use crate::primitives::{Cell, CellV, FloatArith, LogicalOperator, NumericOperator, SpecialForm};
use crate::semantics::{
    and_chain, compare_with, extends_log, follows, step_with, HostAnswer, HostOracle, apply_function, apply_logical, apply_operator, arith_fold, bind_each,
    bind_params, compare_chain, eval, eval_define, eval_each, eval_if, eval_list, eval_set,
    eval_special, eval_while, extends, is_comparison, or_chain, tail, Outcome,
    assign, define, empty_store, last_index, lemma_assign_wf, lemma_define_wf, lemma_last_index,
    lemma_pop_frame_wf, lemma_push_frame_wf, lookup, start_below, Store, MAX_BINDINGS,
};
use crate::symbolic_expression::{items_printed, print_items_from, printed, SExpression, SexpV};
use crate::text::{append_text, int_text, push_int};

verus! {

broadcast use {crate::semantics::lemma_follows_prefix, crate::semantics::lemma_extends_trans};

/// The fuel the evaluation entry points start with.
pub const EVAL_FUEL: u64 = 0xFFFF_FFFF_FFFF_FFFF;

/// The values of a list of results, or the error text.
pub open spec fn values_view(r: Result<Vec<SExpression>, String>) -> Result<Seq<SexpV>, Seq<char>> {
    match r {
        Ok(v) => Ok(v@.map_values(|e: SExpression| e@)),
        Err(m) => Err(m@),
    }
}

/// The value of a cell result, or the error text.
pub open spec fn cell_result_view(r: Result<Cell, String>) -> Result<CellV, Seq<char>> {
    match r {
        Ok(c) => Ok(c@),
        Err(m) => Err(m@),
    }
}

/// One name bound to a value.
pub struct Binding {
    pub name: String,
    pub value: SExpression,
}

/// A chain of scope frames, root first, held as one sequence of bindings
/// and the position where each frame begins; plus the lines that `output`
/// wrote and the host's float arithmetic.
pub struct Environment<F> {
    bindings: Vec<Binding>,
    frame_starts: Vec<usize>,
    output: Vec<String>,
    arith: F,
    /// Every answer the host's float arithmetic has given, in order.
    log: Ghost<Seq<HostAnswer>>,
}

pub open spec fn binding_view(b: Binding) -> (Seq<char>, SexpV) {
    (b.name@, b.value@)
}

impl<F: FloatArith> Environment<F> {
    pub closed spec fn store(&self) -> Store {
        Store {
            binds: self.bindings@.map_values(|b: Binding| binding_view(b)),
            starts: self.frame_starts@.map_values(|s: usize| s as int),
            out: self.output@.map_values(|s: String| s@),
            asked: self.log@.len(),
        }
    }

    /// The host's answers so far, oldest first.
    pub closed spec fn answers(&self) -> Seq<HostAnswer> {
        self.log@
    }

    pub open spec fn wf(&self) -> bool {
        self.store().wf()
    }

    /// Number of frames.
    pub open spec fn depth(&self) -> nat {
        self.store().starts.len()
    }

    /// A root environment: one empty frame.
    pub fn new(arith: F) -> (r: Self)
        ensures
            r.wf(),
            r.store() == empty_store(),
    {
        let mut frame_starts: Vec<usize> = Vec::new();
        frame_starts.push(0);
        let r = Environment { bindings: Vec::new(), frame_starts, output: Vec::new(), arith, log: Ghost(Seq::empty()) };
        assert(r.store().binds =~= empty_store().binds);
        assert(r.store().starts =~= empty_store().starts);
        assert(r.store().out =~= empty_store().out);
        r
    }

    /// The float arithmetic this environment evaluates with.
    pub fn arith(&self) -> &F {
        &self.arith
    }

    /// Opens a new, empty innermost frame.
    pub fn make_child(&mut self)
        requires
            old(self).wf(),
        ensures
            final(self).answers() == old(self).answers(),
            final(self).wf(),
            final(self).store() == old(self).store().push_frame(),
    {
        let n = self.bindings.len();
        self.frame_starts.push(n);
        assert(self.store().starts =~= old(self).store().push_frame().starts);
        assert(self.store() == old(self).store().push_frame());
        proof {
            lemma_push_frame_wf(old(self).store());
        }
    }

    /// Closes the innermost frame, dropping its bindings.
    pub fn drop_child(&mut self)
        requires
            old(self).wf(),
            old(self).depth() > 1,
        ensures
            final(self).answers() == old(self).answers(),
            final(self).wf(),
            final(self).store() == old(self).store().pop_frame(),
    {
        let ghost st = old(self).store();
        let last = self.frame_starts.len() - 1;
        let start = self.frame_starts[last];
        assert(st.starts[last as int] == start as int);
        self.frame_starts.pop();
        self.bindings.truncate(start);
        assert(self.store().binds =~= st.pop_frame().binds);
        assert(self.store().starts =~= st.pop_frame().starts);
        proof {
            lemma_pop_frame_wf(st);
        }
    }

    /// The last position in `[lo, len)` whose binding has `name`.
    fn find_last(&self, name: &String, lo: usize) -> (r: Option<usize>)
        requires
            lo <= self.bindings@.len(),
        ensures
            r matches Some(i) ==> last_index(self.store().binds, name@, lo as int, self.bindings@.len() as int) == Some(i as int)
                && lo <= i < self.bindings@.len(),
            r is None ==> last_index(self.store().binds, name@, lo as int, self.bindings@.len() as int) is None,
    {
        let ghost binds = self.store().binds;
        proof {
            lemma_last_index(binds, name@, lo as int, self.bindings@.len() as int);
        }
        let mut i = self.bindings.len();
        while i > lo
            invariant
                lo <= i <= self.bindings@.len(),
                binds == self.store().binds,
                last_index(binds, name@, lo as int, self.bindings@.len() as int)
                    == last_index(binds, name@, lo as int, i as int),
            decreases i,
        {
            if self.bindings[i - 1].name == *name {
                return Some(i - 1);
            }
            i = i - 1;
        }
        None
    }

    /// The value bound to `s` in the nearest frame that defines it.
    pub fn get_definition_by_symbol(&self, s: String) -> (r: Result<SExpression, String>)
        ensures
            result_view(r) == (match lookup(self.store(), s@) {
                Some(v) => Ok(v),
                None => Err(msg_undefined(s@)),
            }),
    {
        match self.find_last(&s, 0) {
            Some(i) => Ok(self.bindings[i].value.copy()),
            None => Err(message("Symbol ", s.as_str(), " not defined.")),
        }
    }

    /// Binds `name` in the innermost frame; gives the binding's position in
    /// that frame. Fails when the frame already binds `name`.
    pub fn define(&mut self, name: String, value: SExpression) -> (r: Result<i32, String>)
        requires
            old(self).wf(),
        ensures
            final(self).answers() == old(self).answers(),
            final(self).wf(),
            match define(old(self).store(), name@, value@) {
                Ok(st) => final(self).store() == st && r == Ok::<i32, String>(
                    (old(self).store().binds.len() - old(self).store().top_start()) as i32,
                ),
                Err(m) => final(self).store() == old(self).store() && r is Err && err_text(r) == m,
            },
    {
        let ghost st = old(self).store();
        let top = self.frame_starts[self.frame_starts.len() - 1];
        assert(st.top_start() == top as int);
        if self.find_last(&name, top).is_some() {
            return Err(suffixed(name.as_str(), " already defined."));
        }
        let n = self.bindings.len();
        if n >= MAX_BINDINGS {
            return Err(fixed("Too many definitions"));
        }
        let number = (n - top) as i32;
        self.bindings.push(Binding { name, value });
        proof {
            lemma_define_wf(st, name@, value@);
        }
        assert(self.store().binds =~= st.binds.push((name@, value@)));
        assert(self.store().starts =~= st.starts);
        assert(self.store().out =~= st.out);
        Ok(number)
    }
}

impl<F: FloatArith> Environment<F> {
    /// The start of the innermost frame that holds position `i`.
    fn frame_start_of(&self, i: usize) -> (r: usize)
        ensures
            r as int == start_below(self.store().starts, i as int, self.store().starts.len() as int),
            r <= i,
    {
        let ghost starts = self.store().starts;
        let mut k = self.frame_starts.len();
        while k > 0
            invariant
                k <= self.frame_starts@.len(),
                starts == self.store().starts,
                start_below(starts, i as int, starts.len() as int) == start_below(starts, i as int, k as int),
            decreases k,
        {
            if self.frame_starts[k - 1] <= i {
                return self.frame_starts[k - 1];
            }
            k = k - 1;
        }
        0
    }

    /// Overwrites `name` in the nearest frame that binds it; gives the
    /// binding's position within that frame.
    fn assign(&mut self, name: &String, value: SExpression) -> (r: Result<usize, String>)
        requires
            old(self).wf(),
        ensures
            final(self).answers() == old(self).answers(),
            final(self).wf(),
            match assign(old(self).store(), name@, value@) {
                Ok((st, slot)) => final(self).store() == st && r is Ok && r->Ok_0 as int == slot
                    && r->Ok_0 <= MAX_BINDINGS,
                Err(m) => final(self).store() == old(self).store() && r is Err && err_text(r) == m,
            },
    {
        let ghost st = old(self).store();
        match self.find_last(name, 0) {
            None => Err(suffixed(name.as_str(), " not defined.")),
            Some(i) => {
                let start = self.frame_start_of(i);
                proof {
                    lemma_assign_wf(st, name@, value@);
                }
                self.bindings.set(i, Binding { name: name.clone(), value });
                assert(self.store().binds =~= st.binds.update(i as int, (name@, value@)));
                assert(self.store().starts =~= st.starts);
                assert(self.store().out =~= st.out);
                Ok(i - start)
            },
        }
    }

    /// One arithmetic step; a float result is recorded as the host's answer.
    fn host_step(&mut self, op: NumericOperator, a: &Cell, b: &Cell) -> (r: Result<Cell, String>)
        requires
            old(self).wf(),
            a@.is_number(),
            b@.is_number(),
            !(op is Modulo),
        ensures
            final(self).wf(),
            final(self).depth() == old(self).depth(),
            extends_log(final(self).answers(), old(self).answers()),
            forall|orc: HostOracle| #[trigger] follows(orc, final(self).answers()) ==> step_with(old(self).store(), orc, op, a@, b@)
                == (final(self).store(), cell_result_view(r)),
            r is Ok ==> r->Ok_0@.is_number(),
    {
        let ghost st = old(self).store();
        let r = arith_step(&self.arith, op, a, b);
        match (a, b) {
            (Cell::Int(_), Cell::Int(_)) => {
                assert(self.store() == st);
            },
            _ => {
                if let Ok(Cell::Flt(v)) = &r {
                    let ghost h = HostAnswer::Number(v.bits, v.text@);
                    self.log = Ghost(self.log@.push(h));
                    assert(self.store() == st.ask()) by {
                        assert(self.store().binds =~= st.binds);
                    }
                    assert forall|orc: HostOracle| #[trigger] follows(orc, self.answers()) implies step_with(st, orc, op, a@, b@)
                        == (self.store(), cell_result_view(r)) by {
                        assert(self.answers()[st.asked as int] == h);
                    }
                }
            },
        }
        r
    }

    /// One comparison; when a float takes part the result is recorded as
    /// the host's answer.
    fn host_compare(&mut self, op: LogicalOperator, a: &Cell, b: &Cell) -> (r: bool)
        requires
            old(self).wf(),
            a@.is_number(),
            b@.is_number(),
            is_comparison(op),
        ensures
            final(self).wf(),
            final(self).depth() == old(self).depth(),
            extends_log(final(self).answers(), old(self).answers()),
            forall|orc: HostOracle| #[trigger] follows(orc, final(self).answers()) ==> compare_with(old(self).store(), orc, op, a@, b@)
                == (final(self).store(), r),
    {
        let ghost st = old(self).store();
        let r = compare(&self.arith, op, a, b);
        match (a, b) {
            (Cell::Int(_), Cell::Int(_)) => {
                assert(self.store() == st);
            },
            _ => {
                let ghost h = HostAnswer::Truth(r);
                self.log = Ghost(self.log@.push(h));
                assert(self.store() == st.ask()) by {
                    assert(self.store().binds =~= st.binds);
                }
                assert forall|orc: HostOracle| #[trigger] follows(orc, self.answers()) implies compare_with(st, orc, op, a@, b@)
                    == (self.store(), r) by {
                    assert(self.answers()[st.asked as int] == h);
                }
            },
        }
        r
    }

    /// Evaluates `exp` with at most `fuel` nested list evaluations.
    pub fn evaluate_within(&mut self, exp: &SExpression, fuel: u64) -> (r: Result<SExpression, String>)
        requires
            old(self).wf(),
        ensures
            final(self).wf(),
            final(self).depth() == old(self).depth(),
            extends_log(final(self).answers(), old(self).answers()),
            forall|orc: HostOracle| #[trigger] follows(orc, final(self).answers()) ==> eval(old(self).store(), exp@, fuel as nat, orc) == Outcome::Done(final(self).store(), result_view(r)),
        decreases fuel, 3int, 0int,
    {
        match exp {
            SExpression::Null => Ok(SExpression::Null),
            SExpression::Cell(Cell::Symbol(_, name)) => self.get_definition_by_symbol(name.clone()),
            SExpression::Cell(c) => Ok(SExpression::Cell(c.copy())),
            SExpression::List(list) => {
                if fuel == 0 {
                    Err(fixed("Evaluation limit reached"))
                } else {
                    self.evaluate_link(&list.head, fuel - 1)
                }
            },
        }
    }

    pub(crate) fn evaluate_link(&mut self, xs: &Link, f: u64) -> (r: Result<SExpression, String>)
        requires
            old(self).wf(),
        ensures
            final(self).wf(),
            final(self).depth() == old(self).depth(),
            extends_log(final(self).answers(), old(self).answers()),
            forall|orc: HostOracle| #[trigger] follows(orc, final(self).answers()) ==> eval_list(old(self).store(), xs.elems(), f as nat, orc) == Outcome::Done(final(self).store(), result_view(r)),
        decreases f + 1, 2int, 0int,
    {
        proof {
            xs.lemma_unfold();
        }
        match xs {
            Link::Nil => Err(fixed("cannot apply empty list")),
            Link::Data(pair) => {
                let args = &pair.cdr;
                match &*pair.car {
                    SExpression::Cell(Cell::Special(form)) => self.special_form(*form, args, f),
                    SExpression::Cell(Cell::Core(func)) => {
                        if !is_implemented(*func) {
                            return Err(message("Core function ", func.print(), " not implemented"));
                        }
                        match self.eval_each_link(args, f) {
                            Err(m) => Err(m),
                            Ok(vals) => apply_core(*func, vals),
                        }
                    },
                    SExpression::Cell(Cell::Symbol(_, name)) => self.call_function(name, args, f),
                    SExpression::Cell(Cell::Op(op)) => self.operator(*op, args, f),
                    SExpression::Cell(Cell::Logical(op)) => self.logical(*op, args, f),
                    SExpression::List(_) => self.evaluate_within(&*pair.car, f),
                    SExpression::Null => Ok(SExpression::Null),
                    SExpression::Cell(_) => Err(fixed("Evaluation on this cell type not supported")),
                }
            },
        }
    }

    #[verifier::rlimit(40)]
    fn eval_each_link(&mut self, xs: &Link, f: u64) -> (r: Result<Vec<SExpression>, String>)
        requires
            old(self).wf(),
        ensures
            final(self).wf(),
            final(self).depth() == old(self).depth(),
            extends_log(final(self).answers(), old(self).answers()),
            forall|orc: HostOracle| #[trigger] follows(orc, final(self).answers()) ==> eval_each(old(self).store(), xs.elems(), f as nat, orc) == Outcome::Done(final(self).store(), values_view(r)),
            r matches Ok(vs) ==> vs@.len() == xs.elems().len(),
        decreases f + 1, 0int, xs.elems().len(),
    {
        proof {
            xs.lemma_unfold();
        }
        match xs {
            Link::Nil => {
                let v: Vec<SExpression> = Vec::new();
                assert(v@.map_values(|e: SExpression| e@) =~= Seq::<SexpV>::empty());
                Ok(v)
            },
            Link::Data(pair) => {
                let ghost s0 = self.store();
                match self.evaluate_within(&*pair.car, f) {
                    Err(m) => Err(m),
                    Ok(v) => {
                        let ghost s1 = self.store();
                        let ghost l1 = self.answers();
                        let ghost vv = v@;
                        let r2 = self.eval_each_link(&pair.cdr, f);
                        let ghost l2 = self.answers();
                        let ghost r2v = values_view(r2);
                        let r = match r2 {
                            Err(m) => Err(m),
                            Ok(vs) => {
                                let ghost old_vs = vs@;
                                let mut vs = vs;
                                vs.insert(0, v);
                                assert(vs@.map_values(|e: SExpression| e@) =~= seq![vv]
                                    + old_vs.map_values(|e: SExpression| e@));
                                Ok(vs)
                            },
                        };
                        proof {
                            assert forall|orc: HostOracle| #[trigger] follows(orc, l2) implies eval_each(
                                s0,
                                xs.elems(),
                                f as nat,
                                orc,
                            ) == Outcome::Done(self.store(), values_view(r)) by {
                                crate::semantics::lemma_follows_prefix(orc, l2, l1);
                                assert(eval(s0, (*pair.car)@, f as nat, orc) == Outcome::Done(s1, Ok::<SexpV, Seq<char>>(vv)));
                                assert(eval_each(s1, pair.cdr.elems(), f as nat, orc) == Outcome::Done(self.store(), r2v));
                            }
                        }
                        r
                    },
                }
            },
        }
    }

    fn special_form(&mut self, form: SpecialForm, args: &Link, f: u64) -> (r: Result<SExpression, String>)
        requires
            old(self).wf(),
        ensures
            final(self).wf(),
            final(self).depth() == old(self).depth(),
            extends_log(final(self).answers(), old(self).answers()),
            forall|orc: HostOracle| #[trigger] follows(orc, final(self).answers()) ==> eval_special(old(self).store(), form, args.elems(), f as nat, orc) == Outcome::Done(final(self).store(), result_view(r)),
        decreases f + 1, 1int, 0int,
    {
        match form {
            SpecialForm::If => self.evaluate_if(args, f),
            SpecialForm::SetBang => self.evaluate_set(args, f),
            SpecialForm::While => {
                if !args.has_len(2) {
                    return Err(fixed("while expression must have two clauses (test) (body)."));
                }
                self.evaluate_while(args.nth(0), args.nth(1), f)
            },
            SpecialForm::Begin => {
                if args.has_len(0) {
                    return Err(fixed("begin expression must hold at least one expression."));
                }
                match self.eval_each_link(args, f) {
                    Err(m) => Err(m),
                    Ok(vs) => {
                        let n = vs.len();
                        Ok(vs[n - 1].copy())
                    },
                }
            },
            SpecialForm::Output => {
                match self.eval_each_link(args, f) {
                    Err(m) => Err(m),
                    Ok(vs) => {
                        let ghost st1 = self.store();
                        let mut text = String::new();
                        print_items_from(&vs, 0, &mut text);
                        assert(vs@.map_values(|e: SExpression| e@).subrange(0, vs@.len() as int)
                            =~= vs@.map_values(|e: SExpression| e@));
                        let line = text.clone();
                        self.output.push(line);
                        assert(self.store().out =~= st1.out.push(text@));
                        assert(self.store().binds =~= st1.binds);
                        assert(self.store().starts =~= st1.starts);
                        Ok(SExpression::Cell(Cell::Str(text)))
                    },
                }
            },
            SpecialForm::Define => self.evaluate_define(args, f),
            _ => Err(message("Special form ", form.print(), " not implemented")),
        }
    }

    fn evaluate_if(&mut self, args: &Link, f: u64) -> (r: Result<SExpression, String>)
        requires
            old(self).wf(),
        ensures
            final(self).wf(),
            final(self).depth() == old(self).depth(),
            extends_log(final(self).answers(), old(self).answers()),
            forall|orc: HostOracle| #[trigger] follows(orc, final(self).answers()) ==> eval_if(old(self).store(), args.elems(), f as nat, orc) == Outcome::Done(final(self).store(), result_view(r)),
        decreases f + 1, 0int, 0int,
    {
        if !args.has_len(3) {
            return Err(fixed("if expression must have three parts."));
        }
        match self.evaluate_within(args.nth(0), f) {
            Err(m) => Err(m),
            Ok(v) => match v.as_rust_bool() {
                Err(m) => Err(m),
                Ok(b) => {
                    if b {
                        self.evaluate_within(args.nth(1), f)
                    } else {
                        self.evaluate_within(args.nth(2), f)
                    }
                },
            },
        }
    }

    fn evaluate_set(&mut self, args: &Link, f: u64) -> (r: Result<SExpression, String>)
        requires
            old(self).wf(),
        ensures
            final(self).wf(),
            final(self).depth() == old(self).depth(),
            extends_log(final(self).answers(), old(self).answers()),
            forall|orc: HostOracle| #[trigger] follows(orc, final(self).answers()) ==> eval_set(old(self).store(), args.elems(), f as nat, orc) == Outcome::Done(final(self).store(), result_view(r)),
        decreases f + 1, 0int, 0int,
    {
        if !args.has_at_least(2) {
            return Err(fixed("set! expression must have two arguments."));
        }
        if args.has_at_least(3) {
            return Err(fixed("set! expression must have only two arguments."));
        }
        match self.evaluate_within(args.nth(1), f) {
            Err(m) => Err(m),
            Ok(v) => match args.nth(0) {
                SExpression::Cell(Cell::Symbol(_, name)) => match self.assign(name, v) {
                    Ok(slot) => Ok(SExpression::Cell(Cell::Int(slot as i64))),
                    Err(m) => Err(m),
                },
                _ => Err(fixed("First argument to set! must be a symbol.")),
            },
        }
    }

    fn evaluate_while(&mut self, test: &SExpression, body: &SExpression, f: u64) -> (r: Result<SExpression, String>)
        requires
            old(self).wf(),
        ensures
            final(self).wf(),
            final(self).depth() == old(self).depth(),
            extends_log(final(self).answers(), old(self).answers()),
            forall|orc: HostOracle| #[trigger] follows(orc, final(self).answers()) ==> eval_while(
                old(self).store(),
                test@,
                body@,
                SexpV::Cell(CellV::Bool(false)),
                f as nat,
                f as nat,
                orc,
            ) == Outcome::Done(final(self).store(), result_view(r)),
        decreases f + 1, 0int, 1int,
    {
        let ghost depth = old(self).depth();
        let mut last = SExpression::Cell(Cell::Bool(false));
        let mut rounds: u64 = f;
        loop
            invariant
                depth == old(self).depth(),
                self.wf(),
                self.depth() == depth,
                extends_log(self.answers(), old(self).answers()),
                forall|orc: HostOracle| #[trigger] follows(orc, self.answers()) ==> eval_while(
                    old(self).store(),
                    test@,
                    body@,
                    SexpV::Cell(CellV::Bool(false)),
                    f as nat,
                    f as nat,
                    orc,
                ) == eval_while(self.store(), test@, body@, last@, f as nat, rounds as nat, orc),
            decreases rounds,
        {
            match self.while_round(test, body, &mut last, f, rounds) {
                Err(m) => {
                    return Err(m);
                },
                Ok(false) => {
                    return Ok(last);
                },
                Ok(true) => {
                    rounds = rounds - 1;
                },
            }
        }
    }

    /// One round of a `while` loop: evaluates the test and, when it holds,
    /// the body, whose value goes to `last`. `Ok(false)` when the test failed.
    fn while_round(&mut self, test: &SExpression, body: &SExpression, last: &mut SExpression, f: u64, rounds: u64) -> (r: Result<bool, String>)
        requires
            old(self).wf(),
        ensures
            final(self).wf(),
            final(self).depth() == old(self).depth(),
            extends_log(final(self).answers(), old(self).answers()),
            r is Err ==> forall|orc: HostOracle| #[trigger] follows(orc, final(self).answers()) ==> eval_while(
                old(self).store(), test@, body@, old(last)@, f as nat, rounds as nat, orc,
            ) == Outcome::Done(final(self).store(), Err::<SexpV, Seq<char>>(err_text(r))),
            r == Ok::<bool, String>(false) ==> final(last)@ == old(last)@,
            r == Ok::<bool, String>(false) ==> forall|orc: HostOracle| #[trigger] follows(orc, final(self).answers()) ==> eval_while(
                old(self).store(), test@, body@, old(last)@, f as nat, rounds as nat, orc,
            ) == Outcome::Done(final(self).store(), Ok::<SexpV, Seq<char>>(old(last)@)),
            r == Ok::<bool, String>(true) ==> rounds > 0,
            r == Ok::<bool, String>(true) ==> forall|orc: HostOracle| #[trigger] follows(orc, final(self).answers()) ==> eval_while(
                old(self).store(), test@, body@, old(last)@, f as nat, rounds as nat, orc,
            ) == eval_while(final(self).store(), test@, body@, final(last)@, f as nat, (rounds - 1) as nat, orc),
        decreases f + 1, 0int, 0int,
    {
        match self.evaluate_within(test, f) {
            Err(m) => Err(m),
            Ok(t) => match t.as_rust_bool() {
                Err(m) => Err(m),
                Ok(false) => Ok(false),
                Ok(true) => {
                    if rounds == 0 {
                        return Err(fixed("Evaluation limit reached"));
                    }
                    match self.evaluate_within(body, f) {
                        Err(m) => Err(m),
                        Ok(v) => {
                            *last = v;
                            Ok(true)
                        },
                    }
                },
            },
        }
    }

    fn evaluate_define(&mut self, args: &Link, f: u64) -> (r: Result<SExpression, String>)
        requires
            old(self).wf(),
        ensures
            final(self).wf(),
            final(self).depth() == old(self).depth(),
            extends_log(final(self).answers(), old(self).answers()),
            forall|orc: HostOracle| #[trigger] follows(orc, final(self).answers()) ==> eval_define(old(self).store(), args.elems(), f as nat, orc) == Outcome::Done(final(self).store(), result_view(r)),
        decreases f + 1, 0int, 0int,
    {
        let null = SExpression::Null;
        let target: &SExpression = if args.has_at_least(1) { args.nth(0) } else { &null };
        let value: &SExpression = if args.has_at_least(2) { args.nth(1) } else { &null };
        if args.has_at_least(3) {
            return Err(prefixed("define can only take one expression as the value: ", target.print().as_str()));
        }
        let ghost a = args.elems();
        let ghost st = old(self).store();
        assert(target@ == (if a.len() > 0 { a[0] } else { SexpV::Null }));
        assert(value@ == (if a.len() > 1 { a[1] } else { SexpV::Null }));
        match target {
            SExpression::Cell(Cell::Symbol(_, name)) => {
                let r = match self.evaluate_within(value, f) {
                    Err(m) => Err(m),
                    Ok(v) => match self.define(name.clone(), v) {
                        Ok(_) => Ok(target.copy()),
                        Err(m) => Err(m),
                    },
                };
                assert(forall|orc: HostOracle| #[trigger] follows(orc, self.answers()) ==> eval_define(st, a, f as nat, orc) == Outcome::Done(self.store(), result_view(r)));
                r
            },
            SExpression::Cell(c) => Err(prefixed("Cannot re-define ", c.print().as_str())),
            SExpression::List(sig) => {
                proof {
                    sig.head.lemma_unfold();
                }
                let fname: &SExpression = if sig.head.has_at_least(1) { sig.head.nth(0) } else { &null };
                match fname {
                    SExpression::Cell(Cell::Symbol(_, name)) => {
                        let params = SExpression::List(List { head: sig.head.tail().copy() });
                        assert(params@ == SexpV::List(tail(sig@)));
                        let lambda = SExpression::Cell(Cell::Lambda(Box::new(params), Box::new(value.copy())));
                        let r = match self.define(name.clone(), lambda) {
                            Ok(_) => Ok(target.copy()),
                            Err(m) => Err(m),
                        };
                        assert(forall|orc: HostOracle| #[trigger] follows(orc, self.answers()) ==> eval_define(st, a, f as nat, orc) == Outcome::Done(self.store(), result_view(r)));
                        r
                    },
                    _ => Err(prefixed("Invalid function name: ", fname.print().as_str())),
                }
            },
            SExpression::Null => Err(fixed("Cannot apply special form treatment to Null")),
        }
    }

    /// Binds the parameter names of `names` to `vals[i..]`, in order.
    fn bind_from(&mut self, names: &Link, vals: &Vec<SExpression>, i: usize) -> (r: Result<(), String>)
        requires
            old(self).wf(),
            i <= vals@.len(),
        ensures
            final(self).answers() == old(self).answers(),
            final(self).wf(),
            final(self).depth() == old(self).depth(),
            match bind_each(
                old(self).store(),
                names.elems(),
                vals@.map_values(|e: SExpression| e@).subrange(i as int, vals@.len() as int),
            ) {
                Ok(st) => r is Ok && final(self).store() == st,
                Err(m) => r is Err && err_text(r) == m && extends(final(self).store(), old(self).store()),
            },
        decreases names.elems().len(),
    {
        let ghost st = old(self).store();
        let ghost vv = vals@.map_values(|e: SExpression| e@).subrange(i as int, vals@.len() as int);
        proof {
            names.lemma_unfold();
        }
        assert(st.binds.subrange(0, st.binds.len() as int) =~= st.binds);
        match names {
            Link::Nil => Ok(()),
            Link::Data(p) => {
                if i >= vals.len() {
                    return Ok(());
                }
                assert(vv[0] == vals@[i as int]@);
                assert(tail(vv) =~= vals@.map_values(|e: SExpression| e@).subrange(i + 1, vals@.len() as int));
                match &*p.car {
                    SExpression::Cell(Cell::Symbol(_, n)) => match self.define(n.clone(), vals[i].copy()) {
                        Err(m) => Err(m),
                        Ok(_) => {
                            let ghost mid = self.store();
                            let r = self.bind_from(&p.cdr, vals, i + 1);
                            proof {
                                if r is Err {
                                    let fin = self.store();
                                    assert(fin.binds.subrange(0, st.binds.len() as int)
                                        =~= fin.binds.subrange(0, mid.binds.len() as int).subrange(0, st.binds.len() as int));
                                    assert(mid.binds.subrange(0, st.binds.len() as int) =~= st.binds);
                                }
                            }
                            r
                        },
                    },
                    _ => Err(fixed("A parameter name must be a symbol")),
                }
            },
        }
    }

    fn bind_parameters(&mut self, params: &SExpression, vals: &Vec<SExpression>) -> (r: Result<(), String>)
        requires
            old(self).wf(),
        ensures
            final(self).answers() == old(self).answers(),
            final(self).wf(),
            final(self).depth() == old(self).depth(),
            match bind_params(old(self).store(), params@, vals@.map_values(|e: SExpression| e@)) {
                Ok(st) => r is Ok && final(self).store() == st,
                Err(m) => r is Err && err_text(r) == m && extends(final(self).store(), old(self).store()),
            },
    {
        assert(old(self).store().binds.subrange(0, old(self).store().binds.len() as int) =~= old(self).store().binds);
        match params {
            SExpression::List(names) => {
                if !names.head.has_len(vals.len()) {
                    return Err(fixed("Mismatch between number of arguments and function parameters"));
                }
                assert(vals@.map_values(|e: SExpression| e@).subrange(0, vals@.len() as int)
                    =~= vals@.map_values(|e: SExpression| e@));
                self.bind_from(&names.head, vals, 0)
            },
            _ => Err(fixed("Invalid parameter list")),
        }
    }

    fn call_function(&mut self, name: &String, args: &Link, f: u64) -> (r: Result<SExpression, String>)
        requires
            old(self).wf(),
        ensures
            final(self).wf(),
            final(self).depth() == old(self).depth(),
            extends_log(final(self).answers(), old(self).answers()),
            forall|orc: HostOracle| #[trigger] follows(orc, final(self).answers()) ==> apply_function(old(self).store(), name@, args.elems(), f as nat, orc) == Outcome::Done(final(self).store(), result_view(r)),
        decreases f + 1, 1int, 0int,
    {
        let func = match self.get_definition_by_symbol(name.clone()) {
            Err(m) => {
                return Err(m);
            },
            Ok(v) => v,
        };
        match func {
            SExpression::Cell(Cell::Lambda(params, body)) => {
                let vals = match self.eval_each_link(args, f) {
                    Err(m) => {
                        return Err(m);
                    },
                    Ok(vs) => vs,
                };
                let ghost s1 = self.store();
                self.make_child();
                match self.bind_parameters(&params, &vals) {
                    Err(m) => {
                        self.drop_child();
                        assert(self.store().binds =~= s1.binds);
                        assert(self.store().starts =~= s1.starts);
                        Err(m)
                    },
                    Ok(()) => {
                        let r = self.evaluate_within(&body, f);
                        self.drop_child();
                        r
                    },
                }
            },
            other => Err(prefixed("Can't evaluate as function: ", other.print().as_str())),
        }
    }

    fn operator(&mut self, op: NumericOperator, args: &Link, f: u64) -> (r: Result<SExpression, String>)
        requires
            old(self).wf(),
        ensures
            final(self).wf(),
            final(self).depth() == old(self).depth(),
            extends_log(final(self).answers(), old(self).answers()),
            forall|orc: HostOracle| #[trigger] follows(orc, final(self).answers()) ==> apply_operator(old(self).store(), op, args.elems(), f as nat, orc) == Outcome::Done(final(self).store(), result_view(r)),
        decreases f + 1, 1int, 0int,
    {
        if !args.has_at_least(2) {
            return Err(message("Operator ", op.print(), " requires two arguments"));
        }
        proof {
            args.lemma_unfold();
        }
        match op {
            NumericOperator::Add => self.arith_fold(op, Cell::Int(0), args, f),
            NumericOperator::Multiply => self.arith_fold(op, Cell::Int(1), args, f),
            NumericOperator::Modulo => Err(message("Operator '", op.print(), "' not implemented")),
            _ => match self.evaluate_within(args.nth(0), f) {
                Err(m) => Err(m),
                Ok(v) => match v.as_number() {
                    Err(m) => Err(m),
                    Ok(n) => self.arith_fold(op, n, args.tail(), f),
                },
            },
        }
    }

    fn arith_fold(&mut self, op: NumericOperator, acc: Cell, xs: &Link, f: u64) -> (r: Result<SExpression, String>)
        requires
            old(self).wf(),
            acc@.is_number(),
            !(op is Modulo),
        ensures
            final(self).wf(),
            final(self).depth() == old(self).depth(),
            extends_log(final(self).answers(), old(self).answers()),
            forall|orc: HostOracle| #[trigger] follows(orc, final(self).answers()) ==> arith_fold(old(self).store(), op, acc@, xs.elems(), f as nat, orc) == Outcome::Done(final(self).store(), result_view(r)),
        decreases f + 1, 0int, xs.elems().len(),
    {
        proof {
            xs.lemma_unfold();
        }
        match xs {
            Link::Nil => Ok(SExpression::Cell(acc)),
            Link::Data(p) => match self.evaluate_within(&*p.car, f) {
                Err(m) => Err(m),
                Ok(v) => match v.as_number() {
                    Err(m) => Err(m),
                    Ok(n) => match self.host_step(op, &acc, &n) {
                        Err(m) => Err(m),
                        Ok(a2) => self.arith_fold(op, a2, &p.cdr, f),
                    },
                },
            },
        }
    }

    fn logical(&mut self, op: LogicalOperator, args: &Link, f: u64) -> (r: Result<SExpression, String>)
        requires
            old(self).wf(),
        ensures
            final(self).wf(),
            final(self).depth() == old(self).depth(),
            extends_log(final(self).answers(), old(self).answers()),
            forall|orc: HostOracle| #[trigger] follows(orc, final(self).answers()) ==> apply_logical(old(self).store(), op, args.elems(), f as nat, orc) == Outcome::Done(final(self).store(), result_view(r)),
        decreases f + 1, 1int, 0int,
    {
        if !args.has_at_least(2) {
            return Err(message("Operator ", op.print(), " requires two arguments"));
        }
        match op {
            LogicalOperator::Less | LogicalOperator::Greater | LogicalOperator::Equal
            | LogicalOperator::LessEqual | LogicalOperator::GreaterEqual => {
                match self.evaluate_within(args.nth(0), f) {
                    Err(m) => Err(m),
                    Ok(v) => match v.as_number() {
                        Err(m) => Err(m),
                        Ok(n) => self.compare_chain(op, n, args.tail(), f),
                    },
                }
            },
            LogicalOperator::Or => self.or_chain(args, f),
            LogicalOperator::And => self.and_chain(args, f),
            _ => Err(message("Operator '", op.print(), "' not implemented")),
        }
    }

    fn compare_chain(&mut self, op: LogicalOperator, prev: Cell, xs: &Link, f: u64) -> (r: Result<SExpression, String>)
        requires
            old(self).wf(),
            prev@.is_number(),
            is_comparison(op),
        ensures
            final(self).wf(),
            final(self).depth() == old(self).depth(),
            extends_log(final(self).answers(), old(self).answers()),
            forall|orc: HostOracle| #[trigger] follows(orc, final(self).answers()) ==> compare_chain(old(self).store(), op, prev@, xs.elems(), f as nat, orc) == Outcome::Done(final(self).store(), result_view(r)),
        decreases f + 1, 0int, xs.elems().len(),
    {
        proof {
            xs.lemma_unfold();
        }
        match xs {
            Link::Nil => Ok(SExpression::Cell(Cell::Bool(true))),
            Link::Data(p) => match self.evaluate_within(&*p.car, f) {
                Err(m) => Err(m),
                Ok(v) => match v.as_number() {
                    Err(m) => Err(m),
                    Ok(n) => {
                        if self.host_compare(op, &prev, &n) {
                            self.compare_chain(op, n, &p.cdr, f)
                        } else {
                            Ok(SExpression::Cell(Cell::Bool(false)))
                        }
                    },
                },
            },
        }
    }

    fn or_chain(&mut self, xs: &Link, f: u64) -> (r: Result<SExpression, String>)
        requires
            old(self).wf(),
        ensures
            final(self).wf(),
            final(self).depth() == old(self).depth(),
            extends_log(final(self).answers(), old(self).answers()),
            forall|orc: HostOracle| #[trigger] follows(orc, final(self).answers()) ==> or_chain(old(self).store(), xs.elems(), f as nat, orc) == Outcome::Done(final(self).store(), result_view(r)),
        decreases f + 1, 0int, xs.elems().len(),
    {
        proof {
            xs.lemma_unfold();
        }
        match xs {
            Link::Nil => Ok(SExpression::Cell(Cell::Bool(false))),
            Link::Data(p) => match self.evaluate_within(&*p.car, f) {
                Err(m) => Err(m),
                Ok(v) => match v.as_rust_bool() {
                    Err(m) => Err(m),
                    Ok(true) => Ok(SExpression::Cell(Cell::Bool(true))),
                    Ok(false) => self.or_chain(&p.cdr, f),
                },
            },
        }
    }

    fn and_chain(&mut self, xs: &Link, f: u64) -> (r: Result<SExpression, String>)
        requires
            old(self).wf(),
        ensures
            final(self).wf(),
            final(self).depth() == old(self).depth(),
            extends_log(final(self).answers(), old(self).answers()),
            forall|orc: HostOracle| #[trigger] follows(orc, final(self).answers()) ==> and_chain(old(self).store(), xs.elems(), f as nat, orc) == Outcome::Done(final(self).store(), result_view(r)),
        decreases f + 1, 0int, xs.elems().len(),
    {
        proof {
            xs.lemma_unfold();
        }
        match xs {
            Link::Nil => Ok(SExpression::Cell(Cell::Bool(true))),
            Link::Data(p) => match self.evaluate_within(&*p.car, f) {
                Err(m) => Err(m),
                Ok(v) => match v.as_rust_bool() {
                    Err(m) => Err(m),
                    Ok(false) => Ok(SExpression::Cell(Cell::Bool(false))),
                    Ok(true) => self.and_chain(&p.cdr, f),
                },
            },
        }
    }
}

/// Opens a new innermost frame in `env`: the frame of a function call.
pub fn extend_environment<F: FloatArith>(env: &mut Environment<F>)
    requires
        old(env).wf(),
    ensures
        final(env).answers() == old(env).answers(),
        final(env).wf(),
        final(env).store() == old(env).store().push_frame(),
{
    env.make_child();
}

impl<F: FloatArith> Environment<F> {
    /// Evaluates an S-expression.
    pub fn evaluate(&mut self, exp: SExpression) -> (r: Result<SExpression, String>)
        requires
            old(self).wf(),
        ensures
            final(self).wf(),
            final(self).depth() == old(self).depth(),
            extends_log(final(self).answers(), old(self).answers()),
            forall|orc: HostOracle| #[trigger] follows(orc, final(self).answers()) ==> eval(old(self).store(), exp@, EVAL_FUEL as nat, orc) == Outcome::Done(final(self).store(), result_view(r)),
    {
        self.evaluate_within(&exp, EVAL_FUEL)
    }

    /// Applies a special form to its (unevaluated) operands.
    pub fn apply_special_form(&mut self, func: SpecialForm, args: List) -> (r: Result<SExpression, String>)
        requires
            old(self).wf(),
        ensures
            final(self).wf(),
            final(self).depth() == old(self).depth(),
            extends_log(final(self).answers(), old(self).answers()),
            forall|orc: HostOracle| #[trigger] follows(orc, final(self).answers()) ==> eval_special(old(self).store(), func, args@, EVAL_FUEL as nat, orc) == Outcome::Done(final(self).store(), result_view(r)),
    {
        self.special_form(func, &args.head, EVAL_FUEL)
    }

    /// Evaluates each element of `args` in order and collects the values.
    pub fn eval_each(&mut self, args: List) -> (r: Result<Vec<SExpression>, String>)
        requires
            old(self).wf(),
        ensures
            final(self).wf(),
            final(self).depth() == old(self).depth(),
            extends_log(final(self).answers(), old(self).answers()),
            forall|orc: HostOracle| #[trigger] follows(orc, final(self).answers()) ==> eval_each(old(self).store(), args@, EVAL_FUEL as nat, orc) == Outcome::Done(final(self).store(), values_view(r)),
            r matches Ok(vs) ==> vs@.len() == args@.len(),
    {
        self.eval_each_link(&args.head, EVAL_FUEL)
    }

    /// Calls the lambda bound to `name` on the values of `args`.
    pub fn apply_function(&mut self, number: i32, name: String, args: List) -> (r: Result<SExpression, String>)
        requires
            old(self).wf(),
        ensures
            final(self).wf(),
            final(self).depth() == old(self).depth(),
            extends_log(final(self).answers(), old(self).answers()),
            forall|orc: HostOracle| #[trigger] follows(orc, final(self).answers()) ==> apply_function(old(self).store(), name@, args@, EVAL_FUEL as nat, orc) == Outcome::Done(final(self).store(), result_view(r)),
    {
        self.call_function(&name, &args.head, EVAL_FUEL)
    }

    /// Applies a numeric operator to the values of `list`.
    pub fn apply_operator(&mut self, func: NumericOperator, list: List) -> (r: Result<SExpression, String>)
        requires
            old(self).wf(),
        ensures
            final(self).wf(),
            final(self).depth() == old(self).depth(),
            extends_log(final(self).answers(), old(self).answers()),
            forall|orc: HostOracle| #[trigger] follows(orc, final(self).answers()) ==> apply_operator(old(self).store(), func, list@, EVAL_FUEL as nat, orc) == Outcome::Done(final(self).store(), result_view(r)),
    {
        self.operator(func, &list.head, EVAL_FUEL)
    }

    /// Applies a logical operator to the operands in `list`.
    pub fn apply_logical_operator(&mut self, func: LogicalOperator, list: List) -> (r: Result<SExpression, String>)
        requires
            old(self).wf(),
        ensures
            final(self).wf(),
            final(self).depth() == old(self).depth(),
            extends_log(final(self).answers(), old(self).answers()),
            forall|orc: HostOracle| #[trigger] follows(orc, final(self).answers()) ==> apply_logical(old(self).store(), func, list@, EVAL_FUEL as nat, orc) == Outcome::Done(final(self).store(), result_view(r)),
    {
        self.logical(func, &list.head, EVAL_FUEL)
    }

    /// `and` over the operands in `list`, stopping at the first false one.
    pub fn eval_and(&mut self, list: List) -> (r: Result<SExpression, String>)
        requires
            old(self).wf(),
        ensures
            final(self).wf(),
            final(self).depth() == old(self).depth(),
            extends_log(final(self).answers(), old(self).answers()),
            forall|orc: HostOracle| #[trigger] follows(orc, final(self).answers()) ==> and_chain(old(self).store(), list@, EVAL_FUEL as nat, orc) == Outcome::Done(final(self).store(), result_view(r)),
    {
        self.and_chain(&list.head, EVAL_FUEL)
    }

    /// The lines written by `output` since the last call, oldest first; the
    /// record is emptied.
    pub fn take_output(&mut self) -> (r: Vec<String>)
        requires
            old(self).wf(),
        ensures
            final(self).answers() == old(self).answers(),
            final(self).wf(),
            r@.map_values(|s: String| s@) == old(self).store().out,
            final(self).store() == (Store { out: Seq::empty(), ..old(self).store() }),
    {
        let mut lines: Vec<String> = Vec::new();
        std::mem::swap(&mut lines, &mut self.output);
        assert(self.store().out =~= Seq::<Seq<char>>::empty());
        assert(self.store().binds =~= old(self).store().binds);
        assert(self.store().starts =~= old(self).store().starts);
        lines
    }

    /// One `name : position value` line per binding of the innermost frame.
    pub fn print(&self) -> (r: String)
        requires
            self.wf(),
        ensures
            r@ == frame_listing(self.store().binds, self.store().top_start(), self.store().binds.len() as int),
    {
        let top = self.frame_starts[self.frame_starts.len() - 1];
        let ghost st = self.store();
        assert(st.starts[st.starts.len() - 1] <= st.binds.len());
        assert(top as int == st.top_start());
        let mut s = String::new();
        let mut i = top;
        while i < self.bindings.len()
            invariant
                self.wf(),
                top as int == self.store().top_start(),
                top <= i <= self.bindings@.len(),
                s@ == frame_listing(self.store().binds, top as int, i as int),
            decreases self.bindings@.len() - i,
        {
            if i > top {
                append_text(&mut s, "\n");
            }
            append_text(&mut s, self.bindings[i].name.as_str());
            append_text(&mut s, " : ");
            push_int(&mut s, (i - top) as i64);
            append_text(&mut s, " ");
            self.bindings[i].value.print_into(&mut s);
            i = i + 1;
            assert(s@ =~= frame_listing(self.store().binds, top as int, i as int));
        }
        s
    }
}

/// The listing of bindings `[lo, hi)`: one line each, positions counted from `lo`.
pub open spec fn frame_listing(binds: Seq<(Seq<char>, SexpV)>, lo: int, hi: int) -> Seq<char>
    decreases hi - lo,
{
    if hi <= lo {
        Seq::empty()
    } else {
        let line = binds[hi - 1].0 + " : "@ + int_text(hi - 1 - lo) + " "@ + printed(binds[hi - 1].1);
        if hi - 1 == lo {
            line
        } else {
            frame_listing(binds, lo, hi - 1) + "\n"@ + line
        }
    }
}

} // verus!
